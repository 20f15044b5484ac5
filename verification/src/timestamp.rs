//! Rational timestamp with timebase, arithmetic operations, and overflow protection.

use vstd::prelude::*;

verus! {

/// Rust's integer division, which rounds toward zero (`d > 0`).
pub open spec fn trunc_div(n: int, d: int) -> int {
    if n >= 0 {
        n / d
    } else {
        -((-n) / d)
    }
}

/// A rational timestamp representing a point in time within a media stream.
///
/// Internally stores `ticks` (numerator) and `timebase` (ticks per second).
/// For example, frame 150 at 30fps is `ticks: 150, timebase: 30` = 5.0 seconds.
/// The timebase is never zero.
///
/// All arithmetic operations use checked math and return `Option` to prevent silent overflow.
#[derive(Clone, Copy, Debug)]
pub struct Timestamp {
    ticks: i64,
    timebase: u32,
}

impl Timestamp {
    #[verifier::type_invariant]
    spec fn timebase_nonzero(self) -> bool {
        self.timebase > 0
    }

    /// The tick count.
    pub closed spec fn spec_ticks(self) -> i64 {
        self.ticks
    }

    /// The number of ticks per second.
    pub closed spec fn spec_timebase(self) -> u32 {
        self.timebase
    }

    /// Creates a new timestamp. Returns `None` if `timebase` is zero.
    pub fn new(ticks: i64, timebase: u32) -> (r: Option<Timestamp>)
        ensures
            r is Some <==> timebase > 0,
            r matches Some(t) ==> t.ticks() == ticks && t.timebase() == timebase,
    {
        if timebase == 0 {
            None
        } else {
            Some(Timestamp { ticks, timebase })
        }
    }

    /// Creates a timestamp representing zero in the given timebase.
    /// Returns `None` if `timebase` is zero.
    pub fn zero(timebase: u32) -> (r: Option<Timestamp>)
        ensures
            r is Some <==> timebase > 0,
            r matches Some(t) ==> t.ticks() == 0 && t.timebase() == timebase,
    {
        Self::new(0, timebase)
    }

    /// Returns the tick count (numerator).
    #[verifier::when_used_as_spec(spec_ticks)]
    pub fn ticks(self) -> (r: i64)
        ensures
            r == self.spec_ticks(),
    {
        self.ticks
    }

    /// Returns the timebase (ticks per second).
    #[verifier::when_used_as_spec(spec_timebase)]
    pub fn timebase(self) -> (r: u32)
        ensures
            r == self.spec_timebase(),
            r > 0,
    {
        proof {
            use_type_invariant(&self);
        }
        self.timebase
    }

    /// The tick count of this timestamp in `target` ticks per second, rounded
    /// toward zero.
    pub open spec fn rescaled_ticks(self, target: u32) -> int {
        trunc_div(self.ticks() * target, self.timebase() as int)
    }

    /// Rescales this timestamp to a different timebase, rounding toward zero.
    ///
    /// Returns `None` if the conversion would overflow.
    pub fn rescale(self, target_timebase: u32) -> (r: Option<Timestamp>)
        requires
            target_timebase > 0,
        ensures
            self.timebase() == target_timebase ==> r == Some(self),
            self.timebase() != target_timebase ==> {
                &&& (r is Some <==> i64::MIN <= self.rescaled_ticks(target_timebase) <= i64::MAX)
                &&& (r matches Some(t) ==> t.ticks() == self.rescaled_ticks(target_timebase)
                    && t.timebase() == target_timebase)
            },
    {
        proof {
            use_type_invariant(&self);
        }
        if self.timebase == target_timebase {
            return Some(self);
        }
        let neg = self.ticks < 0;
        let mag: u128 = if neg {
            (0i128 - self.ticks as i128) as u128
        } else {
            self.ticks as u128
        };
        proof {
            assert(mag * (target_timebase as u128) <= 0x8000_0000_0000_0000u128 * 0xffff_ffffu128) by (nonlinear_arith)
                requires mag <= 0x8000_0000_0000_0000u128, target_timebase <= 0xffff_ffffu32;
        }
        let prod: u128 = mag * target_timebase as u128;
        let q: u128 = prod / self.timebase as u128;
        proof {
            assert(prod == (if neg { -(self.ticks as int) } else { self.ticks as int }) * target_timebase);
            if neg {
                assert(-(self.ticks * target_timebase) == (-(self.ticks as int)) * target_timebase) by (nonlinear_arith);
            }
        }
        if neg {
            if q <= 9223372036854775808u128 {
                let t: i64 = if q == 9223372036854775808u128 {
                    i64::MIN
                } else {
                    0i64 - (q as i64)
                };
                Some(Timestamp { ticks: t, timebase: target_timebase })
            } else {
                None
            }
        } else {
            if q <= 9223372036854775807u128 {
                Some(Timestamp { ticks: q as i64, timebase: target_timebase })
            } else {
                None
            }
        }
    }

    /// Checked addition. The other timestamp is first rescaled to this
    /// timestamp's timebase when they differ. Returns `None` on overflow.
    pub fn checked_add(self, other: Timestamp) -> (r: Option<Timestamp>)
        ensures
            self.timebase() == other.timebase() ==> {
                &&& (r is Some <==> i64::MIN <= self.ticks() + other.ticks() <= i64::MAX)
                &&& (r matches Some(t) ==> t.ticks() == self.ticks() + other.ticks()
                    && t.timebase() == self.timebase())
            },
            self.timebase() != other.timebase() ==> {
                let o = other.rescaled_ticks(self.timebase());
                &&& (r is Some <==> i64::MIN <= o <= i64::MAX && i64::MIN <= self.ticks() + o <= i64::MAX)
                &&& (r matches Some(t) ==> t.ticks() == self.ticks() + o && t.timebase() == self.timebase())
            },
    {
        proof {
            use_type_invariant(&self);
        }
        let o = if self.timebase != other.timebase() {
            match other.rescale(self.timebase) {
                Some(x) => x.ticks(),
                None => return None,
            }
        } else {
            other.ticks()
        };
        match self.ticks.checked_add(o) {
            Some(ticks) => Some(Timestamp { ticks, timebase: self.timebase }),
            None => None,
        }
    }

    /// Checked subtraction. The other timestamp is first rescaled to this
    /// timestamp's timebase when they differ. Returns `None` on overflow.
    pub fn checked_sub(self, other: Timestamp) -> (r: Option<Timestamp>)
        ensures
            self.timebase() == other.timebase() ==> {
                &&& (r is Some <==> i64::MIN <= self.ticks() - other.ticks() <= i64::MAX)
                &&& (r matches Some(t) ==> t.ticks() == self.ticks() - other.ticks()
                    && t.timebase() == self.timebase())
            },
            self.timebase() != other.timebase() ==> {
                let o = other.rescaled_ticks(self.timebase());
                &&& (r is Some <==> i64::MIN <= o <= i64::MAX && i64::MIN <= self.ticks() - o <= i64::MAX)
                &&& (r matches Some(t) ==> t.ticks() == self.ticks() - o && t.timebase() == self.timebase())
            },
    {
        proof {
            use_type_invariant(&self);
        }
        let o = if self.timebase != other.timebase() {
            match other.rescale(self.timebase) {
                Some(x) => x.ticks(),
                None => return None,
            }
        } else {
            other.ticks()
        };
        match self.ticks.checked_sub(o) {
            Some(ticks) => Some(Timestamp { ticks, timebase: self.timebase }),
            None => None,
        }
    }

    /// The two cross products `self.ticks * other.timebase` and
    /// `other.ticks * self.timebase`, whose order is the order of the instants.
    fn cross(&self, other: &Timestamp) -> (r: (i128, i128))
        ensures
            r.0 == self.ticks() * other.timebase(),
            r.1 == other.ticks() * self.timebase(),
    {
        let a: i128 = self.ticks as i128;
        let b: i128 = other.timebase as i128;
        let c: i128 = other.ticks as i128;
        let d: i128 = self.timebase as i128;
        proof {
            assert(-0x8000_0000_0000_0000 * 0xffff_ffff <= a * b <= 0x7fff_ffff_ffff_ffff * 0xffff_ffff)
                by (nonlinear_arith)
                requires -0x8000_0000_0000_0000 <= a <= 0x7fff_ffff_ffff_ffff, 0 <= b <= 0xffff_ffff;
            assert(-0x8000_0000_0000_0000 * 0xffff_ffff <= c * d <= 0x7fff_ffff_ffff_ffff * 0xffff_ffff)
                by (nonlinear_arith)
                requires -0x8000_0000_0000_0000 <= c <= 0x7fff_ffff_ffff_ffff, 0 <= d <= 0xffff_ffff;
        }
        (a * b, c * d)
    }
}

/// Whether two timestamps denote the same instant (compared by cross-multiplying).
pub open spec fn same_instant(a: Timestamp, b: Timestamp) -> bool {
    a.ticks() * b.timebase() == b.ticks() * a.timebase()
}

/// Whether `a` denotes an earlier instant than `b`.
pub open spec fn earlier(a: Timestamp, b: Timestamp) -> bool {
    a.ticks() * b.timebase() < b.ticks() * a.timebase()
}

impl PartialEq for Timestamp {
    fn eq(&self, other: &Timestamp) -> (r: bool) {
        let (l, rr) = self.cross(other);
        l == rr
    }
}

impl vstd::std_specs::cmp::PartialEqSpecImpl for Timestamp {
    open spec fn obeys_eq_spec() -> bool {
        true
    }

    open spec fn eq_spec(&self, other: &Timestamp) -> bool {
        same_instant(*self, *other)
    }
}

impl Eq for Timestamp {}

impl PartialOrd for Timestamp {
    fn partial_cmp(&self, other: &Timestamp) -> (r: Option<core::cmp::Ordering>) {
        let (l, rr) = self.cross(other);
        if l < rr {
            Some(core::cmp::Ordering::Less)
        } else if l == rr {
            Some(core::cmp::Ordering::Equal)
        } else {
            Some(core::cmp::Ordering::Greater)
        }
    }
}

impl vstd::std_specs::cmp::PartialOrdSpecImpl for Timestamp {
    open spec fn obeys_partial_cmp_spec() -> bool {
        true
    }

    open spec fn partial_cmp_spec(&self, other: &Timestamp) -> Option<core::cmp::Ordering> {
        if earlier(*self, *other) {
            Some(core::cmp::Ordering::Less)
        } else if same_instant(*self, *other) {
            Some(core::cmp::Ordering::Equal)
        } else {
            Some(core::cmp::Ordering::Greater)
        }
    }
}

/// Denoting the same instant is an equivalence relation on timestamps.
pub proof fn lemma_same_instant_is_equivalence(a: Timestamp, b: Timestamp, c: Timestamp)
    requires
        a.timebase() > 0,
        b.timebase() > 0,
        c.timebase() > 0,
    ensures
        same_instant(a, a),
        same_instant(a, b) ==> same_instant(b, a),
        same_instant(a, b) && same_instant(b, c) ==> same_instant(a, c),
{
    if same_instant(a, b) && same_instant(b, c) {
        let (x, p) = (a.ticks() as int, a.timebase() as int);
        let (y, q) = (b.ticks() as int, b.timebase() as int);
        let (z, s) = (c.ticks() as int, c.timebase() as int);
        assert(x * s == z * p) by (nonlinear_arith)
            requires x * q == y * p, y * s == z * q, q > 0;
    }
}

/// Rescaling to a timebase that the original timebase divides keeps the
/// instant exactly.
pub proof fn lemma_rescale_to_multiple_is_exact(t: Timestamp, target: u32)
    requires
        t.timebase() > 0,
        target > 0,
        target % t.timebase() == 0,
    ensures
        t.rescaled_ticks(target) * t.timebase() == t.ticks() * target,
{
    let x = t.ticks() as int;
    let p = t.timebase() as int;
    let tg = target as int;
    let k = tg / p;
    assert(tg == k * p) by (nonlinear_arith)
        requires tg % p == 0, p > 0, k == tg / p;
    assert(x * tg == (x * k) * p) by (nonlinear_arith)
        requires tg == k * p;
    if x >= 0 {
        assert((x * k) * p / p == x * k) by (nonlinear_arith) requires p > 0;
        assert(x * tg >= 0) by (nonlinear_arith) requires x >= 0, tg > 0;
    } else {
        assert((-(x * k)) * p / p == -(x * k)) by (nonlinear_arith) requires p > 0;
        assert(-(x * tg) == (-(x * k)) * p) by (nonlinear_arith) requires x * tg == (x * k) * p;
        assert(x * tg < 0) by (nonlinear_arith) requires x < 0, tg > 0;
    }
}

} // verus!
