//! Pipeline support: structured events, configuration checks and the
//! bookkeeping of the demux → decode → filter → encode → mux loop.

pub mod builder;
pub mod event;
pub mod execution;
pub mod run;
