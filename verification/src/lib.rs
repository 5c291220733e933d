//! The core of a trading-strategy runtime.
//!
//! - `context`: the context that a strategy's steps run in, and what contexts share.
//! - `registry` and `validate`: the handlers of a runtime, and holding them against the symbol table.
//! - `message`: what a monitor sends when it fires.
//! - `laws`: what holds of contexts through all that is done with them.
//! - `calls` and `verdicts`: what each call does, by what goes in and what comes out.
pub mod calls;
pub mod context;
pub mod handlers;
pub mod implicit;
pub mod laws;
pub mod message;
pub mod registry;
pub mod report;
pub mod slots;
pub mod symbols;
pub mod text;
pub mod tokens;
pub mod validate;
pub mod vars;
pub mod verdicts;

pub use context::{ContextHeap, TradeTaskContext};
pub use message::MonitorMessage;
pub use registry::{DataItemHandler, ExecutorHandler, RuntimeRegistry};
pub use tokio_util::sync::CancellationToken;
