//! A fixed-size worker pool, written as a core that performs no I/O of its own.
//!
//! The crate holds every decision the pool makes: whether a pool of a given
//! size may exist, which worker is started next, how a job becomes a message,
//! what a worker does with a message, and in which order a pool that is being
//! torn down signals and joins its workers. The embedding program owns the
//! threads and the channel; it performs the actions this crate hands out and
//! nothing else. The module `protocol` models pool, channel and workers
//! together and proves what the protocol guarantees under every schedule.
//!
//! The module `request` belongs to the web server that is built on the pool:
//! it holds the rule by which the server picks its answer to a request.

pub mod error;
pub mod message;
pub mod pool;
pub mod protocol;
pub mod request;
pub mod worker;

pub use error::PoolCreationError;
pub use message::JobMessage;
pub use pool::PoolAction;
pub use pool::ThreadPool;
pub use request::Route;
pub use worker::Directive;
pub use worker::Worker;
pub use worker::WorkerLoop;
pub use worker::WorkerState;
