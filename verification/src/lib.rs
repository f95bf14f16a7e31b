//! Epoch-based reclamation.
//!
//! Participants pin themselves to observe shared data, hand retired items to
//! the engine while pinned, and get them back for destruction once no pinned
//! participant can still be observing them. Every operation is one atomic
//! step on the collector's state; a caller that shares a collector between
//! threads serialises those steps.

pub mod bag;
pub mod collector;
pub mod conservation;
pub mod default;
pub mod epoch;
pub mod global;
pub mod guard;
pub mod history;
pub mod laws;
pub mod local;
pub mod model;

pub use bag::Bag;
pub use bag::SealedBag;
pub use collector::Collector;
pub use collector::LocalHandle;
pub use default::cs;
pub use default::default_collector;
pub use default::DefaultCollector;
pub use default::ThreadHandle;
pub use epoch::Epoch;
pub use guard::Guard;
