//! Chain synchronisation for a Lightning node: tip tracking, fork resolution,
//! fee-rate caching and rebroadcast of locally originated transactions.

pub mod broadcast;
pub mod fees;
pub mod fork;
pub mod monitor;
pub mod tasks;

pub use broadcast::{BroadcastError, ChainBroadcaster, PendingTx};
pub use fees::{ConfirmationTarget, FeeEstimator, FeeQuery, MIN_FEE_SAT_PER_1000_WEIGHT};
pub use fork::{Awaiting, ForkStep, ForkWalk, Header, WalkError};
pub use monitor::{plan_replay, PollOutcome, ReplayAction, TipMonitor};
pub use tasks::ProbeT;
