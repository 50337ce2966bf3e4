//! A discrete-event simulator of a compute marketplace in which requestors
//! buy the execution of subtasks from providers and defend themselves against
//! providers that overstate their resource usage.
//!
//! The library is the kernel of the simulation, verified throughout:
//!
//! - [`engine`]: the queue of events, ordered by virtual time;
//! - [`task`], [`task_queue`]: tasks, their subtasks, and the queue that a
//!   requestor draws them from;
//! - [`provider`]: the providers and their three ways of reporting usage;
//! - [`defence`]: the three defence mechanisms, with the ratings and bans
//!   that they keep;
//! - [`requestor`]: the requestors;
//! - [`world`]: the marketplace, which holds the actors and the engine and
//!   takes the steps of the protocol;
//! - [`partition`]: bucketing of values by a key, for the analysis of results;
//! - [`fixed`], [`id`], [`id_map`], [`verification`], [`random`]: what the
//!   others are built on.
//!
//! Quantities are fixed-point numbers ([`Fixed`]). What cannot be computed
//! exactly on them comes from the caller: exponentials, random deviates,
//! geometric means and quartiles are handed to the steps that need them,
//! and every step says what it does with whatever it is handed. So the
//! caller runs the loop of a replication: it takes an event from the world,
//! works out what the step for it needs, and has the world take the step.

pub mod defence;
pub mod engine;
pub mod error;
pub mod fixed;
pub mod id;
pub mod id_map;
pub mod partition;
pub mod provider;
pub mod random;
pub mod requestor;
pub mod task;
pub mod task_queue;
pub mod verification;
pub mod world;

pub use crate::engine::Engine;
pub use crate::error::SimulationError;
pub use crate::fixed::Fixed;
pub use crate::id::{Id, IdSource};
pub use crate::provider::linear_usage_inflation::LinearUsageInflationProvider;
pub use crate::provider::regular::RegularProvider;
pub use crate::provider::undercut_budget::UndercutBudgetProvider;
pub use crate::provider::Provider;
pub use crate::requestor::Requestor;
pub use crate::task::{SubTask, Task};
pub use crate::task_queue::TaskQueue;
pub use crate::world::World;
