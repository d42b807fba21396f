//! Nearest-point lookups for a simulation loop, answered by a background
//! worker: a registry of point sets, a request/response buffer of query
//! slots, and the worker's batching of queries by dataset.

pub mod buffer;
pub mod points;
pub mod registry;
pub mod session;
pub mod worker;

pub use buffer::{
    empty_request, has_bit, Request, SharedState, SlotError, WaitDecision, WakeOutcome, WorkerState,
    NO_ANSWER, SLOTS,
};
pub use points::{prepare_points, Coord, Point, RegisterError};
pub use registry::{Dataset, Registry, DATASET_OVERHEAD};
pub use session::{map_end, map_start, ClosestPosSizeTracker, MyExtension};
pub use worker::{resolve, unique_datasets};
