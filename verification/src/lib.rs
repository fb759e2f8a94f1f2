//! Verified core of the CogPOSIX experimental runtime.
//!
//! - `types`, `codec`, `frame`, `request`: shared values, the little-endian
//!   field codec, frames and the request messages of the wire protocol.
//! - `model`, `runtime`: the daemon's session, handle, buffer, tensor and job
//!   state, as a mathematical model and as the executable state machine that
//!   refines it; `preserve`, `custody` and `records` prove that every step
//!   keeps the runtime invariant, and `settle` that every step leaves nothing
//!   behind that reclamation would drop.
//! - `connection`: which request frames a connection serves and the response
//!   to each; `client`: request ids, reply checks and payload parsing.
//! - `backend`, `process`: admission rules of the mock and the MNIST worker
//!   backends, the mock model itself and the worker exchange.
//! - `cabi`, `registry`: the C descriptor, the copy-out rule of C reads and
//!   the table of C contexts; `shm`: the checks before shared memory is
//!   adopted as a buffer.
//! - `cli`, `socket`: command lines and the daemon's socket rules.
//! - `laws`, `wire_laws`: properties that span operations.
pub mod backend;
pub mod cabi;
pub mod cli;
pub mod client;
pub mod codec;
pub mod connection;
pub mod custody;
pub mod frame;
pub mod laws;
pub mod model;
pub mod preserve;
pub mod records;
pub mod process;
pub mod registry;
pub mod request;
pub mod runtime;
pub mod seqs;
pub mod settle;
pub mod shm;
pub mod socket;
pub mod types;
pub mod wire_laws;

pub use types::{Error, Handle, JobStatus, Stats, TensorDesc};
pub use types::{
    GLOBAL_MEMORY, MAX_BUFFER, MAX_DELAY_MS, MAX_JOBS, MAX_OBJECTS, MAX_RANK, MAX_SESSIONS,
    SESSION_MEMORY,
};
