//! Batch command-execution engine.
//!
//! Expands a configuration record into an ordered plan of child-process
//! invocations, and models the worker pool that drives them: handing out
//! invocations, tracking live children, recording the first failure, and
//! reporting progress. Everything that decides or computes lives here with
//! a contract; the spawning, waiting and killing of real processes is left
//! to the embedding program.

pub mod action;
pub mod args;
pub mod child_state;
pub mod config;
pub mod error;
pub mod pathutil;
pub mod plan;
pub mod profile;
pub mod strnum;
pub mod util;

pub use action::ActionCore;
pub use action::PipeMode;
pub use config::Config;
pub use error::Error;
pub use error::ErrorKind;
pub use plan::Invocation;
pub use plan::Plan;
pub use profile::Profile;
