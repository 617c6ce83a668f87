//! A single-process job scheduler engine: the wire codec for task and control
//! records, the per-task executor state machine, the task registry and the
//! dispatcher that decides what each drained queue entry causes.

pub mod text;
pub mod decimal;
pub mod codec;
pub mod record;
pub mod executor;
pub mod registry;
pub mod dispatcher;
pub mod jobs;
