//! The core task: what the run loop, the turn stream and the session
//! operations decide. Reading, writing and waiting are done by the caller,
//! which performs the effects that come out and hands back what happened.

pub mod compact;
pub mod dispatch;
pub mod loop_laws;
pub mod pending;
pub mod request;
pub mod retry;
pub mod run;
pub mod services;
pub mod session_task_laws;
pub mod steer;
pub mod stream;
pub mod stream_laws;
pub mod target;
pub mod task_call_laws;
pub mod tree;
pub mod turn_end;
pub mod turn_laws;
pub mod turn_start;
