//! A single-process asynchronous task runtime: a cooperative executor whose tasks are woken
//! by a reactor that turns OS readiness events into wakes.
//!
//! The modules hold the verified logic: `executor` (task table, LIFO ready queue, wake
//! delivery), `reactor` (token allocation and the token-to-waker table), `waker`, `future`
//! (the poll contract and `join_all`), `poll` (the event-queue values and checks) and `http`
//! (the request that the HTTP leaf future writes). Threads, sockets and system calls belong
//! to the embedding program.
pub mod executor;
pub mod future;
pub mod http;
pub mod poll;
pub mod reactor;
pub mod runtime;
pub mod waker;

pub use executor::{Executor, TaskPoll};
pub use future::{join_all, Future, JoinAll, PollState};
pub use http::get_req;
pub use poll::{Event, Poll, Registry};
pub use reactor::Reactor;
pub use runtime::init;
pub use waker::Waker;
