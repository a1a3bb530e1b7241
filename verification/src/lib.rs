//! Building blocks of a dataflow engine whose operators are driven by a
//! cooperative, activation-based scheduler.
//!
//! The greater part is about operators whose logic is an asynchronous
//! task: the queues that feed the task ([`input`], [`queue`]), the handles
//! it emits with ([`output`]), the bridge from its wake-ups to the scheduler
//! ([`waker`]), the routine that the scheduler invokes ([`operator`],
//! [`fallible`], [`builder`]) and the button by which all workers stop an
//! operator together ([`button`]). Frontiers are those of `timely`
//! ([`frontier`], [`connection`]).
//!
//! Beside it stand the bookkeeping of a durable store ([`stash`], [`peek`],
//! [`batch`], [`table`]), the client that lets dataflows hydrate one after
//! the other ([`hydration`]), and small rules on dates, statistics and
//! directory records ([`datetime`], [`stats`], [`scim`]).

pub mod batch;
pub mod builder;
pub mod button;
pub mod connection;
pub mod datetime;
pub mod fallible;
pub mod frontier;
pub mod hydration;
pub mod input;
pub mod operator;
pub mod output;
pub mod peek;
pub mod queue;
pub mod scim;
pub mod stash;
pub mod stats;
pub mod table;
pub mod waker;
mod walk;
