//! Core of a mailing-list service: an idempotency cache that lets a client
//! safely resend a state-changing command and receive the previous response,
//! and a transactional outbox with a background delivery worker that turns
//! "send N emails" into a durable queue.
//!
//! All coordination goes through a single relational store, modelled here by
//! [`store::Store`]; the surrounding web layer drives these functions and
//! performs the actual network I/O.

pub mod auth;
pub mod domain;
pub mod idempotency;
pub mod newsletters;
pub mod outbox;
pub mod publish;
pub mod response;
pub mod store;
pub mod subscriptions;
pub mod subscriptions_confirm;
pub mod worker;
