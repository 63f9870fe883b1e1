//! Persistence and identity model of a small quiz-hosting service: quizzes,
//! their questions, participant groups carried in a cookie, and the host's
//! session.

pub mod auth;
pub mod error;
pub mod id;
pub mod group;
pub mod store;
pub mod repo;
pub mod handlers;
