//! Verified core of a bot that announces newly discovered official Chicago
//! datasets: catalog validation, scan bookkeeping, release checks, the
//! publication schedule and the text that goes into posts and cards.

pub mod backup;
pub mod bluesky;
pub mod canvas;
pub mod catalog;
pub mod clock;
pub mod error;
pub mod link;
pub mod order;
pub mod release;
pub mod render;
pub mod schedule;
pub mod state;
pub mod text;
