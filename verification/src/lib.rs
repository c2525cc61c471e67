//! A robot brain's decision logic: behaviors, threat tracking, memory,
//! conversation, planning rules and the text formats its models answer in.
pub mod text;
pub mod types;
pub mod threat;
pub mod decision;
pub mod patrol;
pub mod events;
pub mod memory;
pub mod reasoning;
pub mod conversation;
pub mod language;
pub mod planner;
pub mod perception;
pub mod face;
pub mod render;
pub mod calculator;
pub mod alerts;
pub mod emotion;
