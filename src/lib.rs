//! A lighting-control engine: fixtures whose parameters are driven by value
//! generators, scheduled as actions on tracks, and replayed from checkpoints
//! when the playhead moves backwards.
pub mod action;
pub mod address;
pub mod color;
pub mod dmx;
pub mod environment;
pub mod fixture;
pub mod fixture_set;
pub mod generator;
pub mod history;
pub mod parameter;
pub mod patch;
pub mod query;
pub mod sacn;
pub mod time;
pub mod timecode;
pub mod track;
pub mod universe;
pub mod value;
