//! Speaker diarization for recorded meetings.

pub mod diarization;
pub mod json;
pub mod metadata;
pub mod models;
pub mod repository;
pub mod rounding;
pub mod seconds;
pub mod text;
pub mod timestamp;
