//! Verified core of a video-tool backend: it reads what the probing tool
//! reports, computes where frames are sampled, and builds the command lines
//! handed to the external media tools.

pub mod decimal;
pub mod text;
pub mod numeral;
pub mod rate;
pub mod probe;
pub mod sampling;
pub mod commands;
pub mod jobs;
