//! A directory jump index: paths with weights that rise with visits and fall
//! with steps away, and a matcher that resolves a few needles to the one
//! remembered path that fits them best.

pub mod codec;
pub mod data;
pub mod distance;
pub mod entries;
pub mod matcher;
pub mod paths;
pub mod ranking;
pub mod resolve;
pub mod similarity;
pub mod text;
pub mod visit;
pub mod weight;
