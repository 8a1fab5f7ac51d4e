//! Text analysis building blocks: Unicode word segmentation, verified.

pub mod uax29;
