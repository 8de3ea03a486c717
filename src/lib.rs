//! Library state and statistics for a manga shelf: folders, panels, the
//! active selection, navigation order, reading statistics and the daily
//! watch-time series, held in a verified in-memory store.

pub mod chart;
pub mod cover;
pub mod instances;
pub mod laws;
pub mod library;
pub mod model;
pub mod navigation;
pub mod order;
pub mod paths;
pub mod records;
pub mod stats;
pub mod table;
pub mod text;
