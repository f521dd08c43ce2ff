//! Tools for working with page-based rhythm-game charts: conversion of a
//! page/tick chart into the older time-based line format, and construction of
//! a per-page visual layout model for previewing.
//!
//! All fractional quantities (seconds, normalized coordinates, ratios) are
//! carried as exact integer counts of millionths ("micros"), so that every
//! computation is exact integer arithmetic.

pub mod chart_viewer;
pub mod cyl_config;
pub mod cyl_theme;
pub mod cyl_chart;
pub mod cytus1_chart;
pub mod text;
pub mod utils;

pub use utils::CylToolError;
pub use utils::CylToolErrorKind;
