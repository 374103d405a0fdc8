//! The decisions of a daily home-directory backup.
pub mod text;
pub mod words;
pub mod snapshot;
pub mod reservoir;
pub mod chance;
pub mod sort;
pub mod dice;
pub mod sample;
pub mod digest;
pub mod pattern;
pub mod manifest;
pub mod compare;
pub mod outcome;
pub mod config;
pub mod restic;
pub mod logs;
pub mod status;
pub mod plan;
pub mod run;
pub mod promises;
pub mod report;
pub mod requests;
pub mod steps;
pub mod views;
