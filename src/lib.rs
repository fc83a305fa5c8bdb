//! Extraction of structured values from the text of job postings (salary ranges,
//! years of experience, posting dates, canonical lists and locations), and the plain
//! data and query logic of a personal job-application tracker.

pub mod api;
pub mod config;
pub mod dates;
pub mod display;
pub mod filters;
pub mod listing;
pub mod models;
pub mod money;
pub mod scrape;
pub mod text;
pub mod ui;
pub mod yoe;
