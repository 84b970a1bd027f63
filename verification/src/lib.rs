//! Historical language-prevalence aggregation.
//!
//! Scans a working tree once per sampled date, classifying files by
//! extension and accumulating byte counts per language, then rolls the
//! per-date totals up into exact per-language prevalence time series.

pub mod color;
pub mod errors;
pub mod languages;
pub mod options;
pub mod order;
pub mod paths;
pub mod rollup;
pub mod sample;
pub mod sniff;
pub mod text;
pub mod totals;
pub mod walk;

pub use color::convert_color;
pub use errors::{LingoError, LingoResult};
pub use sample::{DateTotals, date_range};
pub use languages::{Language, LanguageV, classify, extract_filetype, get_extensions};
pub use options::Options;
pub use order::name_order;
pub use rollup::{Emission, LanguageSeries, Prevalence, SeriesPoint, TimeSeries, get_max_date, get_min_date, rollup_data, rollup_date, sum_total};
pub use paths::should_skip_path;
pub use sniff::is_binary_sample;
pub use totals::ByteTotals;
pub use walk::{Task, WalkAction, WalkEvent, Walker};
