pub mod error;
pub mod cashflows;
pub mod dates;
pub mod decimal;
pub mod reference_data;
pub mod instruments;
pub mod text;
pub mod trades;
pub mod portfolio;
pub mod reports;
pub mod keyed;
pub mod config;
pub mod analytics;
pub mod cli;
pub mod generator;
pub mod options;
pub mod quotes;
pub mod series;
pub mod history;
pub mod store;
