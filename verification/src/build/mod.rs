//! The table generator: reads the CLDR files and builds the tables that the
//! run-time library reads.
pub mod xml;
pub mod ldml;
pub mod annotations;
pub mod languages;
pub mod categories;
pub mod labels;
pub mod tables;
pub mod output;
