//! Small puzzle solvers over text and number lists, verified with Verus.
//!
//! The core is a set of composable parsers (`parser`) and a scanner that
//! finds `mul(X,Y)` instructions embedded in noise (`scanner`). Beside them
//! stand solvers for list distances, similarity scores, report safety and a
//! grid word search.
pub mod parser;
pub mod scanner;
pub mod word_search;
pub mod list_distance;
pub mod similarity;
pub mod reports;
