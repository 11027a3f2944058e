//! Correlating product identifiers found in software inventories and
//! security advisories.
//!
//! - `normalize` and `identifier` bring the text of an identifier to its
//!   structured form; `resolver` decides which identifiers match and
//!   resolves one set of them against another.
//! - `walker` picks the packed documents out of a directory listing and turns
//!   the bytes of each into a document (`sbom`), after `license` has found
//!   that the decoder can take them; `run` holds the decisions of a run and
//!   the documents in flight: what is handed over, what waits, when the run
//!   is done.
//! - `tasks` and `utils` hold what is counted of each document, the table
//!   that counts (`frequency`, ordered by `text`), and the reference
//!   dictionary.

pub mod frequency;
pub mod identifier;
pub mod license;
pub mod normalize;
pub mod resolver;
pub mod run;
pub mod sbom;
pub mod tasks;
pub mod text;
pub mod utils;
pub mod walker;
