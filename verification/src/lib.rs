//! Inspection of a browser's locally stored profile and extension
//! configuration.
//!
//! The crate enumerates profile identifiers from an index document
//! ("Local State"), loads each profile's preference document, and extracts
//! extension metadata defensively: optional fields that are absent or hold
//! a value of the wrong type resolve to a documented default instead of
//! failing the surrounding parse.
//!
//! All file and environment access stays with the caller: the functions
//! here take the text that was read (or the error that reading produced)
//! and return parsed records with exact contracts.

pub mod chromeprofiles;
pub mod json;
pub mod util;
