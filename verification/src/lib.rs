//! Configuration loading and launch planning for a desktop shell that runs a
//! bundled server-rendered web application.
//!
//! The library covers the logic of that shell: parsing `.env`-style
//! configuration text into key/value entries, validating the entries against
//! the set of keys the server requires, resolving the server entry script
//! through an optional pointer file, building the child-process launch plan
//! with its environment overlay, and composing the diagnostic log and alert
//! texts. File reading, window handling and process spawning are left to the
//! surrounding application, which hands this library plain strings.
pub mod fmt;
pub mod launch;
pub mod logtext;
pub mod notify;
pub mod parse;
pub mod paths;
pub mod text;
pub mod validate;
