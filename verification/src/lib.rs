//! A study-progress tracker: a syllabus of subjects, units and topics to work
//! through, and the tests scheduled along the way.
//!
//! The library decides and computes; it reads no store and keeps no state.
//! What it needs from a store it takes as plain records, and what is to be
//! stored it hands back as plain records.
//!
//! - [`syllabus`] parses syllabus text into subjects with their units and
//!   topics, on top of the character-level primitives of [`text`].
//! - [`progress`] counts completed topics and rolls the counts up from units
//!   to subjects to the tracker.
//! - [`schedule`] tells the days left until a test, the countdown text and
//!   the one-week priority window; [`coverage`] resolves what a test covers;
//!   [`priority`] puts both together into test details and the priority list.
//! - [`records`] makes and changes single records, [`exchange`] hands a
//!   hierarchy on as a document and makes new trackers, and [`storage`] holds
//!   the few decisions about how records are written down.
//! - [`models`] holds the records themselves, [`outline`] the mathematical
//!   model of a hierarchy by name, and [`ident`] the shape of identifiers.

pub mod coverage;
pub mod exchange;
pub mod ident;
pub mod models;
pub mod outline;
pub mod priority;
pub mod progress;
pub mod records;
pub mod schedule;
pub mod storage;
pub mod syllabus;
pub mod text;
