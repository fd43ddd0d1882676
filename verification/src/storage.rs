//! How records are written down in storage, as far as it takes a decision:
//! the completion flag as an integer, the theme that holds when none is
//! stored, and what an older trackers table lacks.

use vstd::prelude::*;
use crate::text::same_text;

verus! {

/// The columns that later versions added to the trackers table, each marked
/// where the table lacks it.
#[derive(Debug, Clone, Copy, PartialEq, Eq, Structural)]
pub struct MissingColumns {
    pub description: bool,
    pub color: bool,
    pub total_subjects: bool,
    pub total_units: bool,
    pub total_topics: bool,
}

/// What has to be done to the trackers table before use.
#[derive(Debug, Clone, Copy, PartialEq, Eq, Structural)]
pub enum TrackersMigration {
    /// There is no such table: create it with all its columns.
    CreateTable,
    /// The table exists: add the columns that it lacks.
    AddColumns(MissingColumns),
}

/// Whether one of the column names is `name`.
pub open spec fn has_column(columns: Seq<String>, name: Seq<char>) -> bool {
    exists|i: int| 0 <= i < columns.len() && (#[trigger] columns[i])@ == name
}

/// The migration that a trackers table with the given columns needs: a table
/// without any column does not exist; of an existing table, each of the five
/// later columns is missing exactly when no column has its name.
pub open spec fn migration_for(columns: Seq<String>) -> TrackersMigration {
    if columns.len() == 0 {
        TrackersMigration::CreateTable
    } else {
        TrackersMigration::AddColumns(
            MissingColumns {
                description: !has_column(columns, "description"@),
                color: !has_column(columns, "color"@),
                total_subjects: !has_column(columns, "total_subjects"@),
                total_units: !has_column(columns, "total_units"@),
                total_topics: !has_column(columns, "total_topics"@),
            },
        )
    }
}

/// The theme that holds where none is stored.
pub open spec fn default_theme() -> Seq<char> {
    "light"@
}

/// The completion flag that a stored integer stands for: zero is "not
/// completed", anything else "completed".
pub open spec fn flag_of(stored: i32) -> bool {
    stored != 0
}

/// The integer that a completion flag is stored as.
pub open spec fn stored_of(completed: bool) -> i32 {
    if completed {
        1
    } else {
        0
    }
}

/// A completion flag reads back as it was stored.
pub proof fn lemma_flag_round_trip(completed: bool)
    ensures
        flag_of(stored_of(completed)) == completed,
{
}

/// The completion flag that a stored integer stands for.
pub fn completed_from_stored(stored: i32) -> (completed: bool)
    ensures
        completed == flag_of(stored),
{
    stored != 0
}

/// The integer that a completion flag is stored as.
pub fn completed_to_stored(completed: bool) -> (stored: i32)
    ensures
        stored == stored_of(completed),
{
    if completed {
        1
    } else {
        0
    }
}

/// The stored theme, or the light theme where none is stored.
pub fn theme_or_default(stored: Option<String>) -> (theme: String)
    ensures
        match stored {
            Some(value) => theme == value,
            None => theme@ == default_theme(),
        },
{
    match stored {
        Some(value) => value,
        None => "light".to_owned(),
    }
}

/// Whether one of the column names is `name`.
pub fn contains_column(columns: &Vec<String>, name: &str) -> (found: bool)
    ensures
        found == has_column(columns@, name@),
{
    let mut i: usize = 0;
    while i < columns.len()
        invariant
            i <= columns.len(),
            forall|k: int| 0 <= k < i ==> (#[trigger] columns@[k])@ != name@,
        decreases columns.len() - i,
    {
        if same_text(columns[i].as_str(), name) {
            return true;
        }
        i = i + 1;
    }
    false
}

/// The migration that a trackers table with the given columns needs.
pub fn plan_trackers_migration(columns: &Vec<String>) -> (plan: TrackersMigration)
    ensures
        plan == migration_for(columns@),
{
    if columns.len() == 0 {
        return TrackersMigration::CreateTable;
    }
    TrackersMigration::AddColumns(
        MissingColumns {
            description: !contains_column(columns, "description"),
            color: !contains_column(columns, "color"),
            total_subjects: !contains_column(columns, "total_subjects"),
            total_units: !contains_column(columns, "total_units"),
            total_topics: !contains_column(columns, "total_topics"),
        },
    )
}

} // verus!
