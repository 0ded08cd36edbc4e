//! The record model: difficulties, workflow states, map records and the
//! canonical text mappings (path segments, padded labels, glyphs).

use vstd::prelude::*;

verus! {

/// Difficulty tier of a map. It decides the published-pool subdirectory a
/// published binary lives in and the fixed-width label shown in vote menus.
#[derive(Clone, Copy, PartialEq, Eq, Structural, Debug)]
pub enum Difficulty {
    Easy,
    Main,
    Hard,
    Insane,
}

/// Workflow position of a map record.
#[derive(Clone, Copy, PartialEq, Eq, Structural, Debug)]
pub enum MapState {
    New,
    Declined,
    Approved,
    Published,
}

/// A request-level operation on a named map.
#[derive(Clone, Copy, PartialEq, Eq, Structural, Debug)]
pub enum Action {
    Approve,
    Decline,
    Publish,
    Recall,
    ChangeDifficulty(Difficulty),
}

/// Classified failure of an operation. The first three are validation
/// failures detected before any mutation; the last three report a failing
/// collaborator (record store, filesystem, clock).
#[derive(Clone, Copy, PartialEq, Eq, Structural, Debug)]
pub enum MapError {
    NotFound,
    IllegalTransition,
    AlreadyInState,
    StorageFailure,
    FilesystemFailure,
    ClockFailure,
}

impl Difficulty {
    /// Lowercase path segment: the published-pool subdirectory of this tier.
    pub open spec fn spec_segment(self) -> Seq<char> {
        match self {
            Difficulty::Easy => "easy"@,
            Difficulty::Main => "main"@,
            Difficulty::Hard => "hard"@,
            Difficulty::Insane => "insane"@,
        }
    }

    pub fn segment(&self) -> (r: &'static str)
        ensures
            r@ == self.spec_segment(),
    {
        match self {
            Difficulty::Easy => "easy",
            Difficulty::Main => "main",
            Difficulty::Hard => "hard",
            Difficulty::Insane => "insane",
        }
    }

    /// Vote-menu label, bracketed and padded with trailing spaces to a fixed
    /// width (8 columns for Insane, 9 for the other three) so that entries
    /// line up in a monospace menu.
    pub open spec fn spec_label(self) -> Seq<char> {
        match self {
            Difficulty::Easy => "[Easy]   "@,
            Difficulty::Main => "[Main]   "@,
            Difficulty::Hard => "[Hard]   "@,
            Difficulty::Insane => "[Insane]"@,
        }
    }

    pub fn label(&self) -> (r: &'static str)
        ensures
            r@ == self.spec_label(),
    {
        match self {
            Difficulty::Easy => "[Easy]   ",
            Difficulty::Main => "[Main]   ",
            Difficulty::Hard => "[Hard]   ",
            Difficulty::Insane => "[Insane]",
        }
    }

    /// What `parse` accepts: the lowercase tier names.
    pub open spec fn spec_parse(s: Seq<char>) -> Option<Difficulty> {
        if s == "easy"@ {
            Some(Difficulty::Easy)
        } else if s == "main"@ {
            Some(Difficulty::Main)
        } else if s == "hard"@ {
            Some(Difficulty::Hard)
        } else if s == "insane"@ {
            Some(Difficulty::Insane)
        } else {
            None
        }
    }

    /// Parses the lowercase tier name, the inverse of `segment`.
    pub fn parse(s: &str) -> (r: Option<Difficulty>)
        ensures
            r == Self::spec_parse(s@),
    {
        if str_eq(s, "easy") {
            Some(Difficulty::Easy)
        } else if str_eq(s, "main") {
            Some(Difficulty::Main)
        } else if str_eq(s, "hard") {
            Some(Difficulty::Hard)
        } else if str_eq(s, "insane") {
            Some(Difficulty::Insane)
        } else {
            None
        }
    }
}

impl MapState {
    /// Glyph shown before a map's name in the test-pool vote menu. Published
    /// maps never appear there, so they fall back to the submission glyph.
    pub open spec fn spec_glyph(self) -> Seq<char> {
        match self {
            MapState::Approved => "☑"@,
            MapState::Declined => "☒"@,
            _ => "🆕"@,
        }
    }

    pub fn glyph(&self) -> (r: &'static str)
        ensures
            r@ == self.spec_glyph(),
    {
        match self {
            MapState::Approved => "☑",
            MapState::Declined => "☒",
            _ => "🆕",
        }
    }
}

impl MapError {
    /// Human-readable report of the failure, for the surrounding program.
    pub open spec fn spec_message(self) -> Seq<char> {
        match self {
            MapError::NotFound => "Map not found!"@,
            MapError::IllegalTransition => "Cannot change the map to the requested state!"@,
            MapError::AlreadyInState => "The map is already in the requested state!"@,
            MapError::StorageFailure => "Something went wrong with the record store!"@,
            MapError::FilesystemFailure => "Something went wrong on the filesystem!"@,
            MapError::ClockFailure => "The system clock went backwards!"@,
        }
    }

    pub fn message(&self) -> (r: &'static str)
        ensures
            r@ == self.spec_message(),
    {
        match self {
            MapError::NotFound => "Map not found!",
            MapError::IllegalTransition => "Cannot change the map to the requested state!",
            MapError::AlreadyInState => "The map is already in the requested state!",
            MapError::StorageFailure => "Something went wrong with the record store!",
            MapError::FilesystemFailure => "Something went wrong on the filesystem!",
            MapError::ClockFailure => "The system clock went backwards!",
        }
    }
}

/// A map submission record.
#[derive(Debug)]
pub struct MapRecord {
    /// Unique key, case-normalized to lowercase, immutable once created.
    pub name: String,
    pub difficulty: Difficulty,
    pub state: MapState,
    /// Unix seconds of first creation; the primary artifact sort key.
    pub created_at: u64,
    /// Unix seconds of the latest mutation.
    pub last_changed: u64,
}

/// Mathematical image of a record.
pub struct MapView {
    pub name: Seq<char>,
    pub difficulty: Difficulty,
    pub state: MapState,
    pub created_at: u64,
    pub last_changed: u64,
}

impl View for MapRecord {
    type V = MapView;

    open spec fn view(&self) -> MapView {
        MapView {
            name: self.name@,
            difficulty: self.difficulty,
            state: self.state,
            created_at: self.created_at,
            last_changed: self.last_changed,
        }
    }
}

impl MapView {
    /// A record never claims to have changed before it was created.
    pub open spec fn wf(self) -> bool {
        self.created_at <= self.last_changed
    }
}

impl Clone for MapRecord {
    fn clone(&self) -> (r: Self)
        ensures
            r@ == self@,
    {
        MapRecord {
            name: self.name.clone(),
            difficulty: self.difficulty,
            state: self.state,
            created_at: self.created_at,
            last_changed: self.last_changed,
        }
    }
}

impl MapRecord {
    pub fn created_at(&self) -> (r: u64)
        ensures
            r == self@.created_at,
    {
        self.created_at
    }
}

/// The mathematical image of a sequence of records.
pub open spec fn record_views(s: Seq<MapRecord>) -> Seq<MapView> {
    s.map_values(|m: MapRecord| m@)
}

/// Character-for-character string equality.
pub fn str_eq(a: &str, b: &str) -> (r: bool)
    ensures
        r == (a@ == b@),
{
    let x: String = a.to_owned();
    let y: String = b.to_owned();
    x == y
}

} // verus!
