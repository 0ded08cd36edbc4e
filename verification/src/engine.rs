//! The transition engine: which actions are legal from which state, what the
//! next state is, and which binary relocation must accompany the change.

use vstd::prelude::*;

use crate::model::{Action, Difficulty, MapError, MapRecord, MapState, MapView};
use crate::store::{has_name, index_of};

verus! {

/// The binary relocation a transition demands: into the published pool on
/// publish, back into the test pool on recall of a published map.
#[derive(Clone, Copy, PartialEq, Eq, Structural, Debug)]
pub enum Relocation {
    ToPublished,
    ToTest,
}

/// The transition table. For each action: the states it is legal from, the
/// resulting state, and the relocation it demands. An action whose target
/// state already holds fails with `AlreadyInState`; one that is not legal
/// from the current state fails with `IllegalTransition`. Recall is legal
/// from every state and resets to `New`; a difficulty change keeps the state
/// (and deliberately demands no relocation, matching deployed behaviour even
/// for published binaries).
pub open spec fn spec_step(s: MapState, a: Action) -> Result<
    (MapState, Option<Relocation>),
    MapError,
> {
    match a {
        Action::Approve => match s {
            MapState::New | MapState::Declined => Ok((MapState::Approved, None)),
            MapState::Approved => Err(MapError::AlreadyInState),
            MapState::Published => Err(MapError::IllegalTransition),
        },
        Action::Decline => match s {
            MapState::New | MapState::Approved => Ok((MapState::Declined, None)),
            MapState::Declined => Err(MapError::AlreadyInState),
            MapState::Published => Err(MapError::IllegalTransition),
        },
        Action::Publish => match s {
            MapState::Approved => Ok((MapState::Published, Some(Relocation::ToPublished))),
            MapState::Published => Err(MapError::AlreadyInState),
            MapState::New | MapState::Declined => Err(MapError::IllegalTransition),
        },
        Action::Recall => Ok(
            (
                MapState::New,
                if s == MapState::Published {
                    Some(Relocation::ToTest)
                } else {
                    None
                },
            ),
        ),
        Action::ChangeDifficulty(_) => Ok((s, None)),
    }
}

/// Executable form of the transition table.
pub fn step(s: MapState, a: Action) -> (r: Result<(MapState, Option<Relocation>), MapError>)
    ensures
        r == spec_step(s, a),
{
    match a {
        Action::Approve => match s {
            MapState::New | MapState::Declined => Ok((MapState::Approved, None)),
            MapState::Approved => Err(MapError::AlreadyInState),
            MapState::Published => Err(MapError::IllegalTransition),
        },
        Action::Decline => match s {
            MapState::New | MapState::Approved => Ok((MapState::Declined, None)),
            MapState::Declined => Err(MapError::AlreadyInState),
            MapState::Published => Err(MapError::IllegalTransition),
        },
        Action::Publish => match s {
            MapState::Approved => Ok((MapState::Published, Some(Relocation::ToPublished))),
            MapState::Published => Err(MapError::AlreadyInState),
            MapState::New | MapState::Declined => Err(MapError::IllegalTransition),
        },
        Action::Recall => Ok(
            (
                MapState::New,
                if s == MapState::Published {
                    Some(Relocation::ToTest)
                } else {
                    None
                },
            ),
        ),
        Action::ChangeDifficulty(_) => Ok((s, None)),
    }
}

/// The difficulty the record carries after the action: only a difficulty
/// change touches it.
pub open spec fn spec_next_difficulty(d: Difficulty, a: Action) -> Difficulty {
    match a {
        Action::ChangeDifficulty(nd) => nd,
        _ => d,
    }
}

/// The record after a legal action: new state, possibly new difficulty, and a
/// refreshed `last_changed`.
pub open spec fn spec_applied_record(m: MapView, a: Action, now: u64) -> MapView
    recommends
        spec_step(m.state, a) is Ok,
{
    MapView {
        name: m.name,
        difficulty: spec_next_difficulty(m.difficulty, a),
        state: spec_step(m.state, a)->Ok_0.0,
        created_at: m.created_at,
        last_changed: now,
    }
}

/// Applying an action to the population under key `key` at time `now`:
/// either the mutated population together with the mutated record and the
/// demanded relocation, or the classified failure. Validation failures
/// (`NotFound`, the table's errors) precede the clock check, and every
/// failure leaves the population untouched.
pub open spec fn spec_apply(s: Seq<MapView>, key: Seq<char>, a: Action, now: u64) -> Result<
    (Seq<MapView>, MapView, Option<Relocation>),
    MapError,
> {
    if !has_name(s, key) {
        Err(MapError::NotFound)
    } else {
        let i = index_of(s, key);
        match spec_step(s[i].state, a) {
            Err(e) => Err(e),
            Ok((st, reloc)) => if now < s[i].created_at {
                Err(MapError::ClockFailure)
            } else {
                let nm = spec_applied_record(s[i], a, now);
                Ok((s.update(i, nm), nm, reloc))
            },
        }
    }
}

/// What a successful action hands back for the caller to carry out: the
/// mutated record and the relocation it demands, if any.
#[derive(Debug)]
pub struct ActionEffect {
    pub map: MapRecord,
    pub relocation: Option<Relocation>,
}

} // verus!
