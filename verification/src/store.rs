//! The record population: a keyed collection of map records with
//! create-or-update semantics on the normalized name.

use vstd::prelude::*;

use crate::engine::{step, spec_apply, spec_applied_record, ActionEffect, Relocation};
use crate::model::{record_views, Action, Difficulty, MapError, MapRecord, MapState, MapView, str_eq};

verus! {

/// What `str::to_lowercase` returns for a given character sequence.
pub uninterp spec fn lower_of(s: Seq<char>) -> Seq<char>;

/// Relies on str::to_lowercase: the result depends on the characters alone.
#[verifier::external_body]
pub fn lowercase(s: &str) -> (r: String)
    ensures
        r@ == lower_of(s@),
{
    s.to_lowercase()
}

/// Some record carries this name.
pub open spec fn has_name(s: Seq<MapView>, key: Seq<char>) -> bool {
    exists|i: int| 0 <= i < s.len() && s[i].name == key
}

/// The position of the record carrying this name (meaningful only under
/// `has_name`; unambiguous under `wf_store`).
pub open spec fn index_of(s: Seq<MapView>, key: Seq<char>) -> int {
    choose|i: int| 0 <= i < s.len() && s[i].name == key
}

/// Population invariant: every record is well-formed and names are unique.
pub open spec fn wf_store(s: Seq<MapView>) -> bool {
    &&& forall|i: int| 0 <= i < s.len() ==> (#[trigger] s[i]).wf()
    &&& forall|i: int, j: int| 0 <= i < j < s.len() ==> s[i].name != s[j].name
}

/// Under `wf_store`, any position carrying the name is `index_of`.
pub proof fn lemma_index_of_unique(s: Seq<MapView>, key: Seq<char>, i: int)
    requires
        wf_store(s),
        0 <= i < s.len(),
        s[i].name == key,
    ensures
        has_name(s, key),
        index_of(s, key) == i,
{
    assert(has_name(s, key));
    let j = index_of(s, key);
    if i < j {
        assert(s[i].name != s[j].name);
    } else if j < i {
        assert(s[j].name != s[i].name);
    }
}

/// The population after `create_or_update` under key `key` at time `now`:
/// an existing record keeps its state and creation time and only refreshes
/// difficulty and `last_changed`; otherwise a fresh record starts in `New`
/// with both timestamps at `now`.
pub open spec fn spec_create_or_update(
    s: Seq<MapView>,
    key: Seq<char>,
    difficulty: Difficulty,
    now: u64,
) -> Seq<MapView> {
    if has_name(s, key) {
        let i = index_of(s, key);
        s.update(
            i,
            MapView {
                name: s[i].name,
                difficulty,
                state: s[i].state,
                created_at: s[i].created_at,
                last_changed: now,
            },
        )
    } else {
        s.push(
            MapView { name: key, difficulty, state: MapState::New, created_at: now, last_changed: now },
        )
    }
}

/// The in-memory population of map records, keyed by normalized name.
pub struct MapStore {
    maps: Vec<MapRecord>,
}

impl View for MapStore {
    type V = Seq<MapView>;

    closed spec fn view(&self) -> Seq<MapView> {
        self.maps@.map_values(|m: MapRecord| m@)
    }
}

impl MapStore {
    pub open spec fn wf(self) -> bool {
        wf_store(self@)
    }

    pub fn new() -> (r: Self)
        ensures
            r@ == Seq::<MapView>::empty(),
            r.wf(),
    {
        let r = MapStore { maps: Vec::new() };
        proof {
            assert(r@ =~= Seq::<MapView>::empty());
        }
        r
    }

    /// All records, in insertion order.
    pub fn records(&self) -> (r: &Vec<MapRecord>)
        ensures
            record_views(r@) == self@,
    {
        &self.maps
    }

    /// Position of the record whose name is exactly `key`.
    fn find_index(&self, key: &str) -> (r: Option<usize>)
        ensures
            match r {
                Some(i) => i < self@.len() && self@[i as int].name == key@,
                None => !has_name(self@, key@),
            },
    {
        let mut i: usize = 0;
        while i < self.maps.len()
            invariant
                i <= self.maps.len(),
                forall|k: int| 0 <= k < i ==> self@[k].name != key@,
            decreases self.maps.len() - i,
        {
            if str_eq(self.maps[i].name.as_str(), key) {
                return Some(i);
            }
            i += 1;
        }
        None
    }

    /// Looks the name up after normalizing it, as every operation does.
    pub fn find(&self, name: &str) -> (r: Option<MapRecord>)
        requires
            self.wf(),
        ensures
            match r {
                Some(m) => {
                    &&& has_name(self@, lower_of(name@))
                    &&& m@ == self@[index_of(self@, lower_of(name@))]
                },
                None => !has_name(self@, lower_of(name@)),
            },
    {
        let key = lowercase(name);
        match self.find_index(key.as_str()) {
            Some(i) => {
                proof {
                    lemma_index_of_unique(self@, lower_of(name@), i as int);
                }
                Some(self.maps[i].clone())
            },
            None => None,
        }
    }

    /// Creates the record in state `New`, or refreshes difficulty and
    /// `last_changed` of the existing one; idempotent on the normalized name.
    /// Fails only when the clock reads earlier than the record's creation.
    pub fn create_or_update(&mut self, name: &str, difficulty: Difficulty, now: u64) -> (r: Result<
        (),
        MapError,
    >)
        requires
            old(self).wf(),
        ensures
            final(self).wf(),
            match r {
                Ok(()) => {
                    &&& (has_name(old(self)@, lower_of(name@)) ==> now >= old(self)@[index_of(
                        old(self)@,
                        lower_of(name@),
                    )].created_at)
                    &&& final(self)@ == spec_create_or_update(
                        old(self)@,
                        lower_of(name@),
                        difficulty,
                        now,
                    )
                },
                Err(e) => {
                    &&& e == MapError::ClockFailure
                    &&& final(self)@ == old(self)@
                    &&& has_name(old(self)@, lower_of(name@))
                    &&& now < old(self)@[index_of(old(self)@, lower_of(name@))].created_at
                },
            },
    {
        let key = lowercase(name);
        let ghost k = lower_of(name@);
        match self.find_index(key.as_str()) {
            Some(i) => {
                proof {
                    lemma_index_of_unique(self@, k, i as int);
                }
                let cur = &self.maps[i];
                if now < cur.created_at {
                    return Err(MapError::ClockFailure);
                }
                let updated = MapRecord {
                    name: cur.name.clone(),
                    difficulty,
                    state: cur.state,
                    created_at: cur.created_at,
                    last_changed: now,
                };
                let ghost before = self@;
                self.maps.remove(i);
                self.maps.insert(i, updated);
                proof {
                    assert(self@ =~= spec_create_or_update(before, k, difficulty, now));
                }
                Ok(())
            },
            None => {
                let ghost before = self@;
                let fresh = MapRecord {
                    name: key,
                    difficulty,
                    state: MapState::New,
                    created_at: now,
                    last_changed: now,
                };
                self.maps.push(fresh);
                proof {
                    assert(self@ =~= spec_create_or_update(before, k, difficulty, now));
                }
                Ok(())
            },
        }
    }

    /// Validates and applies one action to the named record: looks the
    /// normalized name up, consults the transition table, refreshes the
    /// record, and hands back the mutated record together with the relocation
    /// the caller must carry out. Every failure leaves the population as it
    /// was.
    pub fn apply_action(&mut self, name: &str, action: Action, now: u64) -> (r: Result<
        ActionEffect,
        MapError,
    >)
        requires
            old(self).wf(),
        ensures
            final(self).wf(),
            match r {
                Ok(eff) => {
                    &&& spec_apply(old(self)@, lower_of(name@), action, now) matches Ok(t)
                    &&& final(self)@ == t.0
                    &&& eff.map@ == t.1
                    &&& eff.relocation == t.2
                },
                Err(e) => {
                    &&& final(self)@ == old(self)@
                    &&& spec_apply(old(self)@, lower_of(name@), action, now) == Err::<
                        (Seq<MapView>, MapView, Option<Relocation>),
                        MapError,
                    >(e)
                },
            },
    {
        let key = lowercase(name);
        let ghost k = lower_of(name@);
        match self.find_index(key.as_str()) {
            None => Err(MapError::NotFound),
            Some(i) => {
                proof {
                    lemma_index_of_unique(self@, k, i as int);
                }
                let cur = &self.maps[i];
                match step(cur.state, action) {
                    Err(e) => Err(e),
                    Ok((st, reloc)) => {
                        if now < cur.created_at {
                            Err(MapError::ClockFailure)
                        } else {
                            let nd = match action {
                                Action::ChangeDifficulty(d) => d,
                                _ => cur.difficulty,
                            };
                            let updated = MapRecord {
                                name: cur.name.clone(),
                                difficulty: nd,
                                state: st,
                                created_at: cur.created_at,
                                last_changed: now,
                            };
                            let ghost before = self@;
                            let effect_map = updated.clone();
                            self.maps.remove(i);
                            self.maps.insert(i, updated);
                            proof {
                                assert(self@ =~= before.update(
                                    i as int,
                                    spec_applied_record(before[i as int], action, now),
                                ));
                            }
                            Ok(ActionEffect { map: effect_map, relocation: reloc })
                        }
                    },
                }
            },
        }
    }

    /// The records that pass the optional name, state and difficulty filters,
    /// in insertion order.
    pub fn list(
        &self,
        name: Option<&str>,
        state: Option<MapState>,
        difficulty: Option<Difficulty>,
    ) -> (r: Vec<MapRecord>)
        ensures
            r@.map_values(|m: MapRecord| m@) == self@.filter(
                |m: MapView| list_match(m, name_key(name), state, difficulty),
            ),
    {
        let mut out: Vec<MapRecord> = Vec::new();
        let mut i: usize = 0;
        proof {
            assert(self@.take(0).filter(
                |m: MapView| list_match(m, name_key(name), state, difficulty),
            ) =~= Seq::<MapView>::empty());
            assert(out@.map_values(|m: MapRecord| m@) =~= Seq::<MapView>::empty());
        }
        while i < self.maps.len()
            invariant
                i <= self.maps.len(),
                out@.map_values(|m: MapRecord| m@) == self@.take(i as int).filter(
                    |m: MapView| list_match(m, name_key(name), state, difficulty),
                ),
            decreases self.maps.len() - i,
        {
            let ghost pred = |m: MapView| list_match(m, name_key(name), state, difficulty);
            let ghost prefix = self@.take(i as int);
            let m = &self.maps[i];
            let keep_name = match name {
                Some(n) => str_eq(m.name.as_str(), n),
                None => true,
            };
            let keep_state = match state {
                Some(st) => m.state == st,
                None => true,
            };
            let keep_difficulty = match difficulty {
                Some(d) => m.difficulty == d,
                None => true,
            };
            proof {
                assert(self@.take(i + 1).drop_last() =~= prefix);
                assert(self@.take(i + 1).last() == self@[i as int]);
                reveal(Seq::filter);
            }
            if keep_name && keep_state && keep_difficulty {
                out.push(m.clone());
                proof {
                    assert(out@.map_values(|x: MapRecord| x@) =~= prefix.filter(pred).push(
                        self@[i as int],
                    ));
                }
            }
            i += 1;
        }
        proof {
            assert(self@.take(self.maps@.len() as int) =~= self@);
        }
        out
    }
}

/// The key a name filter compares against, or `None` for no name filter.
pub open spec fn name_key(name: Option<&str>) -> Option<Seq<char>> {
    match name {
        Some(n) => Some(n@),
        None => None,
    }
}

/// Whether a record passes the optional listing filters.
pub open spec fn list_match(
    m: MapView,
    name: Option<Seq<char>>,
    state: Option<MapState>,
    difficulty: Option<Difficulty>,
) -> bool {
    &&& match name {
        Some(n) => m.name == n,
        None => true,
    }
    &&& match state {
        Some(st) => m.state == st,
        None => true,
    }
    &&& match difficulty {
        Some(d) => m.difficulty == d,
        None => true,
    }
}

} // verus!
