//! The laws the library answers for: idempotent submission, the
//! approve-publish-recall round trip, the error classification, the ordering
//! and membership of both artifact listings, and deterministic regeneration.

use vstd::multiset::Multiset;
use vstd::prelude::*;

use crate::engine::{spec_apply, Relocation};
use crate::model::{Action, Difficulty, MapError, MapState, MapView};
use crate::orchestrate::{
    spec_published_binary_path, spec_relocation_paths, spec_test_binary_path, spec_vote_files,
    ConfigView, VoteFileView,
};
use crate::store::{
    has_name, index_of, lemma_index_of_unique, spec_create_or_update, wf_store,
};
use crate::votes::{
    in_test_pool, insert_by_created, insert_by_name, is_published_with, name_lt, published_of, sort_by_created,
    sort_by_name, spec_published_rest, test_pool_of,
};

verus! {

// ---------------------------------------------------------------------------
// Ordering facts
// ---------------------------------------------------------------------------
/// Non-decreasing creation times.
pub open spec fn sorted_by_created(s: Seq<MapView>) -> bool {
    forall|i: int, j: int| 0 <= i < j < s.len() ==> s[i].created_at <= s[j].created_at
}

/// Pairwise distinct creation times.
pub open spec fn distinct_created(s: Seq<MapView>) -> bool {
    forall|i: int, j: int| 0 <= i < j < s.len() ==> s[i].created_at != s[j].created_at
}

/// Non-descending names: no later entry comes strictly before an earlier one.
pub open spec fn sorted_by_name(s: Seq<MapView>) -> bool {
    forall|i: int, j: int| 0 <= i < j < s.len() ==> !name_lt(s[j].name, s[i].name)
}

proof fn lemma_insert_by_created_multiset(m: MapView, s: Seq<MapView>)
    ensures
        insert_by_created(m, s).len() == s.len() + 1,
        insert_by_created(m, s).to_multiset() == s.to_multiset().insert(m),
    decreases s.len(),
{
    broadcast use vstd::seq_lib::group_to_multiset_ensures;
    broadcast use vstd::seq_lib::lemma_multiset_commutative;
    broadcast use vstd::multiset::group_multiset_axioms;

    let r = insert_by_created(m, s);
    if s.len() == 0 {
        assert(s =~= Seq::<MapView>::empty());
        assert(r =~= s.push(m));
    } else if m.created_at < s[0].created_at {
        assert(r == seq![m] + s);
        assert(seq![m] =~= Seq::<MapView>::empty().push(m));
        assert(seq![m].to_multiset() =~= Multiset::<MapView>::empty().insert(m));
        assert((seq![m] + s).to_multiset() =~= s.to_multiset().insert(m));
    } else {
        let t = s.drop_first();
        lemma_insert_by_created_multiset(m, t);
        assert(r == seq![s[0]] + insert_by_created(m, t));
        assert(seq![s[0]] =~= Seq::<MapView>::empty().push(s[0]));
        assert(seq![s[0]].to_multiset() =~= Multiset::<MapView>::empty().insert(s[0]));
        assert(s =~= seq![s[0]] + t);
        assert(s.to_multiset() =~= t.to_multiset().insert(s[0]));
        assert(r.to_multiset() =~= s.to_multiset().insert(m));
    }
}

proof fn lemma_insert_by_created_sorted(m: MapView, s: Seq<MapView>)
    requires
        sorted_by_created(s),
    ensures
        sorted_by_created(insert_by_created(m, s)),
    decreases s.len(),
{
    broadcast use vstd::seq_lib::group_to_multiset_ensures;
    broadcast use vstd::multiset::group_multiset_axioms;

    let r = insert_by_created(m, s);
    if s.len() == 0 {
    } else if m.created_at < s[0].created_at {
        assert forall|i: int, j: int| 0 <= i < j < r.len() implies r[i].created_at
            <= r[j].created_at by {
            if i > 0 {
                assert(r[i] == s[i - 1] && r[j] == s[j - 1]);
            }
        }
    } else {
        let t = s.drop_first();
        assert(forall|i: int, j: int|
            0 <= i < j < t.len() ==> (#[trigger] t[i]).created_at <= (#[trigger] t[j]).created_at);
        lemma_insert_by_created_sorted(m, t);
        lemma_insert_by_created_multiset(m, t);
        let rr = insert_by_created(m, t);
        assert(r == seq![s[0]] + rr);
        assert forall|i: int, j: int| 0 <= i < j < r.len() implies r[i].created_at
            <= r[j].created_at by {
            if i > 0 {
                assert(r[i] == rr[i - 1] && r[j] == rr[j - 1]);
            } else {
                let x = rr[j - 1];
                assert(rr.contains(x));
                assert(rr.to_multiset().count(x) > 0);
                if x == m {
                    assert(s[0].created_at <= m.created_at);
                } else {
                    assert(t.to_multiset().count(x) > 0);
                    assert(t.contains(x));
                    let k = choose|k: int| 0 <= k < t.len() && t[k] == x;
                    assert(s[0].created_at <= s[k + 1].created_at);
                }
            }
        }
    }
}

proof fn lemma_insert_by_created_distinct(m: MapView, s: Seq<MapView>)
    requires
        distinct_created(s),
        forall|k: int| 0 <= k < s.len() ==> (#[trigger] s[k]).created_at != m.created_at,
    ensures
        distinct_created(insert_by_created(m, s)),
    decreases s.len(),
{
    broadcast use vstd::seq_lib::group_to_multiset_ensures;
    broadcast use vstd::multiset::group_multiset_axioms;

    let r = insert_by_created(m, s);
    if s.len() == 0 {
    } else if m.created_at < s[0].created_at {
        assert forall|i: int, j: int| 0 <= i < j < r.len() implies r[i].created_at
            != r[j].created_at by {
            if i > 0 {
                assert(r[i] == s[i - 1] && r[j] == s[j - 1]);
            } else {
                assert(r[j] == s[j - 1]);
            }
        }
    } else {
        let t = s.drop_first();
        assert(forall|i: int, j: int|
            0 <= i < j < t.len() ==> (#[trigger] t[i]).created_at != (#[trigger] t[j]).created_at);
        assert(forall|k: int| 0 <= k < t.len() ==> (#[trigger] t[k]).created_at != m.created_at);
        lemma_insert_by_created_distinct(m, t);
        lemma_insert_by_created_multiset(m, t);
        let rr = insert_by_created(m, t);
        assert(r == seq![s[0]] + rr);
        assert forall|i: int, j: int| 0 <= i < j < r.len() implies r[i].created_at
            != r[j].created_at by {
            if i > 0 {
                assert(r[i] == rr[i - 1] && r[j] == rr[j - 1]);
            } else {
                let x = rr[j - 1];
                assert(rr.contains(x));
                assert(rr.to_multiset().count(x) > 0);
                if x == m {
                    assert(s[0].created_at != m.created_at);
                } else {
                    assert(t.to_multiset().count(x) > 0);
                    assert(t.contains(x));
                    let k = choose|k: int| 0 <= k < t.len() && t[k] == x;
                    assert(s[0].created_at != s[k + 1].created_at);
                }
            }
        }
    }
}

/// Sorting by creation time keeps the population (as a multiset) and yields
/// non-decreasing creation times; distinct creation times stay distinct.
pub proof fn lemma_sort_by_created_ensures(s: Seq<MapView>)
    ensures
        sort_by_created(s).len() == s.len(),
        sort_by_created(s).to_multiset() == s.to_multiset(),
        sorted_by_created(sort_by_created(s)),
        distinct_created(s) ==> distinct_created(sort_by_created(s)),
    decreases s.len(),
{
    broadcast use vstd::seq_lib::group_to_multiset_ensures;
    broadcast use vstd::multiset::group_multiset_axioms;

    if s.len() == 0 {
        assert(s =~= Seq::<MapView>::empty());
        assert(sort_by_created(s).to_multiset() =~= s.to_multiset());
    } else {
        let t = s.drop_last();
        let m = s.last();
        lemma_sort_by_created_ensures(t);
        lemma_insert_by_created_multiset(m, sort_by_created(t));
        lemma_insert_by_created_sorted(m, sort_by_created(t));
        assert(s =~= t.push(m));
        assert(s.to_multiset() =~= t.to_multiset().insert(m));
        if distinct_created(s) {
            assert(forall|i: int, j: int|
                0 <= i < j < t.len() ==> (#[trigger] t[i]).created_at != (
                #[trigger] t[j]).created_at);
            assert forall|k: int| 0 <= k < sort_by_created(t).len() implies (#[trigger] sort_by_created(
                t,
            )[k]).created_at != m.created_at by {
                let x = sort_by_created(t)[k];
                assert(sort_by_created(t).contains(x));
                assert(sort_by_created(t).to_multiset().count(x) > 0);
                assert(t.contains(x));
                let k2 = choose|k2: int| 0 <= k2 < t.len() && t[k2] == x;
                assert(s[k2] == x && s[s.len() - 1] == m);
            }
            lemma_insert_by_created_distinct(m, sort_by_created(t));
        }
    }
}

proof fn lemma_name_lt_asymmetric(a: Seq<char>, b: Seq<char>)
    requires
        name_lt(a, b),
    ensures
        !name_lt(b, a),
    decreases a.len(),
{
    if a.len() != 0 && b.len() != 0 {
        if (a[0] as u32) == (b[0] as u32) {
            lemma_name_lt_asymmetric(a.drop_first(), b.drop_first());
        }
    }
}

proof fn lemma_name_lt_transitive(a: Seq<char>, b: Seq<char>, c: Seq<char>)
    requires
        name_lt(a, b),
        name_lt(b, c),
    ensures
        name_lt(a, c),
    decreases a.len(),
{
    if a.len() != 0 && b.len() != 0 && c.len() != 0 {
        if (a[0] as u32) == (b[0] as u32) && (b[0] as u32) == (c[0] as u32) {
            lemma_name_lt_transitive(a.drop_first(), b.drop_first(), c.drop_first());
        }
    }
}

proof fn lemma_insert_by_name_multiset(m: MapView, s: Seq<MapView>)
    ensures
        insert_by_name(m, s).len() == s.len() + 1,
        insert_by_name(m, s).to_multiset() == s.to_multiset().insert(m),
    decreases s.len(),
{
    broadcast use vstd::seq_lib::group_to_multiset_ensures;
    broadcast use vstd::seq_lib::lemma_multiset_commutative;
    broadcast use vstd::multiset::group_multiset_axioms;

    let r = insert_by_name(m, s);
    if s.len() == 0 {
        assert(s =~= Seq::<MapView>::empty());
        assert(r =~= s.push(m));
    } else if name_lt(m.name, s[0].name) {
        assert(r == seq![m] + s);
        assert(seq![m] =~= Seq::<MapView>::empty().push(m));
        assert(seq![m].to_multiset() =~= Multiset::<MapView>::empty().insert(m));
        assert((seq![m] + s).to_multiset() =~= s.to_multiset().insert(m));
    } else {
        let t = s.drop_first();
        lemma_insert_by_name_multiset(m, t);
        assert(r == seq![s[0]] + insert_by_name(m, t));
        assert(seq![s[0]] =~= Seq::<MapView>::empty().push(s[0]));
        assert(seq![s[0]].to_multiset() =~= Multiset::<MapView>::empty().insert(s[0]));
        assert(s =~= seq![s[0]] + t);
        assert(s.to_multiset() =~= t.to_multiset().insert(s[0]));
        assert(r.to_multiset() =~= s.to_multiset().insert(m));
    }
}

proof fn lemma_insert_by_name_sorted(m: MapView, s: Seq<MapView>)
    requires
        sorted_by_name(s),
    ensures
        sorted_by_name(insert_by_name(m, s)),
    decreases s.len(),
{
    broadcast use vstd::seq_lib::group_to_multiset_ensures;
    broadcast use vstd::multiset::group_multiset_axioms;

    let r = insert_by_name(m, s);
    if s.len() == 0 {
    } else if name_lt(m.name, s[0].name) {
        assert forall|i: int, j: int| 0 <= i < j < r.len() implies !name_lt(
            r[j].name,
            r[i].name,
        ) by {
            if i > 0 {
                assert(r[i] == s[i - 1] && r[j] == s[j - 1]);
            } else {
                assert(r[j] == s[j - 1]);
                if j > 1 {
                    if name_lt(s[j - 1].name, m.name) {
                        lemma_name_lt_transitive(s[j - 1].name, m.name, s[0].name);
                    }
                } else {
                    lemma_name_lt_asymmetric(m.name, s[0].name);
                }
            }
        }
    } else {
        let t = s.drop_first();
        assert(forall|i: int, j: int|
            0 <= i < j < t.len() ==> !name_lt((#[trigger] t[j]).name, (#[trigger] t[i]).name));
        lemma_insert_by_name_sorted(m, t);
        lemma_insert_by_name_multiset(m, t);
        let rr = insert_by_name(m, t);
        assert(r == seq![s[0]] + rr);
        assert forall|i: int, j: int| 0 <= i < j < r.len() implies !name_lt(
            r[j].name,
            r[i].name,
        ) by {
            if i > 0 {
                assert(r[i] == rr[i - 1] && r[j] == rr[j - 1]);
            } else {
                let x = rr[j - 1];
                assert(rr.contains(x));
                assert(rr.to_multiset().count(x) > 0);
                if x == m {
                    assert(!name_lt(m.name, s[0].name));
                } else {
                    assert(t.to_multiset().count(x) > 0);
                    assert(t.contains(x));
                    let k = choose|k: int| 0 <= k < t.len() && t[k] == x;
                    assert(!name_lt(s[k + 1].name, s[0].name));
                }
            }
        }
    }
}

/// Sorting by name keeps the population (as a multiset) and yields
/// non-descending names.
pub proof fn lemma_sort_by_name_ensures(s: Seq<MapView>)
    ensures
        sort_by_name(s).len() == s.len(),
        sort_by_name(s).to_multiset() == s.to_multiset(),
        sorted_by_name(sort_by_name(s)),
    decreases s.len(),
{
    broadcast use vstd::seq_lib::group_to_multiset_ensures;
    broadcast use vstd::multiset::group_multiset_axioms;

    if s.len() == 0 {
        assert(s =~= Seq::<MapView>::empty());
        assert(sort_by_name(s).to_multiset() =~= s.to_multiset());
    } else {
        let t = s.drop_last();
        let m = s.last();
        lemma_sort_by_name_ensures(t);
        lemma_insert_by_name_multiset(m, sort_by_name(t));
        lemma_insert_by_name_sorted(m, sort_by_name(t));
        assert(s =~= t.push(m));
        assert(s.to_multiset() =~= t.to_multiset().insert(m));
    }
}


// ---------------------------------------------------------------------------
// Submission
// ---------------------------------------------------------------------------
/// Create-or-update is idempotent on the name: a second submission under the
/// same key and difficulty adds no record, keeps `created_at`, and moves
/// `last_changed` forward, never back.
pub proof fn lemma_create_or_update_idempotent(
    s: Seq<MapView>,
    key: Seq<char>,
    d: Difficulty,
    t1: u64,
    t2: u64,
)
    requires
        wf_store(s),
        t1 <= t2,
        has_name(s, key) ==> t1 >= s[index_of(s, key)].created_at,
    ensures
        ({
            let s1 = spec_create_or_update(s, key, d, t1);
            let s2 = spec_create_or_update(s1, key, d, t2);
            &&& wf_store(s1) && wf_store(s2)
            &&& has_name(s1, key) && has_name(s2, key)
            &&& s2.len() == s1.len()
            &&& forall|i: int|
                0 <= i < s2.len() && s2[i].name == key ==> i == index_of(s2, key)
            &&& s2[index_of(s2, key)].created_at == s1[index_of(s1, key)].created_at
            &&& s2[index_of(s2, key)].last_changed >= s1[index_of(s1, key)].last_changed
        }),
{
    let s1 = spec_create_or_update(s, key, d, t1);
    if has_name(s, key) {
        let i = index_of(s, key);
        assert(s1 == s.update(
            i,
            MapView {
                name: s[i].name,
                difficulty: d,
                state: s[i].state,
                created_at: s[i].created_at,
                last_changed: t1,
            },
        ));
        assert(wf_store(s1));
        lemma_index_of_unique(s1, key, i);
    } else {
        let i = s.len() as int;
        assert(s1 == s.push(
            MapView { name: key, difficulty: d, state: MapState::New, created_at: t1, last_changed: t1 },
        ));
        assert(wf_store(s1));
        lemma_index_of_unique(s1, key, i);
    }
    let i1 = index_of(s1, key);
    let s2 = spec_create_or_update(s1, key, d, t2);
    assert(s2 == s1.update(
        i1,
        MapView {
            name: s1[i1].name,
            difficulty: d,
            state: s1[i1].state,
            created_at: s1[i1].created_at,
            last_changed: t2,
        },
    ));
    assert(wf_store(s2));
    lemma_index_of_unique(s2, key, i1);
    assert forall|i: int| 0 <= i < s2.len() && s2[i].name == key implies i == index_of(
        s2,
        key,
    ) by {
        lemma_index_of_unique(s2, key, i);
    }
}

// ---------------------------------------------------------------------------
// The round trip
// ---------------------------------------------------------------------------
/// The net effect of a copy-then-remove relocation on the set of binary
/// paths.
pub open spec fn spec_move_binary(
    fs: Set<Seq<char>>,
    from: Seq<char>,
    to: Seq<char>,
) -> Set<Seq<char>> {
    fs.remove(from).insert(to)
}

/// Approve, publish, then recall a map that is not yet approved: every step
/// is accepted, the map ends in state `New`, and the two demanded
/// relocations carry its binary into the published pool and back, so that it
/// ends in the test pool and not in the published pool.
pub proof fn lemma_approve_publish_recall(
    s: Seq<MapView>,
    cfg: ConfigView,
    key: Seq<char>,
    t1: u64,
    t2: u64,
    t3: u64,
    fs: Set<Seq<char>>,
)
    requires
        wf_store(s),
        has_name(s, key),
        s[index_of(s, key)].state == MapState::New || s[index_of(s, key)].state
            == MapState::Declined,
        t1 >= s[index_of(s, key)].created_at,
        t1 <= t2 <= t3,
        fs.contains(spec_test_binary_path(cfg, key)),
        spec_test_binary_path(cfg, key) != spec_published_binary_path(
            cfg,
            s[index_of(s, key)].difficulty,
            key,
        ),
    ensures
        ({
            let d = s[index_of(s, key)].difficulty;
            let test_path = spec_test_binary_path(cfg, key);
            let pub_path = spec_published_binary_path(cfg, d, key);
            let r1 = spec_apply(s, key, Action::Approve, t1);
            &&& r1 is Ok
            &&& r1->Ok_0.2 is None
            &&& ({
                let r2 = spec_apply(r1->Ok_0.0, key, Action::Publish, t2);
                &&& r2 is Ok
                &&& r2->Ok_0.1.state == MapState::Published
                &&& r2->Ok_0.2 == Some(Relocation::ToPublished)
                &&& ({
                    let r3 = spec_apply(r2->Ok_0.0, key, Action::Recall, t3);
                    &&& r3 is Ok
                    &&& r3->Ok_0.1.state == MapState::New
                    &&& r3->Ok_0.1.name == key
                    &&& r3->Ok_0.1.difficulty == d
                    &&& r3->Ok_0.2 == Some(Relocation::ToTest)
                    &&& ({
                        let fs_after = spec_move_binary(
                            spec_move_binary(fs, test_path, pub_path),
                            pub_path,
                            test_path,
                        );
                        &&& fs_after.contains(test_path)
                        &&& !fs_after.contains(pub_path)
                    })
                })
            })
        }),
{
    let i = index_of(s, key);
    let m0 = s[i];
    let r1 = spec_apply(s, key, Action::Approve, t1);
    let s1 = r1->Ok_0.0;
    assert(wf_store(s1));
    lemma_index_of_unique(s1, key, i);
    let r2 = spec_apply(s1, key, Action::Publish, t2);
    let s2 = r2->Ok_0.0;
    assert(wf_store(s2));
    lemma_index_of_unique(s2, key, i);
    let r3 = spec_apply(s2, key, Action::Recall, t3);
    assert(r3 is Ok);
}

// ---------------------------------------------------------------------------
// Error classification
// ---------------------------------------------------------------------------
/// Publishing a map that is still `New` is an illegal transition.
pub proof fn lemma_publish_new_illegal(s: Seq<MapView>, key: Seq<char>, now: u64)
    requires
        has_name(s, key),
        s[index_of(s, key)].state == MapState::New,
    ensures
        spec_apply(s, key, Action::Publish, now) == Err::<
            (Seq<MapView>, MapView, Option<Relocation>),
            MapError,
        >(MapError::IllegalTransition),
{
}

/// Approving a map that is already approved reports the more specific
/// already-in-state failure.
pub proof fn lemma_approve_approved_already(s: Seq<MapView>, key: Seq<char>, now: u64)
    requires
        has_name(s, key),
        s[index_of(s, key)].state == MapState::Approved,
    ensures
        spec_apply(s, key, Action::Approve, now) == Err::<
            (Seq<MapView>, MapView, Option<Relocation>),
            MapError,
        >(MapError::AlreadyInState),
{
}

// ---------------------------------------------------------------------------
// Artifact listings
// ---------------------------------------------------------------------------
/// The test-pool artifact draws on exactly the maps that are not published,
/// in non-decreasing creation order — strictly increasing whenever the listed
/// maps' creation times are pairwise distinct. A published map never appears.
pub proof fn lemma_test_pool_listing(maps: Seq<MapView>)
    ensures
        ({
            let listing = sort_by_created(test_pool_of(maps));
            &&& sorted_by_created(listing)
            &&& listing.to_multiset() == test_pool_of(maps).to_multiset()
            &&& forall|i: int|
                0 <= i < listing.len() ==> (#[trigger] listing[i]).state != MapState::Published
            &&& forall|i: int|
                0 <= i < maps.len() && in_test_pool(#[trigger] maps[i]) ==> listing.contains(
                    maps[i],
                )
            &&& distinct_created(test_pool_of(maps)) ==> (forall|i: int, j: int|
                0 <= i < j < listing.len() ==> (#[trigger] listing[i]).created_at < (
                #[trigger] listing[j]).created_at)
        }),
{
    broadcast use vstd::seq_lib::group_to_multiset_ensures;
    broadcast use vstd::multiset::group_multiset_axioms;
    broadcast use Seq::lemma_filter_pred;
    broadcast use Seq::lemma_filter_contains;

    let sel = test_pool_of(maps);
    let listing = sort_by_created(sel);
    lemma_sort_by_created_ensures(sel);
    assert forall|i: int| 0 <= i < listing.len() implies (#[trigger] listing[i]).state
        != MapState::Published by {
        let x = listing[i];
        assert(listing.contains(x));
        assert(listing.to_multiset().count(x) > 0);
        assert(sel.contains(x));
        let k = choose|k: int| 0 <= k < sel.len() && sel[k] == x;
        assert(in_test_pool(sel[k]));
    }
    assert forall|i: int| 0 <= i < maps.len() && in_test_pool(#[trigger] maps[i]) implies listing
        .contains(maps[i]) by {
        assert(sel.contains(maps[i]));
        assert(sel.to_multiset().count(maps[i]) > 0);
    }
}

/// The published artifact of one difficulty draws on exactly the published
/// maps of that difficulty: the selection is in non-decreasing creation
/// order, and the entries past the sixth are reordered by non-descending
/// name.
pub proof fn lemma_published_listing(maps: Seq<MapView>, d: Difficulty)
    ensures
        ({
            let sel = sort_by_created(published_of(maps, d));
            &&& sorted_by_created(sel)
            &&& sel.to_multiset() == published_of(maps, d).to_multiset()
            &&& forall|i: int|
                0 <= i < sel.len() ==> (#[trigger] sel[i]).state == MapState::Published && sel[
                i].difficulty == d
            &&& forall|i: int|
                0 <= i < maps.len() && is_published_with(#[trigger] maps[i], d) ==> sel.contains(
                    maps[i],
                )
            &&& sorted_by_name(spec_published_rest(sel))
            &&& sel.len() > 6 ==> spec_published_rest(sel).to_multiset() == sel.skip(
                6,
            ).to_multiset()
        }),
{
    broadcast use vstd::seq_lib::group_to_multiset_ensures;
    broadcast use vstd::multiset::group_multiset_axioms;
    broadcast use Seq::lemma_filter_pred;
    broadcast use Seq::lemma_filter_contains;

    let raw = published_of(maps, d);
    let sel = sort_by_created(raw);
    lemma_sort_by_created_ensures(raw);
    assert forall|i: int| 0 <= i < sel.len() implies (#[trigger] sel[i]).state
        == MapState::Published && sel[i].difficulty == d by {
        let x = sel[i];
        assert(sel.contains(x));
        assert(sel.to_multiset().count(x) > 0);
        assert(raw.contains(x));
        let k = choose|k: int| 0 <= k < raw.len() && raw[k] == x;
        assert(is_published_with(raw[k], d));
    }
    assert forall|i: int| 0 <= i < maps.len() && is_published_with(#[trigger] maps[i], d) implies sel
        .contains(maps[i]) by {
        assert(raw.contains(maps[i]));
        assert(raw.to_multiset().count(maps[i]) > 0);
    }
    lemma_sort_by_name_ensures(sel.skip(6));
    if sel.len() <= 6 {
        assert(sorted_by_name(spec_published_rest(sel)));
    }
}

// ---------------------------------------------------------------------------
// Determinism
// ---------------------------------------------------------------------------
/// Regenerating twice with no intervening mutation yields byte-identical
/// artifacts: the files are a function of the configuration and the
/// population alone.
pub proof fn lemma_regeneration_deterministic(
    cfg: ConfigView,
    maps: Seq<MapView>,
    a: Seq<VoteFileView>,
    b: Seq<VoteFileView>,
)
    requires
        a == spec_vote_files(cfg, maps),
        b == spec_vote_files(cfg, maps),
    ensures
        a == b,
{
}


// ---------------------------------------------------------------------------
// The dual-store invariant
// ---------------------------------------------------------------------------
/// One record agrees with the binary layout: a published map's binary sits in
/// its difficulty's published-pool directory and nowhere else; any other
/// map's binary is out of the published pool altogether (in the test pool, or
/// not yet uploaded).
pub open spec fn consistent_record(m: MapView, cfg: ConfigView, fs: Set<Seq<char>>) -> bool {
    if m.state == MapState::Published {
        &&& fs.contains(spec_published_binary_path(cfg, m.difficulty, m.name))
        &&& !fs.contains(spec_test_binary_path(cfg, m.name))
        &&& forall|d: Difficulty|
            d != m.difficulty ==> !fs.contains(spec_published_binary_path(cfg, d, m.name))
    } else {
        forall|d: Difficulty| !fs.contains(spec_published_binary_path(cfg, d, m.name))
    }
}

/// The whole population agrees with the binary layout.
pub open spec fn consistent_layout(s: Seq<MapView>, cfg: ConfigView, fs: Set<Seq<char>>) -> bool {
    forall|i: int| 0 <= i < s.len() ==> consistent_record(#[trigger] s[i], cfg, fs)
}

/// No two distinct names share a binary path, and the two pools never share
/// one: true of any layout whose two directories are distinct, and assumed of
/// the configuration rather than derived from the text of the paths.
pub open spec fn separated_layout(cfg: ConfigView) -> bool {
    &&& forall|n1: Seq<char>, n2: Seq<char>|
        n1 != n2 ==> #[trigger] spec_test_binary_path(cfg, n1) != #[trigger] spec_test_binary_path(
            cfg,
            n2,
        )
    &&& forall|n1: Seq<char>, n2: Seq<char>, d1: Difficulty, d2: Difficulty|
        n1 != n2 || d1 != d2 ==> #[trigger] spec_published_binary_path(cfg, d1, n1)
            != #[trigger] spec_published_binary_path(cfg, d2, n2)
    &&& forall|n1: Seq<char>, n2: Seq<char>, d: Difficulty|
        #[trigger] spec_test_binary_path(cfg, n1) != #[trigger] spec_published_binary_path(
            cfg,
            d,
            n2,
        )
}

/// A fulfilled action keeps the two stores consistent: the record mutation,
/// taken together with the relocation it demands (applied as its net effect
/// on the set of binary paths), preserves the layout invariant. The one
/// exception, documented and deliberate, is a difficulty change on an
/// already published map, whose binary stays in the old difficulty's folder.
pub proof fn lemma_action_preserves_layout(
    s: Seq<MapView>,
    cfg: ConfigView,
    fs: Set<Seq<char>>,
    key: Seq<char>,
    a: Action,
    now: u64,
)
    requires
        wf_store(s),
        consistent_layout(s, cfg, fs),
        separated_layout(cfg),
        spec_apply(s, key, a, now) is Ok,
        !(a is ChangeDifficulty && has_name(s, key) && s[index_of(s, key)].state
            == MapState::Published),
    ensures
        ({
            let t = spec_apply(s, key, a, now)->Ok_0;
            let fs2 = match t.2 {
                None => fs,
                Some(rl) => spec_move_binary(
                    fs,
                    spec_relocation_paths(cfg, t.1, rl).0,
                    spec_relocation_paths(cfg, t.1, rl).1,
                ),
            };
            consistent_layout(t.0, cfg, fs2)
        }),
{
    let i = index_of(s, key);
    let m0 = s[i];
    let t = spec_apply(s, key, a, now)->Ok_0;
    let nm = t.1;
    let fs2 = match t.2 {
        None => fs,
        Some(rl) => spec_move_binary(
            fs,
            spec_relocation_paths(cfg, nm, rl).0,
            spec_relocation_paths(cfg, nm, rl).1,
        ),
    };
    assert(nm.name == key);
    assert forall|j: int| 0 <= j < t.0.len() implies consistent_record(
        #[trigger] t.0[j],
        cfg,
        fs2,
    ) by {
        if j != i {
            let mj = s[j];
            assert(t.0[j] == mj);
            assert(consistent_record(mj, cfg, fs));
            assert(mj.name != key);
            if mj.state == MapState::Published {
                assert(fs2.contains(spec_published_binary_path(cfg, mj.difficulty, mj.name)));
                assert(!fs2.contains(spec_test_binary_path(cfg, mj.name)));
                assert forall|d: Difficulty| d != mj.difficulty implies !fs2.contains(
                    spec_published_binary_path(cfg, d, mj.name),
                ) by {
                    assert(!fs.contains(spec_published_binary_path(cfg, d, mj.name)));
                }
            } else {
                assert forall|d: Difficulty| !fs2.contains(
                    spec_published_binary_path(cfg, d, mj.name),
                ) by {
                    assert(!fs.contains(spec_published_binary_path(cfg, d, mj.name)));
                }
            }
        } else {
            assert(t.0[j] == nm);
            match a {
                Action::Approve | Action::Decline => {
                    assert(fs2 == fs);
                    assert(nm.state != MapState::Published);
                    assert(m0.state != MapState::Published);
                },
                Action::Publish => {
                    assert(m0.state == MapState::Approved);
                    assert(nm.state == MapState::Published && nm.difficulty == m0.difficulty);
                    assert(fs2 == fs.remove(spec_test_binary_path(cfg, key)).insert(
                        spec_published_binary_path(cfg, nm.difficulty, key),
                    ));
                },
                Action::Recall => {
                    assert(nm.state == MapState::New);
                    if m0.state == MapState::Published {
                        assert(fs2 == fs.remove(
                            spec_published_binary_path(cfg, m0.difficulty, key),
                        ).insert(spec_test_binary_path(cfg, key)));
                        assert forall|d: Difficulty| !fs2.contains(
                            spec_published_binary_path(cfg, d, key),
                        ) by {
                            if d != m0.difficulty {
                                assert(!fs.contains(spec_published_binary_path(cfg, d, key)));
                            }
                        }
                    } else {
                        assert(fs2 == fs);
                    }
                },
                Action::ChangeDifficulty(_) => {
                    assert(fs2 == fs);
                    assert(m0.state != MapState::Published);
                    assert(nm.state == m0.state);
                },
            }
        }
    }
}

/// A fulfilled submission keeps the two stores consistent, provided the name
/// is not that of an already published map (resubmitting one would place a
/// fresh binary in the test pool beside the published one) and, for a name
/// the population does not know, that no stale binary of it sits in the
/// published pool. The uploaded binary lands in the test pool.
pub proof fn lemma_submission_preserves_layout(
    s: Seq<MapView>,
    cfg: ConfigView,
    fs: Set<Seq<char>>,
    key: Seq<char>,
    d: Difficulty,
    now: u64,
)
    requires
        wf_store(s),
        consistent_layout(s, cfg, fs),
        separated_layout(cfg),
        has_name(s, key) ==> s[index_of(s, key)].state != MapState::Published,
        !has_name(s, key) ==> forall|dd: Difficulty|
            !fs.contains(spec_published_binary_path(cfg, dd, key)),
    ensures
        consistent_layout(
            spec_create_or_update(s, key, d, now),
            cfg,
            fs.insert(spec_test_binary_path(cfg, key)),
        ),
{
    let t = spec_create_or_update(s, key, d, now);
    let fs2 = fs.insert(spec_test_binary_path(cfg, key));
    assert forall|j: int| 0 <= j < t.len() implies consistent_record(
        #[trigger] t[j],
        cfg,
        fs2,
    ) by {
        if has_name(s, key) {
            let i = index_of(s, key);
            if j != i {
                let mj = s[j];
                assert(t[j] == mj);
                assert(consistent_record(mj, cfg, fs));
                assert(mj.name != key);
                if mj.state == MapState::Published {
                    assert forall|dd: Difficulty| dd != mj.difficulty implies !fs2.contains(
                        spec_published_binary_path(cfg, dd, mj.name),
                    ) by {
                        assert(!fs.contains(spec_published_binary_path(cfg, dd, mj.name)));
                    }
                } else {
                    assert forall|dd: Difficulty| !fs2.contains(
                        spec_published_binary_path(cfg, dd, mj.name),
                    ) by {
                        assert(!fs.contains(spec_published_binary_path(cfg, dd, mj.name)));
                    }
                }
            } else {
                assert(t[j].name == key && t[j].state == s[i].state);
                assert(t[j].state != MapState::Published);
                assert forall|dd: Difficulty| !fs2.contains(
                    spec_published_binary_path(cfg, dd, key),
                ) by {
                    assert(!fs.contains(spec_published_binary_path(cfg, dd, key)));
                }
            }
        } else {
            if j < s.len() {
                let mj = s[j];
                assert(t[j] == mj);
                assert(consistent_record(mj, cfg, fs));
                assert(mj.name != key);
                if mj.state == MapState::Published {
                    assert forall|dd: Difficulty| dd != mj.difficulty implies !fs2.contains(
                        spec_published_binary_path(cfg, dd, mj.name),
                    ) by {
                        assert(!fs.contains(spec_published_binary_path(cfg, dd, mj.name)));
                    }
                } else {
                    assert forall|dd: Difficulty| !fs2.contains(
                        spec_published_binary_path(cfg, dd, mj.name),
                    ) by {
                        assert(!fs.contains(spec_published_binary_path(cfg, dd, mj.name)));
                    }
                }
            } else {
                assert(t[j].name == key && t[j].state == MapState::New);
                assert forall|dd: Difficulty| !fs2.contains(
                    spec_published_binary_path(cfg, dd, key),
                ) by {
                    assert(!fs.contains(spec_published_binary_path(cfg, dd, key)));
                }
            }
        }
    }
}

} // verus!
