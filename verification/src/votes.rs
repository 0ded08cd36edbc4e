//! The artifact generator: a pure derivation of the vote-list text files from
//! the current record population. A test-pool artifact lists every map that
//! is not published, ordered by creation time; a published-pool artifact
//! lists the published maps of one difficulty, the six oldest first in
//! creation order, the rest alphabetically under a separator.

use vstd::prelude::*;
use vstd::string::StringExecFns;

use crate::model::{record_views, Difficulty, MapRecord, MapState, MapView};

verus! {

// ---------------------------------------------------------------------------
// Selection
// ---------------------------------------------------------------------------
/// Maps in the test pool: every state but `Published`.
pub open spec fn in_test_pool(m: MapView) -> bool {
    m.state != MapState::Published
}

/// The test-pool selection, in population order.
pub open spec fn test_pool_of(s: Seq<MapView>) -> Seq<MapView> {
    s.filter(|m: MapView| in_test_pool(m))
}

/// A published map of the given difficulty.
pub open spec fn is_published_with(m: MapView, d: Difficulty) -> bool {
    m.state == MapState::Published && m.difficulty == d
}

/// The published-pool selection for one difficulty, in population order.
pub open spec fn published_of(s: Seq<MapView>, d: Difficulty) -> Seq<MapView> {
    s.filter(|m: MapView| is_published_with(m, d))
}

/// The records that belong to the test pool, in order.
pub fn test_pool_records(maps: &Vec<MapRecord>) -> (r: Vec<MapRecord>)
    ensures
        record_views(r@) == test_pool_of(record_views(maps@)),
{
    let ghost all = record_views(maps@);
    let ghost pred = |m: MapView| in_test_pool(m);
    let mut out: Vec<MapRecord> = Vec::new();
    let mut i: usize = 0;
    proof {
        reveal(Seq::filter);
        assert(all.take(0) =~= Seq::<MapView>::empty());
        assert(record_views(out@) =~= all.take(0).filter(pred));
    }
    while i < maps.len()
        invariant
            i <= maps.len(),
            all == record_views(maps@),
            pred == (|m: MapView| in_test_pool(m)),
            record_views(out@) == all.take(i as int).filter(pred),
        decreases maps.len() - i,
    {
        proof {
            reveal(Seq::filter);
            assert(all.take(i + 1).drop_last() =~= all.take(i as int));
            assert(all.take(i + 1).last() == all[i as int]);
        }
        let keep = match maps[i].state {
            MapState::Published => false,
            _ => true,
        };
        if keep {
            out.push(maps[i].clone());
            proof {
                assert(record_views(out@) =~= all.take(i as int).filter(pred).push(all[i as int]));
            }
        }
        i += 1;
    }
    proof {
        assert(all.take(maps@.len() as int) =~= all);
    }
    out
}

/// The records published under the given difficulty, in order.
pub fn published_records(maps: &Vec<MapRecord>, d: Difficulty) -> (r: Vec<MapRecord>)
    ensures
        record_views(r@) == published_of(record_views(maps@), d),
{
    let ghost all = record_views(maps@);
    let ghost pred = |m: MapView| is_published_with(m, d);
    let mut out: Vec<MapRecord> = Vec::new();
    let mut i: usize = 0;
    proof {
        reveal(Seq::filter);
        assert(all.take(0) =~= Seq::<MapView>::empty());
        assert(record_views(out@) =~= all.take(0).filter(pred));
    }
    while i < maps.len()
        invariant
            i <= maps.len(),
            all == record_views(maps@),
            pred == (|m: MapView| is_published_with(m, d)),
            record_views(out@) == all.take(i as int).filter(pred),
        decreases maps.len() - i,
    {
        proof {
            reveal(Seq::filter);
            assert(all.take(i + 1).drop_last() =~= all.take(i as int));
            assert(all.take(i + 1).last() == all[i as int]);
        }
        let keep = match maps[i].state {
            MapState::Published => maps[i].difficulty == d,
            _ => false,
        };
        if keep {
            out.push(maps[i].clone());
            proof {
                assert(record_views(out@) =~= all.take(i as int).filter(pred).push(all[i as int]));
            }
        }
        i += 1;
    }
    proof {
        assert(all.take(maps@.len() as int) =~= all);
    }
    out
}

// ---------------------------------------------------------------------------
// Ordering
// ---------------------------------------------------------------------------
/// Stable insertion by creation time: the new map goes after every map
/// created no later than it.
pub open spec fn insert_by_created(m: MapView, s: Seq<MapView>) -> Seq<MapView>
    decreases s.len(),
{
    if s.len() == 0 {
        seq![m]
    } else if m.created_at < s[0].created_at {
        seq![m] + s
    } else {
        seq![s[0]] + insert_by_created(m, s.drop_first())
    }
}

/// Stable sort by ascending creation time.
pub open spec fn sort_by_created(s: Seq<MapView>) -> Seq<MapView>
    decreases s.len(),
{
    if s.len() == 0 {
        Seq::empty()
    } else {
        insert_by_created(s.last(), sort_by_created(s.drop_last()))
    }
}

/// Lexicographic order on names, by character value.
pub open spec fn name_lt(a: Seq<char>, b: Seq<char>) -> bool
    decreases a.len(),
{
    if b.len() == 0 {
        false
    } else if a.len() == 0 {
        true
    } else if (a[0] as u32) < (b[0] as u32) {
        true
    } else if (b[0] as u32) < (a[0] as u32) {
        false
    } else {
        name_lt(a.drop_first(), b.drop_first())
    }
}

/// Stable insertion by name.
pub open spec fn insert_by_name(m: MapView, s: Seq<MapView>) -> Seq<MapView>
    decreases s.len(),
{
    if s.len() == 0 {
        seq![m]
    } else if name_lt(m.name, s[0].name) {
        seq![m] + s
    } else {
        seq![s[0]] + insert_by_name(m, s.drop_first())
    }
}

/// Stable sort by ascending name.
pub open spec fn sort_by_name(s: Seq<MapView>) -> Seq<MapView>
    decreases s.len(),
{
    if s.len() == 0 {
        Seq::empty()
    } else {
        insert_by_name(s.last(), sort_by_name(s.drop_last()))
    }
}

proof fn lemma_insert_by_created_at(m: MapView, s: Seq<MapView>, j: int)
    requires
        0 <= j <= s.len(),
        forall|k: int| 0 <= k < j ==> !(m.created_at < (#[trigger] s[k]).created_at),
        j < s.len() ==> m.created_at < s[j].created_at,
    ensures
        insert_by_created(m, s) == s.take(j) + seq![m] + s.skip(j),
    decreases j,
{
    if j == 0 {
        assert(insert_by_created(m, s) =~= s.take(0) + seq![m] + s.skip(0));
    } else {
        let t = s.drop_first();
        assert(forall|k: int| 0 <= k < j - 1 ==> (#[trigger] t[k]) == s[k + 1]);
        lemma_insert_by_created_at(m, t, j - 1);
        assert(insert_by_created(m, s) =~= s.take(j) + seq![m] + s.skip(j));
    }
}

proof fn lemma_insert_by_name_at(m: MapView, s: Seq<MapView>, j: int)
    requires
        0 <= j <= s.len(),
        forall|k: int| 0 <= k < j ==> !name_lt(m.name, (#[trigger] s[k]).name),
        j < s.len() ==> name_lt(m.name, s[j].name),
    ensures
        insert_by_name(m, s) == s.take(j) + seq![m] + s.skip(j),
    decreases j,
{
    if j == 0 {
        assert(insert_by_name(m, s) =~= s.take(0) + seq![m] + s.skip(0));
    } else {
        let t = s.drop_first();
        assert(forall|k: int| 0 <= k < j - 1 ==> (#[trigger] t[k]) == s[k + 1]);
        lemma_insert_by_name_at(m, t, j - 1);
        assert(insert_by_name(m, s) =~= s.take(j) + seq![m] + s.skip(j));
    }
}

fn insert_record_by_created(v: &mut Vec<MapRecord>, m: MapRecord)
    ensures
        record_views(final(v)@) == insert_by_created(m@, record_views(old(v)@)),
{
    let mut j: usize = 0;
    while j < v.len() && v[j].created_at <= m.created_at
        invariant
            j <= v.len(),
            v@ == old(v)@,
            forall|k: int|
                0 <= k < j ==> !(m@.created_at < (#[trigger] record_views(v@)[k]).created_at),
        decreases v.len() - j,
    {
        j += 1;
    }
    proof {
        lemma_insert_by_created_at(m@, record_views(v@), j as int);
    }
    let ghost before = record_views(v@);
    v.insert(j, m);
    proof {
        assert(record_views(v@) =~= before.take(j as int) + seq![m@] + before.skip(j as int));
    }
}

fn insert_record_by_name(v: &mut Vec<MapRecord>, m: MapRecord)
    ensures
        record_views(final(v)@) == insert_by_name(m@, record_views(old(v)@)),
{
    let mut j: usize = 0;
    while j < v.len() && !str_lt(m.name.as_str(), v[j].name.as_str())
        invariant
            j <= v.len(),
            v@ == old(v)@,
            forall|k: int|
                0 <= k < j ==> !name_lt(m@.name, (#[trigger] record_views(v@)[k]).name),
        decreases v.len() - j,
    {
        j += 1;
    }
    proof {
        lemma_insert_by_name_at(m@, record_views(v@), j as int);
    }
    let ghost before = record_views(v@);
    v.insert(j, m);
    proof {
        assert(record_views(v@) =~= before.take(j as int) + seq![m@] + before.skip(j as int));
    }
}

/// The records ordered by ascending creation time, ties kept in input order.
pub fn sort_records_by_created(maps: &Vec<MapRecord>) -> (r: Vec<MapRecord>)
    ensures
        record_views(r@) == sort_by_created(record_views(maps@)),
{
    let ghost all = record_views(maps@);
    let mut out: Vec<MapRecord> = Vec::new();
    let mut i: usize = 0;
    proof {
        assert(all.take(0) =~= Seq::<MapView>::empty());
        assert(record_views(out@) =~= sort_by_created(all.take(0)));
    }
    while i < maps.len()
        invariant
            i <= maps.len(),
            all == record_views(maps@),
            record_views(out@) == sort_by_created(all.take(i as int)),
        decreases maps.len() - i,
    {
        insert_record_by_created(&mut out, maps[i].clone());
        proof {
            assert(all.take(i + 1).drop_last() =~= all.take(i as int));
            assert(all.take(i + 1).last() == all[i as int]);
        }
        i += 1;
    }
    proof {
        assert(all.take(maps@.len() as int) =~= all);
    }
    out
}

/// The records ordered by ascending name, ties kept in input order.
pub fn sort_records_by_name(maps: &Vec<MapRecord>) -> (r: Vec<MapRecord>)
    ensures
        record_views(r@) == sort_by_name(record_views(maps@)),
{
    let ghost all = record_views(maps@);
    let mut out: Vec<MapRecord> = Vec::new();
    let mut i: usize = 0;
    proof {
        assert(all.take(0) =~= Seq::<MapView>::empty());
        assert(record_views(out@) =~= sort_by_name(all.take(0)));
    }
    while i < maps.len()
        invariant
            i <= maps.len(),
            all == record_views(maps@),
            record_views(out@) == sort_by_name(all.take(i as int)),
        decreases maps.len() - i,
    {
        insert_record_by_name(&mut out, maps[i].clone());
        proof {
            assert(all.take(i + 1).drop_last() =~= all.take(i as int));
            assert(all.take(i + 1).last() == all[i as int]);
        }
        i += 1;
    }
    proof {
        assert(all.take(maps@.len() as int) =~= all);
    }
    out
}

/// Whether `a` comes strictly before `b` in lexicographic name order.
pub fn str_lt(a: &str, b: &str) -> (r: bool)
    ensures
        r == name_lt(a@, b@),
{
    proof {
        assert(a@.skip(0) =~= a@);
        assert(b@.skip(0) =~= b@);
    }
    str_lt_from(a, b, 0)
}

fn str_lt_from(a: &str, b: &str, i: usize) -> (r: bool)
    requires
        i <= a@.len(),
        i <= b@.len(),
    ensures
        r == name_lt(a@.skip(i as int), b@.skip(i as int)),
    decreases a@.len() - i,
{
    let alen = a.unicode_len();
    let blen = b.unicode_len();
    if i == blen {
        proof {
            assert(b@.skip(i as int) =~= Seq::<char>::empty());
        }
        false
    } else if i == alen {
        proof {
            assert(a@.skip(i as int) =~= Seq::<char>::empty());
        }
        true
    } else {
        let ca = a.get_char(i);
        let cb = b.get_char(i);
        proof {
            assert(a@.skip(i as int)[0] == a@[i as int]);
            assert(b@.skip(i as int)[0] == b@[i as int]);
        }
        if (ca as u32) < (cb as u32) {
            true
        } else if (cb as u32) < (ca as u32) {
            false
        } else {
            proof {
                assert(a@.skip(i as int).drop_first() =~= a@.skip(i + 1));
                assert(b@.skip(i as int).drop_first() =~= b@.skip(i + 1));
            }
            str_lt_from(a, b, i + 1)
        }
    }
}

// ---------------------------------------------------------------------------
// Rendering
// ---------------------------------------------------------------------------
/// One test-pool vote entry: glyph, padded difficulty label and name, paired
/// with the command that switches the server to that map.
pub open spec fn spec_test_line(m: MapView) -> Seq<char> {
    "add_vote \""@ + m.state.spec_glyph() + " "@ + m.difficulty.spec_label() + " "@ + m.name
        + "\" \"change_map \\\""@ + m.name + "\\\"\""@
}

pub fn test_vote_line(m: &MapRecord) -> (r: String)
    ensures
        r@ == spec_test_line(m@),
{
    let mut out = String::new();
    out.append("add_vote \"");
    out.append(m.state.glyph());
    out.append(" ");
    out.append(m.difficulty.label());
    out.append(" ");
    out.append(m.name.as_str());
    out.append("\" \"change_map \\\"");
    out.append(m.name.as_str());
    out.append("\\\"\"");
    proof {
        assert(out@ =~= spec_test_line(m@));
    }
    out
}

/// One published-pool vote entry: the name, paired with the difficulty's
/// reset-config path and the command that switches to the published map.
pub open spec fn spec_published_line(pub_dir: Seq<char>, m: MapView) -> Seq<char> {
    "add_vote \""@ + m.name + "\" \"sv_reset_file \""@ + pub_dir + "/"@
        + m.difficulty.spec_segment() + "/flexreset.cfg"@ + "\"; change_map \\\""@
        + m.difficulty.spec_segment() + "/"@ + m.name + "\\\"\""@
}

pub fn published_vote_line(pub_dir: &str, m: &MapRecord) -> (r: String)
    ensures
        r@ == spec_published_line(pub_dir@, m@),
{
    let mut out = String::new();
    out.append("add_vote \"");
    out.append(m.name.as_str());
    out.append("\" \"sv_reset_file \"");
    out.append(pub_dir);
    out.append("/");
    out.append(m.difficulty.segment());
    out.append("/flexreset.cfg");
    out.append("\"; change_map \\\"");
    out.append(m.difficulty.segment());
    out.append("/");
    out.append(m.name.as_str());
    out.append("\\\"\"");
    proof {
        assert(out@ =~= spec_published_line(pub_dir@, m@));
    }
    out
}

/// The test-pool entries joined by newlines.
pub open spec fn spec_test_block(s: Seq<MapView>) -> Seq<char>
    decreases s.len(),
{
    if s.len() == 0 {
        Seq::empty()
    } else if s.len() == 1 {
        spec_test_line(s[0])
    } else {
        spec_test_line(s[0]) + "\n"@ + spec_test_block(s.drop_first())
    }
}

proof fn lemma_test_block_push(s: Seq<MapView>, m: MapView)
    ensures
        spec_test_block(s.push(m)) == if s.len() == 0 {
            spec_test_line(m)
        } else {
            spec_test_block(s) + "\n"@ + spec_test_line(m)
        },
    decreases s.len(),
{
    let t = s.push(m);
    if s.len() == 0 {
        assert(t[0] == m);
    } else {
        assert(t.drop_first() =~= s.drop_first().push(m));
        lemma_test_block_push(s.drop_first(), m);
        assert(spec_test_block(t) =~= spec_test_block(s) + "\n"@ + spec_test_line(m));
    }
}

/// The whole test-pool artifact: the clear-votes directive, then one entry
/// per map, newest last.
pub open spec fn spec_test_artifact(maps: Seq<MapView>) -> Seq<char> {
    "clear_votes\n"@ + spec_test_block(sort_by_created(test_pool_of(maps)))
}

/// Renders the test-pool artifact for an already selected and ordered list.
pub fn generate_test_votes(maps: &Vec<MapRecord>) -> (r: String)
    ensures
        r@ == "clear_votes\n"@ + spec_test_block(record_views(maps@)),
{
    let ghost all = record_views(maps@);
    let mut out = String::from_str("clear_votes\n");
    let mut i: usize = 0;
    proof {
        assert(all.take(0) =~= Seq::<MapView>::empty());
        assert(out@ =~= "clear_votes\n"@ + spec_test_block(all.take(0)));
    }
    while i < maps.len()
        invariant
            i <= maps.len(),
            all == record_views(maps@),
            out@ == "clear_votes\n"@ + spec_test_block(all.take(i as int)),
        decreases maps.len() - i,
    {
        let line = test_vote_line(&maps[i]);
        if i > 0 {
            out.append("\n");
        }
        out.append(line.as_str());
        proof {
            assert(all.take(i + 1) =~= all.take(i as int).push(all[i as int]));
            lemma_test_block_push(all.take(i as int), all[i as int]);
            assert(out@ =~= "clear_votes\n"@ + spec_test_block(all.take(i + 1)));
        }
        i += 1;
    }
    proof {
        assert(all.take(maps@.len() as int) =~= all);
    }
    out
}

/// Published-pool entries, each preceded by a newline.
pub open spec fn spec_published_block(pub_dir: Seq<char>, s: Seq<MapView>) -> Seq<char>
    decreases s.len(),
{
    if s.len() == 0 {
        Seq::empty()
    } else {
        "\n"@ + spec_published_line(pub_dir, s[0]) + spec_published_block(pub_dir, s.drop_first())
    }
}

proof fn lemma_published_block_push(pub_dir: Seq<char>, s: Seq<MapView>, m: MapView)
    ensures
        spec_published_block(pub_dir, s.push(m)) == spec_published_block(pub_dir, s) + "\n"@
            + spec_published_line(pub_dir, m),
    decreases s.len(),
{
    let t = s.push(m);
    if s.len() == 0 {
        assert(t[0] == m);
        assert(t.drop_first() =~= Seq::<MapView>::empty());
        assert(spec_published_block(pub_dir, t.drop_first()) == Seq::<char>::empty());
        assert(spec_published_block(pub_dir, t) == "\n"@ + spec_published_line(pub_dir, m)
            + Seq::<char>::empty());
        assert(spec_published_block(pub_dir, s) == Seq::<char>::empty());
        assert("\n"@ + spec_published_line(pub_dir, m) + Seq::<char>::empty()
            =~= Seq::<char>::empty() + "\n"@ + spec_published_line(pub_dir, m));
    } else {
        let l0 = spec_published_line(pub_dir, s[0]);
        let b = spec_published_block(pub_dir, s.drop_first());
        let lm = spec_published_line(pub_dir, m);
        assert(t[0] == s[0]);
        assert(t.drop_first() =~= s.drop_first().push(m));
        lemma_published_block_push(pub_dir, s.drop_first(), m);
        assert(spec_published_block(pub_dir, t) == "\n"@ + l0 + (b + "\n"@ + lm));
        assert("\n"@ + l0 + (b + "\n"@ + lm) =~= ("\n"@ + l0 + b) + "\n"@ + lm);
        assert(spec_published_block(pub_dir, s) == "\n"@ + l0 + b);
    }
}

/// The newest published maps, shown first: the six oldest by creation time.
pub open spec fn spec_published_head(s: Seq<MapView>) -> Seq<MapView> {
    if s.len() <= 6 {
        s
    } else {
        s.take(6)
    }
}

/// The remaining published maps, reordered alphabetically.
pub open spec fn spec_published_rest(s: Seq<MapView>) -> Seq<MapView> {
    if s.len() <= 6 {
        Seq::empty()
    } else {
        sort_by_name(s.skip(6))
    }
}

/// The body of one published-pool artifact, for an already selected list in
/// creation order: a section of the six oldest maps in that order under the
/// new-maps header, then the rest alphabetically under a separator.
pub open spec fn spec_published_body(pub_dir: Seq<char>, s: Seq<MapView>) -> Seq<char> {
    "add_vote \"─── NEW MAPS ───\" \"info\""@ + spec_published_block(
        pub_dir,
        spec_published_head(s),
    ) + "\n"@ + "add_vote \"────────────────\" \"info\""@ + spec_published_block(
        pub_dir,
        spec_published_rest(s),
    )
}

/// Renders one published-pool artifact for an already selected list in
/// creation order.
pub fn generate_published_votes(pub_dir: &str, maps: &Vec<MapRecord>) -> (r: String)
    ensures
        r@ == spec_published_body(pub_dir@, record_views(maps@)),
{
    let ghost all = record_views(maps@);
    let mut out = String::from_str("add_vote \"─── NEW MAPS ───\" \"info\"");
    let n = maps.len();
    let head_len: usize = if n > 6 {
        6
    } else {
        n
    };
    proof {
        assert(all.take(head_len as int) =~= spec_published_head(all));
    }
    let mut i: usize = 0;
    proof {
        assert(all.take(0) =~= Seq::<MapView>::empty());
        assert(out@ =~= "add_vote \"─── NEW MAPS ───\" \"info\""@ + spec_published_block(
            pub_dir@,
            all.take(0),
        ));
    }
    while i < head_len
        invariant
            i <= head_len <= maps.len(),
            all == record_views(maps@),
            out@ == "add_vote \"─── NEW MAPS ───\" \"info\""@ + spec_published_block(
                pub_dir@,
                all.take(i as int),
            ),
        decreases head_len - i,
    {
        let line = published_vote_line(pub_dir, &maps[i]);
        out.append("\n");
        out.append(line.as_str());
        proof {
            assert(all.take(i + 1) =~= all.take(i as int).push(all[i as int]));
            lemma_published_block_push(pub_dir@, all.take(i as int), all[i as int]);
            assert(out@ =~= "add_vote \"─── NEW MAPS ───\" \"info\""@ + spec_published_block(
                pub_dir@,
                all.take(i + 1),
            ));
        }
        i += 1;
    }
    let ghost first_part = "add_vote \"─── NEW MAPS ───\" \"info\""@ + spec_published_block(
        pub_dir@,
        spec_published_head(all),
    ) + "\n"@ + "add_vote \"────────────────\" \"info\""@;
    out.append("\n");
    out.append("add_vote \"────────────────\" \"info\"");
    proof {
        assert(out@ =~= first_part);
    }
    if n > 6 {
        let mut rest: Vec<MapRecord> = Vec::new();
        let mut j: usize = 6;
        proof {
            assert(record_views(rest@) =~= all.subrange(6, 6));
        }
        while j < n
            invariant
                6 <= j <= n == maps.len(),
                all == record_views(maps@),
                record_views(rest@) == all.subrange(6, j as int),
            decreases n - j,
        {
            let ghost prev = record_views(rest@);
            let c = maps[j].clone();
            let ghost cv = c@;
            rest.push(c);
            proof {
                assert(record_views(rest@) =~= prev.push(cv));
                assert(cv == all[j as int]);
                assert(prev.push(cv) =~= all.subrange(6, j + 1));
            }
            j += 1;
        }
        proof {
            assert(all.subrange(6, n as int) =~= all.skip(6));
        }
        let sorted = sort_records_by_name(&rest);
        let ghost tail = sort_by_name(all.skip(6));
        let mut k: usize = 0;
        proof {
            assert(tail.take(0) =~= Seq::<MapView>::empty());
            assert(out@ =~= first_part + spec_published_block(pub_dir@, tail.take(0)));
        }
        while k < sorted.len()
            invariant
                k <= sorted.len(),
                record_views(sorted@) == tail,
                first_part == "add_vote \"─── NEW MAPS ───\" \"info\""@ + spec_published_block(
                    pub_dir@,
                    spec_published_head(all),
                ) + "\n"@ + "add_vote \"────────────────\" \"info\""@,
                out@ == first_part + spec_published_block(pub_dir@, tail.take(k as int)),
            decreases sorted.len() - k,
        {
            let line = published_vote_line(pub_dir, &sorted[k]);
            out.append("\n");
            out.append(line.as_str());
            proof {
                assert(tail.take(k + 1) =~= tail.take(k as int).push(tail[k as int]));
                lemma_published_block_push(pub_dir@, tail.take(k as int), tail[k as int]);
                assert(out@ =~= first_part + spec_published_block(pub_dir@, tail.take(k + 1)));
            }
            k += 1;
        }
        proof {
            assert(tail.take(sorted@.len() as int) =~= tail);
            assert(out@ =~= spec_published_body(pub_dir@, all));
        }
    } else {
        proof {
            assert(spec_published_rest(all) =~= Seq::<MapView>::empty());
            assert(out@ =~= spec_published_body(pub_dir@, all));
        }
    }
    out
}

/// The whole published-pool artifact for one difficulty, from the full
/// population.
pub open spec fn spec_published_artifact(
    pub_dir: Seq<char>,
    maps: Seq<MapView>,
    d: Difficulty,
) -> Seq<char> {
    spec_published_body(pub_dir, sort_by_created(published_of(maps, d)))
}

} // verus!
