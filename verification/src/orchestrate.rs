//! The orchestrator: sequences one request as "mutate record, relocate
//! binary, regenerate every artifact". The record mutation happens here, in
//! the in-memory population; the filesystem work is handed back as plain
//! paths and file contents for the surrounding program to carry out, in that
//! order, so that the inconsistency window between the two stores stays
//! bounded and observable.

use vstd::prelude::*;
use vstd::string::StrSliceExecFns;
use vstd::string::StringExecFns;

use crate::engine::{spec_apply, Relocation};
use crate::model::{record_views, Action, Difficulty, MapError, MapRecord, MapView};
use crate::store::{
    has_name, index_of, lower_of, lowercase, spec_create_or_update, MapStore,
};
use crate::votes::{
    generate_published_votes, generate_test_votes, published_records, sort_records_by_created,
    spec_published_artifact, spec_test_artifact, test_pool_records,
};

verus! {

/// Resolved directory paths: the test pool and the published-pool root.
/// Injected once at startup, immutable afterwards.
pub struct Config {
    pub test_dir: String,
    pub published_dir: String,
}

pub struct ConfigView {
    pub test_dir: Seq<char>,
    pub published_dir: Seq<char>,
}

impl View for Config {
    type V = ConfigView;

    open spec fn view(&self) -> ConfigView {
        ConfigView { test_dir: self.test_dir@, published_dir: self.published_dir@ }
    }
}

// ---------------------------------------------------------------------------
// The persisted path layout
// ---------------------------------------------------------------------------
/// Where a pending or test binary lives.
pub open spec fn spec_test_binary_path(cfg: ConfigView, name: Seq<char>) -> Seq<char> {
    cfg.test_dir + "/"@ + name + ".map"@
}

/// The published-pool subdirectory of one difficulty.
pub open spec fn spec_published_subdir(cfg: ConfigView, d: Difficulty) -> Seq<char> {
    cfg.published_dir + "/"@ + d.spec_segment()
}

/// Where a published binary lives.
pub open spec fn spec_published_binary_path(
    cfg: ConfigView,
    d: Difficulty,
    name: Seq<char>,
) -> Seq<char> {
    spec_published_subdir(cfg, d) + "/"@ + name + ".map"@
}

/// Where the test-pool vote list is written.
pub open spec fn spec_test_votes_path(cfg: ConfigView) -> Seq<char> {
    cfg.test_dir + "/votes.cfg"@
}

/// Where the published-pool vote list of one difficulty is written.
pub open spec fn spec_published_votes_path(cfg: ConfigView, d: Difficulty) -> Seq<char> {
    spec_published_subdir(cfg, d) + "/votes.cfg"@
}

pub fn test_binary_path(cfg: &Config, name: &str) -> (r: String)
    ensures
        r@ == spec_test_binary_path(cfg@, name@),
{
    let mut out = String::new();
    out.append(cfg.test_dir.as_str());
    out.append("/");
    out.append(name);
    out.append(".map");
    proof {
        assert(out@ =~= spec_test_binary_path(cfg@, name@));
    }
    out
}

pub fn published_binary_path(cfg: &Config, d: Difficulty, name: &str) -> (r: String)
    ensures
        r@ == spec_published_binary_path(cfg@, d, name@),
{
    let mut out = String::new();
    out.append(cfg.published_dir.as_str());
    out.append("/");
    out.append(d.segment());
    out.append("/");
    out.append(name);
    out.append(".map");
    proof {
        assert(out@ =~= spec_published_binary_path(cfg@, d, name@));
    }
    out
}

pub fn test_votes_path(cfg: &Config) -> (r: String)
    ensures
        r@ == spec_test_votes_path(cfg@),
{
    let mut out = String::new();
    out.append(cfg.test_dir.as_str());
    out.append("/votes.cfg");
    proof {
        assert(out@ =~= spec_test_votes_path(cfg@));
    }
    out
}

pub fn published_votes_path(cfg: &Config, d: Difficulty) -> (r: String)
    ensures
        r@ == spec_published_votes_path(cfg@, d),
{
    let mut out = String::new();
    out.append(cfg.published_dir.as_str());
    out.append("/");
    out.append(d.segment());
    out.append("/votes.cfg");
    proof {
        assert(out@ =~= spec_published_votes_path(cfg@, d));
    }
    out
}

// ---------------------------------------------------------------------------
// Submission names
// ---------------------------------------------------------------------------
/// A submitted name that already carries the ".map" binary extension loses
/// it; the on-disk binary name adds it back.
pub open spec fn spec_strip_map_suffix(s: Seq<char>) -> Seq<char> {
    if s.len() >= 4 && s.subrange(s.len() - 4, s.len() as int) == ".map"@ {
        s.take(s.len() - 4)
    } else {
        s
    }
}

pub fn strip_map_suffix(name: &str) -> (r: String)
    ensures
        r@ == spec_strip_map_suffix(name@),
{
    let n = name.unicode_len();
    if n >= 4 {
        let c0 = name.get_char(n - 4);
        let c1 = name.get_char(n - 3);
        let c2 = name.get_char(n - 2);
        let c3 = name.get_char(n - 1);
        proof {
            reveal_strlit(".map");
        }
        if c0 == '.' && c1 == 'm' && c2 == 'a' && c3 == 'p' {
            let kept = name.substring_char(0, n - 4);
            let r = kept.to_owned();
            proof {
                assert(name@.subrange(n - 4, n as int) =~= ".map"@);
                assert(r@ =~= spec_strip_map_suffix(name@));
            }
            r
        } else {
            proof {
                if name@.subrange(n - 4, n as int) == ".map"@ {
                    assert(name@.subrange(n - 4, n as int)[0] == name@[n - 4]);
                    assert(name@.subrange(n - 4, n as int)[1] == name@[n - 3]);
                    assert(name@.subrange(n - 4, n as int)[2] == name@[n - 2]);
                    assert(name@.subrange(n - 4, n as int)[3] == name@[n - 1]);
                    assert(false);
                }
            }
            name.to_owned()
        }
    } else {
        name.to_owned()
    }
}

// ---------------------------------------------------------------------------
// Artifact regeneration
// ---------------------------------------------------------------------------
/// One generated vote-list file: where it goes and what it holds.
#[derive(Debug)]
pub struct VoteFile {
    pub path: String,
    pub content: String,
}

pub struct VoteFileView {
    pub path: Seq<char>,
    pub content: Seq<char>,
}

impl View for VoteFile {
    type V = VoteFileView;

    open spec fn view(&self) -> VoteFileView {
        VoteFileView { path: self.path@, content: self.content@ }
    }
}

pub open spec fn file_views(s: Seq<VoteFile>) -> Seq<VoteFileView> {
    s.map_values(|f: VoteFile| f@)
}

/// The five artifacts a regeneration writes: the test-pool list and one
/// published-pool list per difficulty, each a whole-file replacement derived
/// from the population alone.
pub open spec fn spec_vote_files(cfg: ConfigView, maps: Seq<MapView>) -> Seq<VoteFileView> {
    seq![
        VoteFileView { path: spec_test_votes_path(cfg), content: spec_test_artifact(maps) },
        VoteFileView {
            path: spec_published_votes_path(cfg, Difficulty::Easy),
            content: spec_published_artifact(cfg.published_dir, maps, Difficulty::Easy),
        },
        VoteFileView {
            path: spec_published_votes_path(cfg, Difficulty::Main),
            content: spec_published_artifact(cfg.published_dir, maps, Difficulty::Main),
        },
        VoteFileView {
            path: spec_published_votes_path(cfg, Difficulty::Hard),
            content: spec_published_artifact(cfg.published_dir, maps, Difficulty::Hard),
        },
        VoteFileView {
            path: spec_published_votes_path(cfg, Difficulty::Insane),
            content: spec_published_artifact(cfg.published_dir, maps, Difficulty::Insane),
        },
    ]
}

fn published_vote_file(cfg: &Config, recs: &Vec<MapRecord>, d: Difficulty) -> (r: VoteFile)
    ensures
        r@.path == spec_published_votes_path(cfg@, d),
        r@.content == spec_published_artifact(cfg@.published_dir, record_views(recs@), d),
{
    let sel = published_records(recs, d);
    let sorted = sort_records_by_created(&sel);
    let content = generate_published_votes(cfg.published_dir.as_str(), &sorted);
    VoteFile { path: published_votes_path(cfg, d), content }
}

/// Derives all five vote-list files from the current population.
pub fn generate_vote_files(cfg: &Config, store: &MapStore) -> (r: Vec<VoteFile>)
    ensures
        file_views(r@) == spec_vote_files(cfg@, store@),
{
    let recs = store.records();
    let test_sel = test_pool_records(recs);
    let test_sorted = sort_records_by_created(&test_sel);
    let test_content = generate_test_votes(&test_sorted);
    let mut out: Vec<VoteFile> = Vec::new();
    out.push(VoteFile { path: test_votes_path(cfg), content: test_content });
    out.push(published_vote_file(cfg, recs, Difficulty::Easy));
    out.push(published_vote_file(cfg, recs, Difficulty::Main));
    out.push(published_vote_file(cfg, recs, Difficulty::Hard));
    out.push(published_vote_file(cfg, recs, Difficulty::Insane));
    proof {
        assert(file_views(out@) =~= spec_vote_files(cfg@, store@));
    }
    out
}

// ---------------------------------------------------------------------------
// Requests
// ---------------------------------------------------------------------------
/// A demanded binary relocation, as concrete paths.
#[derive(Debug)]
pub struct Relocated {
    pub from: String,
    pub to: String,
}

/// The paths a relocation stands for: into the published pool on publish,
/// back into the test pool on recall.
pub open spec fn spec_relocation_paths(cfg: ConfigView, m: MapView, r: Relocation) -> (
    Seq<char>,
    Seq<char>,
) {
    match r {
        Relocation::ToPublished => (
            spec_test_binary_path(cfg, m.name),
            spec_published_binary_path(cfg, m.difficulty, m.name),
        ),
        Relocation::ToTest => (
            spec_published_binary_path(cfg, m.difficulty, m.name),
            spec_test_binary_path(cfg, m.name),
        ),
    }
}

/// Everything a fulfilled action hands back: the mutated record, the binary
/// relocation to carry out (if the transition demands one), and the five
/// regenerated artifacts, in the order they should be performed.
#[derive(Debug)]
pub struct Outcome {
    pub map: MapRecord,
    pub relocation: Option<Relocated>,
    pub files: Vec<VoteFile>,
}

/// Fulfils one action request: validates and applies the transition, then
/// derives the relocation paths and regenerates every artifact from the
/// mutated population. Failures mutate nothing.
pub fn handle_action(
    store: &mut MapStore,
    cfg: &Config,
    name: &str,
    action: Action,
    now: u64,
) -> (r: Result<Outcome, MapError>)
    requires
        old(store).wf(),
    ensures
        final(store).wf(),
        match r {
            Ok(o) => {
                &&& spec_apply(old(store)@, lower_of(name@), action, now) matches Ok(t)
                &&& final(store)@ == t.0
                &&& o.map@ == t.1
                &&& match (t.2, o.relocation) {
                    (None, None) => true,
                    (Some(rl), Some(paths)) => (paths.from@, paths.to@) == spec_relocation_paths(
                        cfg@,
                        t.1,
                        rl,
                    ),
                    _ => false,
                }
                &&& file_views(o.files@) == spec_vote_files(cfg@, t.0)
            },
            Err(e) => {
                &&& final(store)@ == old(store)@
                &&& spec_apply(old(store)@, lower_of(name@), action, now) == Err::<
                    (Seq<MapView>, MapView, Option<Relocation>),
                    MapError,
                >(e)
            },
        },
{
    let eff = match store.apply_action(name, action, now) {
        Ok(eff) => eff,
        Err(e) => {
            return Err(e);
        },
    };
    let relocation = match eff.relocation {
        None => None,
        Some(Relocation::ToPublished) => Some(
            Relocated {
                from: test_binary_path(cfg, eff.map.name.as_str()),
                to: published_binary_path(cfg, eff.map.difficulty, eff.map.name.as_str()),
            },
        ),
        Some(Relocation::ToTest) => Some(
            Relocated {
                from: published_binary_path(cfg, eff.map.difficulty, eff.map.name.as_str()),
                to: test_binary_path(cfg, eff.map.name.as_str()),
            },
        ),
    };
    let files = generate_vote_files(cfg, store);
    Ok(Outcome { map: eff.map, relocation, files })
}

/// Everything a fulfilled submission hands back: where the uploaded binary
/// belongs in the test pool, and the regenerated artifacts.
#[derive(Debug)]
pub struct Submission {
    pub binary_path: String,
    pub files: Vec<VoteFile>,
}

/// The key a submission is stored under: the submitted name lowercased, a
/// trailing ".map" dropped, and the result normalized again when keyed
/// (mirroring the double normalization of the ingestion path).
pub open spec fn spec_submission_key(raw: Seq<char>) -> Seq<char> {
    lower_of(spec_strip_map_suffix(lower_of(raw)))
}

/// Fulfils one submission request: create-or-update on the normalized name,
/// then regenerate every artifact. The caller writes the uploaded binary to
/// `binary_path` before applying the artifact files.
pub fn handle_submission(
    store: &mut MapStore,
    cfg: &Config,
    raw_name: &str,
    difficulty: Difficulty,
    now: u64,
) -> (r: Result<Submission, MapError>)
    requires
        old(store).wf(),
    ensures
        final(store).wf(),
        match r {
            Ok(sub) => {
                &&& (has_name(old(store)@, spec_submission_key(raw_name@)) ==> now >= old(
                    store,
                )@[index_of(old(store)@, spec_submission_key(raw_name@))].created_at)
                &&& final(store)@ == spec_create_or_update(
                    old(store)@,
                    spec_submission_key(raw_name@),
                    difficulty,
                    now,
                )
                &&& sub.binary_path@ == spec_test_binary_path(
                    cfg@,
                    spec_strip_map_suffix(lower_of(raw_name@)),
                )
                &&& file_views(sub.files@) == spec_vote_files(cfg@, final(store)@)
            },
            Err(e) => {
                &&& e == MapError::ClockFailure
                &&& final(store)@ == old(store)@
                &&& has_name(old(store)@, spec_submission_key(raw_name@))
                &&& now < old(store)@[index_of(
                    old(store)@,
                    spec_submission_key(raw_name@),
                )].created_at
            },
        },
{
    let lowered = lowercase(raw_name);
    let stripped = strip_map_suffix(lowered.as_str());
    let binary_path = test_binary_path(cfg, stripped.as_str());
    match store.create_or_update(stripped.as_str(), difficulty, now) {
        Ok(()) => {
            let files = generate_vote_files(cfg, store);
            Ok(Submission { binary_path, files })
        },
        Err(e) => Err(e),
    }
}

} // verus!
