use mapmaster::model::{Action, Difficulty, MapError, MapRecord, MapState};
use mapmaster::orchestrate::{
    generate_vote_files, handle_action, handle_submission, published_binary_path,
    published_votes_path, strip_map_suffix, test_binary_path, test_votes_path, Config,
};
use mapmaster::store::MapStore;
use mapmaster::votes::{str_lt, test_vote_line};

fn cfg() -> Config {
    Config { test_dir: "test".to_string(), published_dir: "published".to_string() }
}

const HEADER: &str = "add_vote \"─── NEW MAPS ───\" \"info\"";
const SEPARATOR: &str = "add_vote \"────────────────\" \"info\"";

fn pub_line(name: &str, segment: &str) -> String {
    format!(
        "add_vote \"{}\" \"sv_reset_file \"published/{}/flexreset.cfg\"; change_map \\\"{}/{}\\\"\"",
        name, segment, segment, name
    )
}

#[test]
fn empty_store_artifacts() {
    let store = MapStore::new();
    let files = generate_vote_files(&cfg(), &store);
    assert_eq!(files.len(), 5);
    assert_eq!(files[0].path.as_str(), "test/votes.cfg");
    assert_eq!(files[0].content.as_str(), "clear_votes\n");
    assert_eq!(files[1].path.as_str(), "published/easy/votes.cfg");
    assert_eq!(files[2].path.as_str(), "published/main/votes.cfg");
    assert_eq!(files[3].path.as_str(), "published/hard/votes.cfg");
    assert_eq!(files[4].path.as_str(), "published/insane/votes.cfg");
    for i in 1..5 {
        assert_eq!(files[i].content.as_str(), format!("{}\n{}", HEADER, SEPARATOR).as_str());
    }
}

#[test]
fn test_pool_sorted_by_creation_and_hides_published() {
    let mut store = MapStore::new();
    let c = cfg();
    handle_submission(&mut store, &c, "cherry", Difficulty::Easy, 5).unwrap();
    handle_submission(&mut store, &c, "apple", Difficulty::Main, 9).unwrap();
    handle_submission(&mut store, &c, "banana", Difficulty::Hard, 1).unwrap();
    handle_submission(&mut store, &c, "date", Difficulty::Main, 3).unwrap();
    handle_action(&mut store, &c, "date", Action::Approve, 10).unwrap();
    handle_action(&mut store, &c, "date", Action::Publish, 11).unwrap();
    let files = generate_vote_files(&c, &store);
    let expected = format!(
        "clear_votes\n\
add_vote \"\u{1f195} [Hard]    banana\" \"change_map \\\"banana\\\"\"\n\
add_vote \"\u{1f195} [Easy]    cherry\" \"change_map \\\"cherry\\\"\"\n\
add_vote \"\u{1f195} [Main]    apple\" \"change_map \\\"apple\\\"\""
    );
    assert_eq!(files[0].content.as_str(), expected.as_str());
    assert!(!files[0].content.as_str().contains("date"));
}

#[test]
fn published_artifact_splits_after_six() {
    let mut store = MapStore::new();
    let c = cfg();
    let names = ["m1", "m2", "m3", "m4", "m5", "m6", "zeta", "alpha"];
    let mut now: u64 = 0;
    for name in names.iter() {
        now += 10;
        handle_submission(&mut store, &c, name, Difficulty::Main, now).unwrap();
        handle_action(&mut store, &c, name, Action::Approve, now + 1).unwrap();
        handle_action(&mut store, &c, name, Action::Publish, now + 2).unwrap();
    }
    let files = generate_vote_files(&c, &store);
    let expected = format!(
        "{}\n{}\n{}\n{}\n{}\n{}\n{}\n{}\n{}\n{}",
        HEADER,
        pub_line("m1", "main"),
        pub_line("m2", "main"),
        pub_line("m3", "main"),
        pub_line("m4", "main"),
        pub_line("m5", "main"),
        pub_line("m6", "main"),
        SEPARATOR,
        pub_line("alpha", "main"),
        pub_line("zeta", "main"),
    );
    assert_eq!(files[2].content.as_str(), expected.as_str());
    assert_eq!(files[0].content.as_str(), "clear_votes\n");
    assert_eq!(files[1].content.as_str(), format!("{}\n{}", HEADER, SEPARATOR).as_str());
}

#[test]
fn regeneration_is_deterministic() {
    let mut store = MapStore::new();
    let c = cfg();
    handle_submission(&mut store, &c, "foo", Difficulty::Insane, 1).unwrap();
    handle_submission(&mut store, &c, "bar", Difficulty::Main, 2).unwrap();
    handle_action(&mut store, &c, "bar", Action::Approve, 3).unwrap();
    handle_action(&mut store, &c, "bar", Action::Publish, 4).unwrap();
    let first = generate_vote_files(&c, &store);
    let second = generate_vote_files(&c, &store);
    assert_eq!(first.len(), second.len());
    for i in 0..first.len() {
        assert_eq!(first[i].path.as_str(), second[i].path.as_str());
        assert_eq!(first[i].content.as_str(), second[i].content.as_str());
    }
}

#[test]
fn test_vote_line_insane_uses_narrow_pad() {
    let m = MapRecord {
        name: "x".to_string(),
        difficulty: Difficulty::Insane,
        state: MapState::New,
        created_at: 0,
        last_changed: 0,
    };
    assert_eq!(
        test_vote_line(&m).as_str(),
        "add_vote \"\u{1f195} [Insane] x\" \"change_map \\\"x\\\"\""
    );
}

#[test]
fn glyphs_match_states() {
    assert_eq!(MapState::New.glyph(), "\u{1f195}");
    assert_eq!(MapState::Approved.glyph(), "\u{2611}");
    assert_eq!(MapState::Declined.glyph(), "\u{2612}");
}

#[test]
fn difficulty_segments_and_labels() {
    assert_eq!(Difficulty::Easy.segment(), "easy");
    assert_eq!(Difficulty::Main.segment(), "main");
    assert_eq!(Difficulty::Hard.segment(), "hard");
    assert_eq!(Difficulty::Insane.segment(), "insane");
    assert_eq!(Difficulty::Easy.label(), "[Easy]   ");
    assert_eq!(Difficulty::Main.label(), "[Main]   ");
    assert_eq!(Difficulty::Hard.label(), "[Hard]   ");
    assert_eq!(Difficulty::Insane.label(), "[Insane]");
}

#[test]
fn difficulty_parsing() {
    assert!(Difficulty::parse("easy") == Some(Difficulty::Easy));
    assert!(Difficulty::parse("main") == Some(Difficulty::Main));
    assert!(Difficulty::parse("hard") == Some(Difficulty::Hard));
    assert!(Difficulty::parse("insane") == Some(Difficulty::Insane));
    assert!(Difficulty::parse("Easy") == None);
    assert!(Difficulty::parse("") == None);
}

#[test]
fn error_messages_name_the_failure() {
    assert_eq!(MapError::NotFound.message(), "Map not found!");
    assert_eq!(
        MapError::IllegalTransition.message(),
        "Cannot change the map to the requested state!"
    );
    assert_eq!(MapError::AlreadyInState.message(), "The map is already in the requested state!");
    assert_eq!(MapError::StorageFailure.message(), "Something went wrong with the record store!");
    assert_eq!(MapError::FilesystemFailure.message(), "Something went wrong on the filesystem!");
    assert_eq!(MapError::ClockFailure.message(), "The system clock went backwards!");
}

#[test]
fn name_order_is_lexicographic() {
    assert!(str_lt("alpha", "beta"));
    assert!(!str_lt("beta", "alpha"));
    assert!(str_lt("a", "ab"));
    assert!(!str_lt("ab", "a"));
    assert!(!str_lt("same", "same"));
}

#[test]
fn strip_map_suffix_cases() {
    assert_eq!(strip_map_suffix("foo.map").as_str(), "foo");
    assert_eq!(strip_map_suffix("foo").as_str(), "foo");
    assert_eq!(strip_map_suffix("foo.mapx").as_str(), "foo.mapx");
    assert_eq!(strip_map_suffix(".map").as_str(), "");
    assert_eq!(strip_map_suffix("ma").as_str(), "ma");
    assert_eq!(strip_map_suffix("a.map.map").as_str(), "a.map");
}

#[test]
fn path_layout_is_fixed() {
    let c = cfg();
    assert_eq!(test_binary_path(&c, "foo").as_str(), "test/foo.map");
    assert_eq!(
        published_binary_path(&c, Difficulty::Insane, "foo").as_str(),
        "published/insane/foo.map"
    );
    assert_eq!(test_votes_path(&c).as_str(), "test/votes.cfg");
    assert_eq!(published_votes_path(&c, Difficulty::Hard).as_str(), "published/hard/votes.cfg");
}
