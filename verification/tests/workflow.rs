use mapmaster::model::{Action, Difficulty, MapError, MapState};
use mapmaster::orchestrate::{handle_action, handle_submission, Config};
use mapmaster::store::MapStore;

fn cfg() -> Config {
    Config { test_dir: "test".to_string(), published_dir: "published".to_string() }
}

#[test]
fn create_or_update_is_idempotent() {
    let mut store = MapStore::new();
    assert!(store.create_or_update("foo", Difficulty::Main, 10).is_ok());
    assert!(store.create_or_update("foo", Difficulty::Main, 20).is_ok());
    let recs = store.records();
    assert_eq!(recs.len(), 1);
    assert_eq!(recs[0].name.as_str(), "foo");
    assert_eq!(recs[0].created_at, 10);
    assert_eq!(recs[0].last_changed, 20);
    assert!(recs[0].state == MapState::New);
}

#[test]
fn resubmission_never_regresses_state() {
    let mut store = MapStore::new();
    let c = cfg();
    assert!(store.create_or_update("foo", Difficulty::Main, 10).is_ok());
    assert!(handle_action(&mut store, &c, "foo", Action::Approve, 11).is_ok());
    assert!(store.create_or_update("foo", Difficulty::Hard, 12).is_ok());
    let m = store.find("foo").unwrap();
    assert!(m.state == MapState::Approved);
    assert!(m.difficulty == Difficulty::Hard);
    assert_eq!(m.created_at, 10);
    assert_eq!(m.last_changed, 12);
}

#[test]
fn submit_approve_publish_recall_scenario() {
    let mut store = MapStore::new();
    let c = cfg();

    let sub = handle_submission(&mut store, &c, "Foo", Difficulty::Main, 1).unwrap();
    assert_eq!(sub.binary_path.as_str(), "test/foo.map");
    let test_votes = &sub.files[0];
    assert_eq!(test_votes.path.as_str(), "test/votes.cfg");
    let new_line = "add_vote \"\u{1f195} [Main]    foo\" \"change_map \\\"foo\\\"\"";
    assert_eq!(test_votes.content.as_str(), format!("clear_votes\n{}", new_line).as_str());

    let approved = handle_action(&mut store, &c, "foo", Action::Approve, 2).unwrap();
    assert!(approved.relocation.is_none());
    assert!(approved.map.state == MapState::Approved);
    let approved_line = "add_vote \"\u{2611} [Main]    foo\" \"change_map \\\"foo\\\"\"";
    assert_eq!(
        approved.files[0].content.as_str(),
        format!("clear_votes\n{}", approved_line).as_str()
    );

    let published = handle_action(&mut store, &c, "foo", Action::Publish, 3).unwrap();
    assert!(published.map.state == MapState::Published);
    let reloc = published.relocation.as_ref().unwrap();
    assert_eq!(reloc.from.as_str(), "test/foo.map");
    assert_eq!(reloc.to.as_str(), "published/main/foo.map");
    assert_eq!(published.files[0].content.as_str(), "clear_votes\n");
    let main_votes = &published.files[2];
    assert_eq!(main_votes.path.as_str(), "published/main/votes.cfg");
    let pub_line = "add_vote \"foo\" \"sv_reset_file \"published/main/flexreset.cfg\"; \
change_map \\\"main/foo\\\"\"";
    assert_eq!(
        main_votes.content.as_str(),
        format!(
            "add_vote \"─── NEW MAPS ───\" \"info\"\n{}\nadd_vote \"────────────────\" \"info\"",
            pub_line
        )
        .as_str()
    );

    let recalled = handle_action(&mut store, &c, "foo", Action::Recall, 4).unwrap();
    assert!(recalled.map.state == MapState::New);
    let back = recalled.relocation.as_ref().unwrap();
    assert_eq!(back.from.as_str(), "published/main/foo.map");
    assert_eq!(back.to.as_str(), "test/foo.map");
    assert_eq!(
        recalled.files[0].content.as_str(),
        format!("clear_votes\n{}", new_line).as_str()
    );
    assert_eq!(
        recalled.files[2].content.as_str(),
        "add_vote \"─── NEW MAPS ───\" \"info\"\nadd_vote \"────────────────\" \"info\""
    );
}

#[test]
fn publish_new_map_is_illegal() {
    let mut store = MapStore::new();
    let c = cfg();
    handle_submission(&mut store, &c, "foo", Difficulty::Easy, 1).unwrap();
    let err = handle_action(&mut store, &c, "foo", Action::Publish, 2).unwrap_err();
    assert!(err == MapError::IllegalTransition);
    assert!(store.find("foo").unwrap().state == MapState::New);
}

#[test]
fn approve_approved_map_is_already_in_state() {
    let mut store = MapStore::new();
    let c = cfg();
    handle_submission(&mut store, &c, "foo", Difficulty::Easy, 1).unwrap();
    handle_action(&mut store, &c, "foo", Action::Approve, 2).unwrap();
    let err = handle_action(&mut store, &c, "foo", Action::Approve, 3).unwrap_err();
    assert!(err == MapError::AlreadyInState);
}

#[test]
fn decline_transitions() {
    let mut store = MapStore::new();
    let c = cfg();
    handle_submission(&mut store, &c, "foo", Difficulty::Easy, 1).unwrap();
    let declined = handle_action(&mut store, &c, "foo", Action::Decline, 2).unwrap();
    assert!(declined.map.state == MapState::Declined);
    assert!(declined.relocation.is_none());
    let err = handle_action(&mut store, &c, "foo", Action::Decline, 3).unwrap_err();
    assert!(err == MapError::AlreadyInState);
    let back = handle_action(&mut store, &c, "foo", Action::Approve, 4).unwrap();
    assert!(back.map.state == MapState::Approved);
    handle_action(&mut store, &c, "foo", Action::Publish, 5).unwrap();
    let err2 = handle_action(&mut store, &c, "foo", Action::Decline, 6).unwrap_err();
    assert!(err2 == MapError::IllegalTransition);
    let err3 = handle_action(&mut store, &c, "foo", Action::Publish, 7).unwrap_err();
    assert!(err3 == MapError::AlreadyInState);
    let err4 = handle_action(&mut store, &c, "foo", Action::Approve, 8).unwrap_err();
    assert!(err4 == MapError::IllegalTransition);
}

#[test]
fn recall_declined_map_moves_nothing() {
    let mut store = MapStore::new();
    let c = cfg();
    handle_submission(&mut store, &c, "foo", Difficulty::Easy, 1).unwrap();
    handle_action(&mut store, &c, "foo", Action::Decline, 2).unwrap();
    let recalled = handle_action(&mut store, &c, "foo", Action::Recall, 3).unwrap();
    assert!(recalled.map.state == MapState::New);
    assert!(recalled.relocation.is_none());
}

#[test]
fn change_difficulty_keeps_state_and_moves_nothing() {
    let mut store = MapStore::new();
    let c = cfg();
    handle_submission(&mut store, &c, "foo", Difficulty::Easy, 1).unwrap();
    handle_action(&mut store, &c, "foo", Action::Approve, 2).unwrap();
    handle_action(&mut store, &c, "foo", Action::Publish, 3).unwrap();
    let changed = handle_action(
        &mut store,
        &c,
        "foo",
        Action::ChangeDifficulty(Difficulty::Hard),
        4,
    )
    .unwrap();
    assert!(changed.map.state == MapState::Published);
    assert!(changed.map.difficulty == Difficulty::Hard);
    assert_eq!(changed.map.last_changed, 4);
    // the already placed binary is deliberately not relocated
    assert!(changed.relocation.is_none());
}

#[test]
fn unknown_map_is_not_found() {
    let mut store = MapStore::new();
    let c = cfg();
    assert!(store.find("ghost").is_none());
    let err = handle_action(&mut store, &c, "ghost", Action::Approve, 1).unwrap_err();
    assert!(err == MapError::NotFound);
}

#[test]
fn created_at_getter_reads_the_record() {
    let mut store = MapStore::new();
    store.create_or_update("foo", Difficulty::Easy, 42).unwrap();
    let m = store.find("foo").unwrap();
    assert_eq!(m.created_at(), 42);
}

#[test]
fn clock_running_backwards_is_reported() {
    let mut store = MapStore::new();
    let c = cfg();
    handle_submission(&mut store, &c, "foo", Difficulty::Easy, 10).unwrap();
    let err = store.create_or_update("foo", Difficulty::Easy, 5).unwrap_err();
    assert!(err == MapError::ClockFailure);
    let err2 = handle_action(&mut store, &c, "foo", Action::Approve, 5).unwrap_err();
    assert!(err2 == MapError::ClockFailure);
    assert_eq!(store.find("foo").unwrap().last_changed, 10);
}

#[test]
fn names_are_normalized_to_lowercase() {
    let mut store = MapStore::new();
    let c = cfg();
    handle_submission(&mut store, &c, "FooBar", Difficulty::Main, 1).unwrap();
    let m = store.find("FOOBAR").unwrap();
    assert_eq!(m.name.as_str(), "foobar");
    let files = mapmaster::orchestrate::generate_vote_files(&c, &store);
    assert!(files[0].content.as_str().contains("foobar"));
    assert!(!files[0].content.as_str().contains("FooBar"));
}

#[test]
fn submission_strips_map_extension() {
    let mut store = MapStore::new();
    let c = cfg();
    let sub = handle_submission(&mut store, &c, "Bar.MAP", Difficulty::Easy, 1).unwrap();
    assert_eq!(sub.binary_path.as_str(), "test/bar.map");
    assert_eq!(store.find("bar").unwrap().name.as_str(), "bar");
    assert_eq!(store.records().len(), 1);
}

#[test]
fn list_applies_optional_filters() {
    let mut store = MapStore::new();
    let c = cfg();
    handle_submission(&mut store, &c, "a", Difficulty::Easy, 1).unwrap();
    handle_submission(&mut store, &c, "b", Difficulty::Main, 2).unwrap();
    handle_submission(&mut store, &c, "c", Difficulty::Main, 3).unwrap();
    handle_action(&mut store, &c, "b", Action::Approve, 4).unwrap();
    let all = store.list(None, None, None);
    assert_eq!(all.len(), 3);
    let news = store.list(None, Some(MapState::New), None);
    assert_eq!(news.len(), 2);
    let mains = store.list(None, None, Some(Difficulty::Main));
    assert_eq!(mains.len(), 2);
    let named = store.list(Some("c"), None, None);
    assert_eq!(named.len(), 1);
    assert_eq!(named[0].name.as_str(), "c");
    let approved_mains = store.list(None, Some(MapState::Approved), Some(Difficulty::Main));
    assert_eq!(approved_mains.len(), 1);
    assert_eq!(approved_mains[0].name.as_str(), "b");
}
