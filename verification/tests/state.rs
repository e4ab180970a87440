use sitegen::checksum::Checksum;
use sitegen::file_state::EntryStat;
use sitegen::file_state::FileState;
use sitegen::file_state::Observation;
use sitegen::file_state::Timestamp;
use sitegen::state::CommitError;
use sitegen::state::FileRecord;
use sitegen::state::Generation;
use sitegen::state::ResourceKind;
use sitegen::state::StateManager;
use sitegen::state::StateRecord;

fn sum(content: &str) -> Checksum {
    Checksum::from_data(content.as_bytes())
}

fn at(secs: i64) -> Timestamp {
    Timestamp { secs, nanos: 0 }
}

fn seen_file(secs: i64, size: u64, content: Option<&str>) -> Observation {
    Observation {
        stat: EntryStat::File { modified: at(secs), size },
        checksum: content.map(sum),
    }
}

fn seen_dir() -> Observation {
    Observation { stat: EntryStat::Directory, checksum: None }
}

fn sorted(mut v: Vec<String>) -> Vec<String> {
    v.sort();
    v
}

/// Runs one build over `pages` and commits it as if the write succeeded.
fn run(state: &mut StateManager, pages: &[(&str, &str)]) {
    for (slug, content) in pages {
        state.set_content_checksum(slug.to_string(), sum(content));
    }
    let wrote = state.needs_write();
    state.commit_if_changed(wrote).unwrap();
}

#[test]
fn default_state_knows_nothing() {
    let mut state = StateManager::default();
    assert_eq!(state.current().content().len(), 0);
    assert_eq!(state.next().content().len(), 0);
    assert!(state.current().index().is_none());
    assert!(!state.bulk_changed());
    assert!(!state.needs_write());
    state.set_content_checksum("alpha".to_string(), sum("first text"));
    assert!(state.should_rebuild_page("alpha"));
}

#[test]
fn absent_state_file_rebuilds_every_page() {
    let mut state = StateManager::load(None);
    for slug in ["alpha", "beta"] {
        state.set_content_checksum(slug.to_string(), sum(slug));
        assert!(state.should_rebuild_page(slug));
    }
    assert!(state.needs_write());
}

#[test]
fn removed_page_is_deleted_and_kept_page_is_not_rebuilt() {
    let mut state = StateManager::load(None);
    run(&mut state, &[("alpha", "first text"), ("beta", "second text")]);
    assert_eq!(state.current().content().len(), 2);
    assert_eq!(state.next().content().len(), 0);

    state.set_content_checksum("alpha".to_string(), sum("first text"));
    assert!(!state.should_rebuild_page("alpha"));
    assert_eq!(state.resources_to_delete(ResourceKind::Content), vec!["beta".to_string()]);
    assert_eq!(state.get_stale_slugs(), vec!["beta".to_string()]);
}

#[test]
fn second_run_without_changes_is_idle() {
    let pages = [("alpha", "first text"), ("beta", "second text"), ("gamma", "third text")];
    let mut state = StateManager::new();
    run(&mut state, &pages);

    for (slug, content) in pages {
        state.set_content_checksum(slug.to_string(), sum(content));
        assert!(!state.should_rebuild_page(slug));
    }
    assert!(!state.should_rebuild_index());
    assert!(!state.needs_write());
    assert_eq!(state.commit_if_changed(false), Ok(()));
    assert!(state.resources_to_delete(ResourceKind::Content).is_empty());
    // nothing was committed: the run's generation is still there
    assert_eq!(state.next().content().len(), 3);
    assert_eq!(state.current().content().len(), 3);
}

#[test]
fn new_page_is_rebuilt_whatever_its_checksum() {
    let mut state = StateManager::new();
    run(&mut state, &[("alpha", "first text")]);
    state.set_content_checksum("beta".to_string(), sum("first text"));
    assert!(state.should_rebuild_page("beta"));
    // also before its checksum is recorded
    assert!(state.should_rebuild_page("gamma"));
}

#[test]
fn changed_page_is_rebuilt() {
    let mut state = StateManager::new();
    run(&mut state, &[("alpha", "first text"), ("beta", "second text")]);
    state.set_content_checksum("alpha".to_string(), sum("first text, edited"));
    state.set_content_checksum("beta".to_string(), sum("second text"));
    assert!(state.should_rebuild_page("alpha"));
    assert!(!state.should_rebuild_page("beta"));
    assert!(state.needs_write());
}

#[test]
fn known_page_without_recorded_checksum_is_rebuilt() {
    let mut state = StateManager::new();
    run(&mut state, &[("alpha", "first text")]);
    assert!(state.should_rebuild_page("alpha"));
}

#[test]
fn unset_takes_a_page_out_of_the_run() {
    let mut state = StateManager::new();
    run(&mut state, &[("alpha", "first text")]);
    state.set_content_checksum("alpha".to_string(), sum("first text"));
    state.set_content_checksum("beta".to_string(), sum("second text"));
    state.unset_content_checksum("beta");
    assert_eq!(state.next().content().len(), 1);
    assert!(!state.next().content().contains_key("beta"));
    assert!(!state.needs_write());
    state.unset_content_checksum("alpha");
    assert_eq!(state.resources_to_delete(ResourceKind::Content), vec!["alpha".to_string()]);
    // unsetting what is not there changes nothing
    state.unset_content_checksum("nowhere");
    assert_eq!(state.next().content().len(), 0);
}

#[test]
fn setting_a_checksum_twice_keeps_the_last() {
    let mut state = StateManager::new();
    state.set_content_checksum("alpha".to_string(), sum("a"));
    state.add_or_keep("alpha".to_string(), sum("b"));
    assert_eq!(state.next().content().len(), 1);
    assert_eq!(state.next().content().get("alpha"), Some(&sum("b")));
}

#[test]
fn contents_changed_compares_with_the_last_committed_run() {
    let mut state = StateManager::new();
    run(&mut state, &[("alpha", "first text")]);
    assert!(!state.contents_changed("alpha", sum("first text").as_str()));
    assert!(state.contents_changed("alpha", sum("other").as_str()));
    assert!(state.contents_changed("beta", sum("first text").as_str()));
    assert!(state.contents_changed("alpha", "not a checksum"));
}

#[test]
fn index_is_rebuilt_when_its_checksum_differs() {
    let mut state = StateManager::new();
    assert!(!state.should_rebuild_index());
    state.set_index_checksum(sum("list 1"));
    assert!(state.should_rebuild_index());
    assert_eq!(state.commit_if_changed(true), Ok(()));
    assert!(state.should_rebuild_index());
    state.set_index_checksum(sum("list 1"));
    assert!(!state.should_rebuild_index());
    state.set_index_checksum(sum("list 2"));
    assert!(state.should_rebuild_index());
}

#[test]
fn failed_write_leaves_the_last_committed_generation() {
    let mut state = StateManager::new();
    run(&mut state, &[("alpha", "first text")]);
    state.set_content_checksum("alpha".to_string(), sum("first text, edited"));
    assert!(state.needs_write());
    assert_eq!(state.commit_if_changed(false), Err(CommitError::NotPersisted));
    assert_eq!(state.current().content().get("alpha"), Some(&sum("first text")));
    assert_eq!(state.next().content().get("alpha"), Some(&sum("first text, edited")));
    assert!(state.needs_write());
    assert_eq!(state.commit_if_changed(true), Ok(()));
    assert_eq!(state.current().content().get("alpha"), Some(&sum("first text, edited")));
    assert_eq!(state.next().content().len(), 0);
    assert!(state.next().index().is_none());
    assert!(!state.bulk_changed());
}

#[test]
fn static_entries_are_deleted_deepest_first() {
    let mut state = StateManager::new();
    for (key, seen) in [
        ("a", seen_dir()),
        ("a/b.txt", seen_file(1, 1, Some("b"))),
        ("a/c", seen_dir()),
        ("a/c/d.txt", seen_file(1, 1, Some("d"))),
        ("kept.txt", seen_file(1, 1, Some("k"))),
    ] {
        assert_eq!(state.update_static_entry_and_check_changed(key.to_string(), seen), Ok(true));
    }
    assert_eq!(state.commit_if_changed(true), Ok(()));
    assert_eq!(
        state.update_static_entry_and_check_changed("kept.txt".to_string(), seen_file(1, 1, None)),
        Ok(false)
    );

    let order = state.resources_to_delete(ResourceKind::Static);
    assert_eq!(order.len(), 4);
    let place = |key: &str| order.iter().position(|k| k == key).unwrap();
    assert_eq!(place("a/c/d.txt"), 0);
    assert_eq!(place("a"), 3);
    assert!(place("a/c/d.txt") < place("a/c"));
    assert!(place("a/c") < place("a"));
    assert!(place("a/b.txt") < place("a"));
    // paths of one depth keep the order in which they were first seen
    assert_eq!(order, vec!["a/c/d.txt", "a/b.txt", "a/c", "a"]);
    assert!(state.resources_to_delete(ResourceKind::Content).is_empty());
}

#[test]
fn static_entry_is_held_against_the_last_committed_run() {
    let mut state = StateManager::new();
    assert!(state.static_entry_needs_checksum("f", &EntryStat::File { modified: at(1), size: 3 }));
    assert!(!state.static_entry_needs_checksum("d", &EntryStat::Directory));
    assert_eq!(
        state.update_static_entry_and_check_changed("f".to_string(), seen_file(1, 3, Some("abc"))),
        Ok(true)
    );
    // still new: the run is not committed
    assert_eq!(
        state.update_static_entry_and_check_changed("f".to_string(), seen_file(1, 3, Some("abc"))),
        Ok(true)
    );
    assert_eq!(state.commit_if_changed(true), Ok(()));

    let same = EntryStat::File { modified: at(1), size: 3 };
    let touched = EntryStat::File { modified: at(2), size: 3 };
    let grown = EntryStat::File { modified: at(2), size: 4 };
    assert!(!state.static_entry_needs_checksum("f", &same));
    assert!(state.static_entry_needs_checksum("f", &touched));
    assert!(state.static_entry_needs_checksum("f", &grown));
    assert!(!state.static_entry_needs_checksum("f", &EntryStat::Directory));

    assert_eq!(
        state.update_static_entry_and_check_changed("f".to_string(), seen_file(1, 3, None)),
        Ok(false)
    );
    assert_eq!(
        state.update_static_entry_and_check_changed("f".to_string(), seen_file(2, 3, Some("abc"))),
        Ok(false)
    );
    assert_eq!(
        state.update_static_entry_and_check_changed("f".to_string(), seen_file(2, 3, Some("abd"))),
        Ok(true)
    );
    assert_eq!(
        state.update_static_entry_and_check_changed("f".to_string(), seen_file(2, 4, Some("abcd"))),
        Ok(true)
    );
    assert_eq!(state.update_static_entry_and_check_changed("f".to_string(), seen_dir()), Ok(true));
}

#[test]
fn static_entry_without_needed_checksum_is_not_recorded() {
    let mut state = StateManager::new();
    assert!(state
        .update_static_entry_and_check_changed("f".to_string(), seen_file(1, 3, None))
        .is_err());
    assert_eq!(state.next().statics().len(), 0);
}

#[test]
fn bulk_change_rebuilds_everything() {
    let mut state = StateManager::new();
    state.set_content_checksum("alpha".to_string(), sum("first text"));
    state.set_index_checksum(sum("list"));
    let changed = state
        .update_bulk_and_check_changed(vec![
            ("templates/page.html".to_string(), seen_file(1, 10, Some("page"))),
            ("templates/index.html".to_string(), seen_file(1, 11, Some("index"))),
        ])
        .unwrap();
    assert!(changed);
    assert!(state.bulk_changed());
    assert_eq!(state.commit_if_changed(true), Ok(()));
    assert!(!state.bulk_changed());

    // nothing touched: no checksum is asked for, nothing has changed
    let stat_page = EntryStat::File { modified: at(1), size: 10 };
    assert!(!state.bulk_entry_needs_checksum("templates/page.html", &stat_page));
    state.set_content_checksum("alpha".to_string(), sum("first text"));
    state.set_index_checksum(sum("list"));
    let changed = state
        .update_bulk_and_check_changed(vec![
            ("templates/index.html".to_string(), seen_file(1, 11, None)),
            ("templates/page.html".to_string(), seen_file(1, 10, None)),
        ])
        .unwrap();
    assert!(!changed);
    assert!(!state.should_rebuild_page("alpha"));
    assert!(!state.should_rebuild_index());
    assert!(!state.needs_write());

    // one template edited
    let changed = state
        .update_bulk_and_check_changed(vec![
            ("templates/index.html".to_string(), seen_file(1, 11, None)),
            ("templates/page.html".to_string(), seen_file(2, 10, Some("PAGE"))),
        ])
        .unwrap();
    assert!(changed);
    assert!(state.should_rebuild_page("alpha"));
    assert!(state.should_rebuild_index());
    assert!(state.needs_write());
}

#[test]
fn bulk_file_that_disappeared_is_a_change() {
    let mut state = StateManager::new();
    state
        .update_bulk_and_check_changed(vec![
            ("a".to_string(), seen_file(1, 1, Some("a"))),
            ("b".to_string(), seen_file(1, 1, Some("b"))),
        ])
        .unwrap();
    state.commit_if_changed(true).unwrap();
    let changed =
        state.update_bulk_and_check_changed(vec![("a".to_string(), seen_file(1, 1, None))]).unwrap();
    assert!(changed);
    assert_eq!(state.next().bulk().len(), 1);
}

#[test]
fn bulk_without_needed_checksum_records_nothing() {
    let mut state = StateManager::new();
    state
        .update_bulk_and_check_changed(vec![("a".to_string(), seen_file(1, 1, Some("a")))])
        .unwrap();
    state.commit_if_changed(true).unwrap();
    let r = state.update_bulk_and_check_changed(vec![
        ("a".to_string(), seen_file(1, 1, None)),
        ("b".to_string(), seen_file(1, 1, None)),
    ]);
    assert!(r.is_err());
    assert_eq!(state.next().bulk().len(), 0);
    assert!(!state.bulk_changed());
}

#[test]
fn touched_bulk_file_with_same_content_is_no_change() {
    let mut state = StateManager::new();
    state
        .update_bulk_and_check_changed(vec![("a".to_string(), seen_file(1, 1, Some("a")))])
        .unwrap();
    state.commit_if_changed(true).unwrap();
    let changed = state
        .update_bulk_and_check_changed(vec![("a".to_string(), seen_file(9, 1, Some("a")))])
        .unwrap();
    assert!(!changed);
    assert!(!state.needs_write());
}

fn record() -> StateRecord {
    StateRecord {
        content: Some(vec![
            ("alpha".to_string(), sum("first text").as_str().to_string()),
            ("beta".to_string(), sum("second text").as_str().to_string()),
        ]),
        bulk: Some(vec![(
            "templates/page.html".to_string(),
            FileRecord::RegularFile {
                modified: at(7),
                size: 4,
                checksum: sum("page").as_str().to_string(),
            },
        )]),
        statics: Some(vec![
            ("img".to_string(), FileRecord::Directory),
            (
                "img/a.png".to_string(),
                FileRecord::RegularFile {
                    modified: at(3),
                    size: 2,
                    checksum: sum("png").as_str().to_string(),
                },
            ),
        ]),
        index: Some(sum("list").as_str().to_string()),
    }
}

#[test]
fn record_is_decoded_field_by_field() {
    let g = Generation::from_record(record());
    assert_eq!(g.content().len(), 2);
    assert_eq!(g.content().get("beta"), Some(&sum("second text")));
    assert_eq!(g.bulk().len(), 1);
    assert_eq!(g.statics().len(), 2);
    assert_eq!(g.statics().get("img"), Some(&FileState::directory()));
    assert_eq!(g.index(), Some(&sum("list")));
}

#[test]
fn unsound_field_defaults_and_leaves_the_others() {
    let mut r = record();
    r.content = Some(vec![
        ("alpha".to_string(), sum("first text").as_str().to_string()),
        ("beta".to_string(), "short".to_string()),
    ]);
    let g = Generation::from_record(r);
    assert_eq!(g.content().len(), 0);
    assert_eq!(g.bulk().len(), 1);
    assert_eq!(g.statics().len(), 2);
    assert!(g.index().is_some());

    let mut r = record();
    r.index = Some("short".to_string());
    r.bulk = None;
    r.statics = Some(vec![(
        "f".to_string(),
        FileRecord::RegularFile { modified: at(1), size: 1, checksum: String::new() },
    )]);
    let g = Generation::from_record(r);
    assert_eq!(g.content().len(), 2);
    assert_eq!(g.bulk().len(), 0);
    assert_eq!(g.statics().len(), 0);
    assert!(g.index().is_none());
}

#[test]
fn later_entry_of_a_record_replaces_an_earlier_one() {
    let r = StateRecord {
        content: Some(vec![
            ("alpha".to_string(), sum("old").as_str().to_string()),
            ("alpha".to_string(), sum("new").as_str().to_string()),
        ]),
        bulk: None,
        statics: None,
        index: None,
    };
    let g = Generation::from_record(r);
    assert_eq!(g.content().len(), 1);
    assert_eq!(g.content().get("alpha"), Some(&sum("new")));
}

#[test]
fn record_round_trips() {
    let g = Generation::from_record(record());
    let back = Generation::from_record(g.to_record());
    assert!(back.same_as(&g));
    assert!(g.same_as(&back));
    let r = g.to_record();
    assert_eq!(r.content.unwrap().len(), 2);
    assert_eq!(r.index, Some(sum("list").as_str().to_string()));
    match &r.statics.unwrap()[1].1 {
        FileRecord::RegularFile { modified, size, checksum } => {
            assert_eq!(*modified, at(3));
            assert_eq!(*size, 2);
            assert_eq!(checksum, sum("png").as_str());
        }
        FileRecord::Directory => panic!("a file was expected"),
    }
}

#[test]
fn generations_differ_by_any_field() {
    let g = Generation::from_record(record());
    assert!(!g.same_as(&Generation::new()));
    let mut r = record();
    r.index = None;
    assert!(!g.same_as(&Generation::from_record(r)));
    let mut r = record();
    r.statics.as_mut().unwrap().pop();
    assert!(!g.same_as(&Generation::from_record(r)));
    // times and sizes are hints, not identity
    let mut r = record();
    r.bulk = Some(vec![(
        "templates/page.html".to_string(),
        FileRecord::RegularFile {
            modified: at(99),
            size: 400,
            checksum: sum("page").as_str().to_string(),
        },
    )]);
    assert!(g.same_as(&Generation::from_record(r)));
}

#[test]
fn loaded_state_starts_an_empty_run() {
    let mut state = StateManager::load(Some(record()));
    assert_eq!(state.current().content().len(), 2);
    assert_eq!(state.next().content().len(), 0);
    assert!(!state.bulk_changed());
    assert_eq!(
        sorted(state.resources_to_delete(ResourceKind::Content)),
        vec!["alpha".to_string(), "beta".to_string()]
    );
    state.set_content_checksum("alpha".to_string(), sum("first text"));
    assert!(!state.should_rebuild_page("alpha"));
    let from = StateManager::from_generation(Generation::from_record(record()));
    assert!(from.current().same_as(state.current()));
}
