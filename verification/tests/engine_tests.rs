use obsidian_rs::data::FrontMatter;
use obsidian_rs::events::Change;
use obsidian_rs::fingerprint::ChangeToken;
use obsidian_rs::reconciler::{EngineError, Reconciler, WalkEntry};

fn token(n: u64) -> ChangeToken {
    ChangeToken {
        len: n,
        mtime_ns: 1_000 + n,
        content_hash: 7 * n,
    }
}

fn meta(title: &str) -> FrontMatter {
    FrontMatter {
        title: Some(title.to_string()),
        github: None,
        created: None,
        tags: None,
        authors: None,
    }
}

fn ready_engine(root: &str) -> Reconciler {
    let mut engine = Reconciler::new(root.to_string()).unwrap();
    engine.begin_walk();
    let none: Vec<WalkEntry> = Vec::new();
    engine.invalidate_cache(&none);
    engine.finish_walk();
    engine
}

#[test]
fn empty_root_is_rejected() {
    assert!(matches!(
        Reconciler::new(String::new()),
        Err(EngineError::InvalidRoot)
    ));
}

#[test]
fn root_with_trailing_separator_is_rejected() {
    assert!(matches!(
        Reconciler::new(String::from("/vault/")),
        Err(EngineError::InvalidRoot)
    ));
}

#[test]
fn walk_indexes_every_observed_file() {
    let mut engine = Reconciler::new(String::from("/vault")).unwrap();
    engine.begin_walk();
    let observed = vec![
        WalkEntry { key: String::from("a.md"), token: token(1) },
        WalkEntry { key: String::from("b/c.md"), token: token(2) },
    ];
    let requests = engine.invalidate_cache(&observed);
    assert_eq!(requests.len(), 2);
    for req in requests {
        engine.record_extraction(req.key.clone(), req.token, None);
    }
    engine.finish_walk();
    let mut keys = engine.snapshot_keys();
    keys.sort();
    assert_eq!(keys, vec![String::from("a.md"), String::from("b/c.md")]);
}

#[test]
fn walk_prunes_unobserved_keys() {
    let mut engine = Reconciler::new(String::from("/vault")).unwrap();
    engine.begin_walk();
    let both = vec![
        WalkEntry { key: String::from("a.md"), token: token(1) },
        WalkEntry { key: String::from("b.md"), token: token(2) },
    ];
    for req in engine.invalidate_cache(&both) {
        engine.record_extraction(req.key.clone(), req.token, None);
    }
    // A second diff in the same walk sees only a.md: b.md is pruned, and
    // a.md's unchanged token asks for no extraction.
    let only_a = vec![WalkEntry { key: String::from("a.md"), token: token(1) }];
    let requests = engine.invalidate_cache(&only_a);
    assert!(requests.is_empty());
    engine.finish_walk();
    assert_eq!(engine.snapshot_keys(), vec![String::from("a.md")]);
    assert!(engine.get(&String::from("b.md")).is_none());
}

#[test]
fn walk_skips_extraction_for_unchanged_tokens() {
    let mut engine = Reconciler::new(String::from("/vault")).unwrap();
    engine.begin_walk();
    let observed = vec![WalkEntry { key: String::from("a.md"), token: token(1) }];
    for req in engine.invalidate_cache(&observed) {
        engine.record_extraction(req.key.clone(), req.token, Some(meta("Alpha")));
    }
    // The same file observed again, unchanged: no extraction is requested.
    let requests = engine.invalidate_cache(&observed);
    assert!(requests.is_empty());
    // A changed token asks for exactly one.
    let changed = vec![WalkEntry { key: String::from("a.md"), token: token(9) }];
    let requests = engine.invalidate_cache(&changed);
    assert_eq!(requests.len(), 1);
    assert_eq!(requests[0].key, "a.md");
}

#[test]
fn applying_the_same_change_twice_is_a_no_op() {
    let mut engine = ready_engine("/vault");
    let t = token(5);
    let change = Change::Modified(String::from("a.md"));
    let req = engine.apply_change(&change, Some(t));
    let req = req.expect("first application extracts");
    engine.record_extraction(req.key.clone(), req.token, Some(meta("Alpha")));
    let before = engine.get(&String::from("a.md")).cloned();
    // Second application with the same token: no extraction, no change.
    let req2 = engine.apply_change(&change, Some(t));
    assert!(req2.is_none());
    let after = engine.get(&String::from("a.md")).cloned();
    assert_eq!(before, after);
}

#[test]
fn second_modification_with_stale_token_extracts_once() {
    let mut engine = ready_engine("/vault");
    let change = Change::Modified(String::from("a.md"));
    let req = engine
        .apply_change(&change, Some(token(1)))
        .expect("new file extracts");
    engine.record_extraction(req.key.clone(), req.token, Some(meta("Alpha")));
    let req2 = engine
        .apply_change(&change, Some(token(2)))
        .expect("a differing token re-extracts");
    assert_eq!(req2.key, "a.md");
    assert_eq!(req2.token, token(2));
    engine.record_extraction(req2.key.clone(), req2.token, Some(meta("Beta")));
    // Equal token: zero extraction calls.
    assert!(engine.apply_change(&change, Some(token(2))).is_none());
}

#[test]
fn removal_is_unconditional() {
    let mut engine = ready_engine("/vault");
    // Removing a never-indexed key is a quiet no-op.
    assert!(engine
        .apply_change(&Change::Removed(String::from("ghost.md")), None)
        .is_none());
    assert!(engine.get(&String::from("ghost.md")).is_none());
    // Removing an indexed key unindexes it.
    let req = engine
        .apply_change(&Change::Created(String::from("a.md")), Some(token(1)))
        .unwrap();
    engine.record_extraction(req.key.clone(), req.token, None);
    assert!(engine.get(&String::from("a.md")).is_some());
    assert!(engine
        .apply_change(&Change::Removed(String::from("a.md")), None)
        .is_none());
    assert!(engine.get(&String::from("a.md")).is_none());
}

#[test]
fn unobservable_path_is_treated_as_removed() {
    let mut engine = ready_engine("/vault");
    let req = engine
        .apply_change(&Change::Created(String::from("a.md")), Some(token(1)))
        .unwrap();
    engine.record_extraction(req.key.clone(), req.token, None);
    // The file vanished between the event and the stat.
    assert!(engine
        .apply_change(&Change::Modified(String::from("a.md")), None)
        .is_none());
    assert!(engine.get(&String::from("a.md")).is_none());
}

#[test]
fn rename_with_unchanged_content_moves_the_record_without_extraction() {
    let mut engine = ready_engine("/vault");
    let t = token(3);
    let req = engine
        .apply_change(&Change::Created(String::from("a.md")), Some(t))
        .unwrap();
    engine.record_extraction(req.key.clone(), req.token, Some(meta("Alpha")));
    let req2 = engine.apply_change(
        &Change::Renamed {
            from: String::from("a.md"),
            to: String::from("b.md"),
        },
        Some(t),
    );
    assert!(req2.is_none(), "no extraction call is issued for the new key");
    assert!(engine.get(&String::from("a.md")).is_none());
    let moved = engine.get(&String::from("b.md")).expect("record moved");
    assert_eq!(moved.identity, "b.md");
    assert_eq!(moved.token, t);
    assert_eq!(moved.metadata.as_ref().unwrap().title, Some(String::from("Alpha")));
}

#[test]
fn rename_of_an_unknown_key_degrades_to_created() {
    let mut engine = ready_engine("/vault");
    let t = token(4);
    let req = engine.apply_change(
        &Change::Renamed {
            from: String::from("never-seen.md"),
            to: String::from("b.md"),
        },
        Some(t),
    );
    let req = req.expect("a fresh destination extracts");
    assert_eq!(req.key, "b.md");
    assert_eq!(req.token, t);
}

#[test]
fn rename_combined_with_edit_re_extracts() {
    let mut engine = ready_engine("/vault");
    let req = engine
        .apply_change(&Change::Created(String::from("a.md")), Some(token(1)))
        .unwrap();
    engine.record_extraction(req.key.clone(), req.token, Some(meta("Alpha")));
    // Atomic save: rename plus new content in one change.
    let req2 = engine.apply_change(
        &Change::Renamed {
            from: String::from("a.md"),
            to: String::from("b.md"),
        },
        Some(token(2)),
    );
    let req2 = req2.expect("changed content re-extracts");
    assert_eq!(req2.key, "b.md");
    assert_eq!(req2.token, token(2));
}

#[test]
fn extraction_failure_keeps_the_file_indexed() {
    let mut engine = ready_engine("/vault");
    let req = engine
        .apply_change(&Change::Created(String::from("bad.md")), Some(token(1)))
        .unwrap();
    // Malformed front matter: the extractor failed, metadata is None.
    engine.record_extraction(req.key.clone(), req.token, None);
    let rec = engine.get(&String::from("bad.md")).expect("still indexed");
    assert!(rec.metadata.is_none());
}

#[test]
fn scenario_walk_edit_and_rename() {
    let mut engine = Reconciler::new(String::from("/vault")).unwrap();
    engine.begin_walk();
    let t1 = token(1);
    let observed = vec![WalkEntry { key: String::from("note.md"), token: t1 }];
    let requests = engine.invalidate_cache(&observed);
    assert_eq!(requests.len(), 1);
    engine.record_extraction(
        requests[0].key.clone(),
        requests[0].token,
        Some(meta("Alpha")),
    );
    engine.finish_walk();
    let rec = engine.get(&String::from("note.md")).unwrap();
    assert_eq!(rec.metadata.as_ref().unwrap().title, Some(String::from("Alpha")));

    // The title is edited to Beta: a modification with a new token.
    let t2 = token(2);
    let req = engine
        .apply_change(&Change::Modified(String::from("note.md")), Some(t2))
        .expect("new token re-extracts");
    engine.record_extraction(req.key.clone(), req.token, Some(meta("Beta")));
    let rec = engine.get(&String::from("note.md")).unwrap();
    assert_eq!(rec.metadata.as_ref().unwrap().title, Some(String::from("Beta")));

    // The note moves with no content change: zero additional extractions.
    let req = engine.apply_change(
        &Change::Renamed {
            from: String::from("note.md"),
            to: String::from("archive/note.md"),
        },
        Some(t2),
    );
    assert!(req.is_none());
    assert!(engine.get(&String::from("note.md")).is_none());
    let rec = engine.get(&String::from("archive/note.md")).unwrap();
    assert_eq!(rec.metadata.as_ref().unwrap().title, Some(String::from("Beta")));
    assert_eq!(engine.snapshot_keys(), vec![String::from("archive/note.md")]);
}

#[test]
fn coarse_mtime_is_caught_by_the_content_hash() {
    // Two writes within one timestamp tick: length and mtime agree, only
    // the content hash differs — the tokens must still compare unequal.
    let first = ChangeToken { len: 10, mtime_ns: 500, content_hash: 1 };
    let second = ChangeToken { len: 10, mtime_ns: 500, content_hash: 2 };
    assert_ne!(first, second);

    let mut engine = ready_engine("/vault");
    let change = Change::Modified(String::from("a.md"));
    let req = engine.apply_change(&change, Some(first)).unwrap();
    engine.record_extraction(req.key.clone(), req.token, Some(meta("Alpha")));
    let req = engine.apply_change(&change, Some(second));
    assert!(req.is_some(), "a same-tick edit must still re-extract");
}
