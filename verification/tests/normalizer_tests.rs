use obsidian_rs::events::{
    normalize_event, normalize_events, Change, Normalized, RawEvent, RawEventKind, RenameHalf,
};

fn ev(kind: RawEventKind, paths: &[&str]) -> RawEvent {
    RawEvent {
        kind,
        paths: paths.iter().map(|p| p.to_string()).collect(),
    }
}

#[test]
fn create_inside_the_vault_becomes_created() {
    let r = normalize_event("/vault", &ev(RawEventKind::Create, &["/vault/a.md"]));
    assert_eq!(r, Normalized::Canonical(Change::Created(String::from("a.md"))));
}

#[test]
fn modify_and_remove_map_to_their_changes() {
    let m = normalize_event("/vault", &ev(RawEventKind::Modify, &["/vault/n/a.md"]));
    assert_eq!(
        m,
        Normalized::Canonical(Change::Modified(String::from("n/a.md")))
    );
    let r = normalize_event("/vault", &ev(RawEventKind::Remove, &["/vault/n/a.md"]));
    assert_eq!(
        r,
        Normalized::Canonical(Change::Removed(String::from("n/a.md")))
    );
}

#[test]
fn events_outside_the_vault_are_dropped() {
    let r = normalize_event("/vault", &ev(RawEventKind::Create, &["/elsewhere/a.md"]));
    assert_eq!(r, Normalized::Dropped);
}

#[test]
fn events_under_hidden_names_are_dropped() {
    let r = normalize_event("/vault", &ev(RawEventKind::Modify, &["/vault/.obsidian/c"]));
    assert_eq!(r, Normalized::Dropped);
}

#[test]
fn other_events_are_dropped() {
    let r = normalize_event("/vault", &ev(RawEventKind::Other, &["/vault/a.md"]));
    assert_eq!(r, Normalized::Dropped);
}

#[test]
fn paired_rename_becomes_one_renamed_change() {
    let r = normalize_event(
        "/vault",
        &ev(RawEventKind::RenameBoth, &["/vault/a.md", "/vault/b/c.md"]),
    );
    assert_eq!(
        r,
        Normalized::Canonical(Change::Renamed {
            from: String::from("a.md"),
            to: String::from("b/c.md"),
        })
    );
}

#[test]
fn rename_out_of_the_vault_degrades_to_removed() {
    let r = normalize_event(
        "/vault",
        &ev(RawEventKind::RenameBoth, &["/vault/a.md", "/elsewhere/a.md"]),
    );
    assert_eq!(r, Normalized::Canonical(Change::Removed(String::from("a.md"))));
}

#[test]
fn rename_into_the_vault_degrades_to_created() {
    let r = normalize_event(
        "/vault",
        &ev(RawEventKind::RenameBoth, &["/elsewhere/a.md", "/vault/a.md"]),
    );
    assert_eq!(r, Normalized::Canonical(Change::Created(String::from("a.md"))));
}

#[test]
fn unpaired_rename_halves_are_exposed_not_guessed() {
    let f = normalize_event("/vault", &ev(RawEventKind::RenameFrom, &["/vault/a.md"]));
    match f {
        Normalized::Unpaired(u) => {
            assert_eq!(u.half, RenameHalf::From);
            assert_eq!(u.key, "a.md");
        }
        other => panic!("expected an unpaired half, got {:?}", other),
    }
    let t = normalize_event("/vault", &ev(RawEventKind::RenameTo, &["/vault/b.md"]));
    match t {
        Normalized::Unpaired(u) => {
            assert_eq!(u.half, RenameHalf::To);
            assert_eq!(u.key, "b.md");
        }
        other => panic!("expected an unpaired half, got {:?}", other),
    }
}

#[test]
fn duplicate_bursts_are_coalesced() {
    let events = vec![
        ev(RawEventKind::Modify, &["/vault/a.md"]),
        ev(RawEventKind::Modify, &["/vault/a.md"]),
        ev(RawEventKind::Modify, &["/vault/a.md"]),
        ev(RawEventKind::Modify, &["/vault/b.md"]),
        ev(RawEventKind::Modify, &["/vault/a.md"]),
    ];
    let (changes, unpaired) = normalize_events("/vault", &events);
    assert_eq!(
        changes,
        vec![
            Change::Modified(String::from("a.md")),
            Change::Modified(String::from("b.md")),
            Change::Modified(String::from("a.md")),
        ]
    );
    assert!(unpaired.is_empty());
}

#[test]
fn per_path_order_is_preserved() {
    let events = vec![
        ev(RawEventKind::Create, &["/vault/a.md"]),
        ev(RawEventKind::Other, &["/vault/a.md"]),
        ev(RawEventKind::Modify, &["/vault/a.md"]),
        ev(RawEventKind::Remove, &["/vault/a.md"]),
    ];
    let (changes, _) = normalize_events("/vault", &events);
    assert_eq!(
        changes,
        vec![
            Change::Created(String::from("a.md")),
            Change::Modified(String::from("a.md")),
            Change::Removed(String::from("a.md")),
        ]
    );
}
