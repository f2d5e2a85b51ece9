use obsidian_rs::fingerprint::{
    is_hidden, key_is_excluded, resolve, ResolveError,
};
use obsidian_rs::util::{expand_tilde_with, join_path};

#[test]
fn tilde_alone_expands_to_home() {
    assert_eq!(expand_tilde_with("~", "/testhome"), "/testhome");
}

#[test]
fn tilde_slash_expands_under_home() {
    assert_eq!(
        expand_tilde_with("~/Documents", "/testhome"),
        "/testhome/Documents"
    );
}

#[test]
fn absolute_path_is_not_expanded() {
    assert_eq!(
        expand_tilde_with("/absolute/path", "/testhome"),
        "/absolute/path"
    );
}

#[test]
fn hidden_relative_path_is_not_expanded() {
    assert_eq!(expand_tilde_with(".config", "/testhome"), ".config");
}

#[test]
fn join_path_inserts_exactly_one_separator() {
    assert_eq!(join_path("/a", "b"), "/a/b");
    assert_eq!(join_path("/a/", "b"), "/a/b");
    assert_eq!(join_path("", "b"), "b");
}

#[test]
fn resolve_strips_the_root() {
    assert_eq!(
        resolve("/vault/notes/a.md", "/vault"),
        Ok(String::from("notes/a.md"))
    );
}

#[test]
fn resolve_rejects_paths_outside_the_vault() {
    assert_eq!(
        resolve("/elsewhere/a.md", "/vault"),
        Err(ResolveError::PathOutsideVault)
    );
    assert_eq!(resolve("/vault", "/vault"), Err(ResolveError::PathOutsideVault));
    assert_eq!(
        resolve("/vaulted/a.md", "/vault"),
        Err(ResolveError::PathOutsideVault)
    );
}

#[test]
fn resolve_rejects_unrepresentable_keys() {
    assert_eq!(
        resolve("/vault/a\0b.md", "/vault"),
        Err(ResolveError::InvalidEncoding)
    );
}

#[test]
fn hidden_names_start_with_a_dot() {
    assert!(is_hidden(".obsidian"));
    assert!(!is_hidden("notes"));
    assert!(!is_hidden(""));
}

#[test]
fn keys_with_hidden_components_are_excluded() {
    assert!(key_is_excluded(".obsidian/cache"));
    assert!(key_is_excluded("notes/.hidden/a.md"));
    assert!(!key_is_excluded("notes/a.md"));
    assert!(!key_is_excluded("notes/v1.2/a.md"));
}
