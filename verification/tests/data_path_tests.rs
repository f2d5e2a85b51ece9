use obsidian_rs::config::{AppConfig, Workspace};
use obsidian_rs::data::{get_data_path, get_local_data_dir, select_vault_keys, DataPathError};

fn config(root: &str) -> AppConfig {
    AppConfig {
        workspace: Workspace {
            root: root.to_string(),
        },
    }
}

#[test]
fn data_home_override_wins_when_set() {
    let dir = get_local_data_dir(&Some(String::from("/data")), &Some(String::from("/home/u")));
    assert_eq!(dir, Some(String::from("/data")));
}

#[test]
fn empty_data_home_override_falls_back_to_home() {
    let dir = get_local_data_dir(&Some(String::new()), &Some(String::from("/home/u")));
    assert_eq!(dir, Some(String::from("/home/u/.local/share")));
}

#[test]
fn no_data_dir_without_home_or_override() {
    assert_eq!(get_local_data_dir(&None, &None), None);
}

#[test]
fn data_path_is_named_after_the_vault() {
    let r = get_data_path(
        &config("/srv/my-vault"),
        &Some(String::from("/data")),
        &Some(String::from("/home/u")),
    );
    assert_eq!(r, Ok(String::from("/data/obsidian-rs/my-vault")));
}

#[test]
fn data_path_expands_a_tilde_root() {
    let r = get_data_path(
        &config("~/vaults/notes"),
        &None,
        &Some(String::from("/home/u")),
    );
    assert_eq!(r, Ok(String::from("/home/u/.local/share/obsidian-rs/notes")));
}

#[test]
fn data_path_fails_without_a_data_dir() {
    let r = get_data_path(&config("/srv/vault"), &None, &None);
    assert_eq!(r, Err(DataPathError::LocalDataDirUnavailable));
}

#[test]
fn data_path_fails_when_a_tilde_root_has_no_home() {
    let r = get_data_path(&config("~/vault"), &Some(String::from("/data")), &None);
    assert_eq!(r, Err(DataPathError::WorkspaceRootUnavailable));
}

#[test]
fn data_path_fails_without_a_vault_name() {
    let r = get_data_path(&config("/"), &Some(String::from("/data")), &None);
    assert_eq!(r, Err(DataPathError::MissingVaultName));
}

#[test]
fn traversal_selection_keeps_admissible_files_only() {
    let paths = vec![
        String::from("/vault/a.md"),
        String::from("/vault/.obsidian/workspace"),
        String::from("/vault/notes/b.md"),
        String::from("/elsewhere/c.md"),
        String::from("/vault/notes/.draft/d.md"),
    ];
    let keys = select_vault_keys("/vault", &paths);
    assert_eq!(keys, vec![String::from("a.md"), String::from("notes/b.md")]);
}
