use obsidian_rs::config::{get_config_path, get_root_workspace_path, AppConfig, Workspace};

#[test]
fn test_get_root_workspace_path() {
    let config = AppConfig {
        workspace: Workspace {
            root: String::from("~/tmp/test"),
        },
    };
    let result = get_root_workspace_path(&config);

    let home_dir = home::home_dir().expect("Requires resolvable home dir.");
    let expected_path = home_dir.join("tmp/test");

    assert!(
        result.is_some(),
        "get_root_workspace_path should return Some"
    );

    assert_eq!(result.unwrap(), expected_path.to_str().unwrap());
}

#[test]
fn root_workspace_path_without_tilde_is_returned_unchanged() {
    let config = AppConfig {
        workspace: Workspace {
            root: String::from("/srv/vault"),
        },
    };
    assert_eq!(
        get_root_workspace_path(&config),
        Some(String::from("/srv/vault"))
    );
}

#[test]
fn config_path_lives_under_home() {
    let home_dir = home::home_dir().expect("Requires resolvable home dir.");
    let expected = home_dir.join(".config/obsidian-rs/config.toml");
    assert_eq!(
        get_config_path(),
        Some(expected.to_str().unwrap().to_string())
    );
}
