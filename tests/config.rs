use bb_cli::config::{config_key_path, Profile, ProfileConfig, ProjectContext};
use bb_cli::store::{init_local_config, set_config_value, ConfigError};

#[test]
fn test_get_active_profile_default() {
    let profiles = vec![(
        "default".to_string(),
        Profile {
            workspace: Some("ws".to_string()),
            user: Some("default_user".to_string()),
            ..Default::default()
        },
    )];

    let config = ProfileConfig { user: None, profiles: Some(profiles) };

    let profile = config.get_active_profile();
    assert!(profile.is_some());
    assert_eq!(profile.unwrap().workspace.as_deref(), Some("ws"));
    assert_eq!(profile.unwrap().user.as_deref(), Some("default_user"));
}

#[test]
fn test_get_active_profile_named() {
    let profiles = vec![(
        "custom".to_string(),
        Profile {
            workspace: Some("custom_ws".to_string()),
            user: Some("custom_user".to_string()),
            ..Default::default()
        },
    )];

    let config = ProfileConfig { user: Some("custom".to_string()), profiles: Some(profiles) };

    let profile = config.get_active_profile();
    assert!(profile.is_some());
    assert_eq!(profile.unwrap().workspace.as_deref(), Some("custom_ws"));
}

#[test]
fn test_get_default_user() {
    let profiles = vec![(
        "default".to_string(),
        Profile {
            workspace: Some("ws".to_string()),
            user: Some("test_user".to_string()),
            ..Default::default()
        },
    )];

    let config = ProfileConfig { user: None, profiles: Some(profiles) };

    let user = config.get_default_user();
    assert_eq!(user, Some("test_user".to_string()));
}

#[test]
fn test_get_default_user_none() {
    let profiles = vec![(
        "default".to_string(),
        Profile { workspace: Some("ws".to_string()), user: None, ..Default::default() },
    )];

    let config = ProfileConfig { user: None, profiles: Some(profiles) };

    let user = config.get_default_user();
    assert_eq!(user, None);
}

#[test]
fn profile_override_selects_another_profile() {
    let config = ProfileConfig {
        user: None,
        profiles: Some(vec![
            ("default".to_string(), Profile { workspace: Some("a".to_string()), ..Default::default() }),
            ("work".to_string(), Profile { workspace: Some("b".to_string()), ..Default::default() }),
        ]),
    };
    assert_eq!(config.profile_for(Some("work")).unwrap().workspace.as_deref(), Some("b"));
    assert!(config.profile_for(Some("missing")).is_none());
    let empty = ProfileConfig::default();
    assert!(empty.get_active_profile().is_none());
}

#[test]
fn client_settings_use_profile_url_and_secret() {
    let config = ProfileConfig {
        user: None,
        profiles: Some(vec![(
            "default".to_string(),
            Profile {
                user: Some("me@example.com".to_string()),
                api_url: Some("https://example.test/api".to_string()),
                ..Default::default()
            },
        )]),
    };
    let s = config.client_settings(None, Some("tok".to_string()));
    assert_eq!(s.base_url, "https://example.test/api");
    assert_eq!(s.auth, Some(("me@example.com".to_string(), "tok".to_string())));
    let s = config.client_settings(None, None);
    assert_eq!(s.auth, None);
    let s = ProfileConfig::default().client_settings(None, Some("tok".to_string()));
    assert_eq!(s.base_url, "https://api.bitbucket.org/2.0");
    assert_eq!(s.auth, None);
}

#[test]
fn set_then_load_keeps_other_keys() {
    let text = "user = \"work\"\n\n[profile.work]\nworkspace = \"old\"\nuser = \"w@example.com\"\n";
    let updated = set_config_value(text, "profile.default.workspace", "acme").unwrap().to_string();
    let config = ProfileConfig::load_global(&updated).unwrap();
    assert_eq!(config.user.as_deref(), Some("work"));
    let profiles = config.profiles.as_ref().unwrap();
    let default = profiles.iter().find(|(n, _)| n == "default").unwrap();
    assert_eq!(default.1.workspace.as_deref(), Some("acme"));
    let work = profiles.iter().find(|(n, _)| n == "work").unwrap();
    assert_eq!(work.1.workspace.as_deref(), Some("old"));
    assert_eq!(work.1.user.as_deref(), Some("w@example.com"));
}

#[test]
fn set_into_empty_file_creates_tables() {
    let doc = set_config_value("", "profile.default.workspace", "acme").unwrap();
    let from_doc = ProfileConfig::from_document(&doc);
    assert_eq!(from_doc.get_active_profile().unwrap().workspace.as_deref(), Some("acme"));
    let updated = doc.to_string();
    let config = ProfileConfig::load(&updated).unwrap();
    let profile = config.get_active_profile().unwrap();
    assert_eq!(profile.workspace.as_deref(), Some("acme"));
    let replaced = set_config_value(&updated, "profile.default.workspace", "other").unwrap().to_string();
    let config = ProfileConfig::load(&replaced).unwrap();
    assert_eq!(config.get_active_profile().unwrap().workspace.as_deref(), Some("other"));
}

#[test]
fn set_through_a_value_is_a_conflict() {
    let text = "profile = \"flat\"\n";
    assert!(matches!(
        set_config_value(text, "profile.default.workspace", "acme"),
        Err(ConfigError::KeyConflict(k)) if k == "profile"
    ));
}

#[test]
fn invalid_toml_is_a_parse_error() {
    assert!(matches!(set_config_value("user = ", "user", "x"), Err(ConfigError::Parse)));
    assert!(ProfileConfig::load_global("[profile").is_err());
    assert!(ProfileConfig::load_local("= 1").is_err());
}

#[test]
fn load_without_profiles() {
    let config = ProfileConfig::load_global("user = \"x\"\n").unwrap();
    assert_eq!(config.user.as_deref(), Some("x"));
    assert!(config.profiles.is_none());
}

#[test]
fn local_config_round_trip() {
    let text = init_local_config("ws", "repo", "upstream").to_string();
    let local = ProfileConfig::load_local(&text).unwrap();
    let project: ProjectContext = local.project.unwrap();
    assert_eq!(project.workspace.as_deref(), Some("ws"));
    assert_eq!(project.repository.as_deref(), Some("repo"));
    assert_eq!(project.remote.as_deref(), Some("upstream"));
    assert!(ProfileConfig::load_local("").unwrap().project.is_none());
}

#[test]
fn config_keys_of_profile_settings() {
    assert_eq!(config_key_path("workspace", None), "profile.default.workspace");
    assert_eq!(config_key_path("remote", Some("work")), "profile.work.remote");
    assert_eq!(config_key_path("user", Some("work")), "user");
    assert_eq!(config_key_path("profile.x.api_url", None), "profile.x.api_url");
}

#[test]
fn load_and_load_global_agree() {
    let text = "user = \"work\"\n[profile.work]\nworkspace = \"w\"\n";
    let a = ProfileConfig::load(text).unwrap();
    let b = ProfileConfig::load_global(text).unwrap();
    assert_eq!(a.user, b.user);
    assert_eq!(
        a.get_active_profile().unwrap().workspace,
        b.get_active_profile().unwrap().workspace
    );
}
