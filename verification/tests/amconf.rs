use amanda::amconf::dirs::{config_dir, default_config_path, join_path};
use amanda::amconf::{Config, Credential, Profile};
use amanda::keyed::StrMap;

fn profile(name: &str) -> Profile {
    Profile { name: name.to_string(), settings: StrMap::new() }
}

#[test]
fn test_config_builder() {
    let mut config = Config::new();

    config.set_global("timeout".to_string(), serde_json::to_string(&30).unwrap()).unwrap();
    config.add_profile(profile("default"));

    assert_eq!(config.default_profile, Some("default".to_string()));
    assert_eq!(
        config.get_global("timeout").and_then(|v| serde_json::from_str::<i32>(v).ok()),
        Some(30)
    );
}

#[test]
fn new_config_is_blank() {
    let config = Config::new();
    assert_eq!(config.version, "1.0");
    assert!(config.default_profile.is_none());
    assert_eq!(config.profiles.len(), 0);
    assert!(config.credentials.is_empty());
    assert_eq!(config.globals.len(), 0);
    assert!(config.default_profile().is_none());
    assert!(config.get_global("missing").is_none());
}

#[test]
fn first_profile_stays_default() {
    let mut config = Config::new();
    config.add_profile(profile("work")).add_profile(profile("home"));
    assert_eq!(config.default_profile, Some("work".to_string()));
    assert_eq!(config.default_profile().unwrap().name, "work");
    assert_eq!(config.get_profile("home").unwrap().name, "home");
    assert!(config.get_profile("other").is_none());
    assert_eq!(config.profiles.len(), 2);
}

#[test]
fn re_adding_a_profile_replaces_it() {
    let mut config = Config::new();
    config.add_profile(profile("work"));
    let mut p = profile("work");
    p.settings.insert("editor".to_string(), "\"vim\"".to_string());
    config.add_profile(p);
    assert_eq!(config.profiles.len(), 1);
    assert_eq!(config.get_profile("work").unwrap().settings.get("editor").unwrap(), "\"vim\"");
}

#[test]
fn default_name_without_profile() {
    let mut config = Config::new();
    config.default_profile = Some("ghost".to_string());
    assert!(config.default_profile().is_none());
}

#[test]
fn set_global_replaces_value() {
    let mut config = Config::new();
    config.set_global("key".to_string(), "\"value\"".to_string()).unwrap();
    config.set_global("key".to_string(), "2".to_string()).unwrap().set_global("other".to_string(), "true".to_string()).unwrap();
    assert_eq!(config.get_global("key").unwrap(), "2");
    assert_eq!(config.get_global("other").unwrap(), "true");
    assert_eq!(config.globals.len(), 2);
    config.credentials.push(Credential {
        name: "mail".to_string(),
        credential_type: "password".to_string(),
        encrypted_value: "c2VjcmV0".to_string(),
    });
    assert_eq!(config.credentials.len(), 1);
}

#[test]
fn config_directories() {
    assert_eq!(config_dir(Some("/xdg"), Some("/home/u")), Some("/xdg/amanda".to_string()));
    assert_eq!(config_dir(None, Some("/home/u")), Some("/home/u/.config/amanda".to_string()));
    assert_eq!(config_dir(None, None), None);
    assert_eq!(config_dir(Some("/xdg/"), None), Some("/xdg/amanda".to_string()));
    assert_eq!(config_dir(Some(""), None), None);
    assert_eq!(config_dir(Some(""), Some("/home/u")), Some("/home/u/.config/amanda".to_string()));
    assert_eq!(
        default_config_path(None, Some("/root")),
        Some("/root/.config/amanda/config.json".to_string())
    );
    assert_eq!(default_config_path(None, None), None);
}

#[test]
fn join_matches_pathbuf() {
    for (base, part) in [("/tmp", "file.bk"), ("/tmp/", "x"), ("", "a"), ("rel", "b/c")] {
        let expected = std::path::PathBuf::from(base).join(part);
        assert_eq!(join_path(base, part), expected.to_string_lossy());
    }
}

#[test]
fn set_global_refuses_text_that_is_not_json() {
    let mut config = Config::new();
    config.set_global("key".to_string(), "1".to_string()).unwrap();
    assert!(matches!(
        config.set_global("key".to_string(), "value".to_string()),
        Err(amanda::AmandaError::Serialization(_))
    ));
    assert_eq!(config.get_global("key").unwrap(), "1");
    assert_eq!(config.globals.len(), 1);
}
