use dbconfig::errors::ConfigError;
use dbconfig::registry::PathRegistry;

#[test]
fn get_path_is_empty_while_unset() {
    let reg = PathRegistry::new();
    assert_eq!(reg.get_path(), "");
}

#[test]
fn require_path_fails_while_unset() {
    let reg = PathRegistry::new();
    assert!(matches!(reg.require_path(), Err(ConfigError::NoPathConfigured)));
}

#[test]
fn set_path_rejects_empty() {
    let mut reg = PathRegistry::new();
    assert!(matches!(reg.set_path("", Some("/work")), Err(ConfigError::InvalidArgument)));
    assert!(matches!(reg.set_path("   ", Some("/work")), Err(ConfigError::InvalidArgument)));
    assert_eq!(reg.get_path(), "");
}

#[test]
fn set_path_resolves_relative_against_working_directory() {
    let mut reg = PathRegistry::new();
    let p = reg.set_path("relative/p", Some("/work")).expect("a relative path resolves");
    assert_eq!(p, "/work/relative/p");
    assert_eq!(reg.get_path(), "/work/relative/p");
}

#[test]
fn set_path_keeps_absolute_path() {
    let mut reg = PathRegistry::new();
    let p = reg.set_path("  /etc/cfg.json  ", Some("/work")).expect("an absolute path is stored");
    assert_eq!(p, "/etc/cfg.json");
}

#[test]
fn set_path_falls_back_to_dot_without_working_directory() {
    let mut reg = PathRegistry::new();
    let p = reg.set_path("cfg.json", None).expect("the fallback base applies");
    assert_eq!(p, "./cfg.json");
}

#[test]
fn set_path_avoids_doubled_separator() {
    let mut reg = PathRegistry::new();
    let p = reg.set_path("cfg.json", Some("/work/")).expect("a trailing separator is kept");
    assert_eq!(p, "/work/cfg.json");
}

#[test]
fn set_path_overwrites_prior_value() {
    let mut reg = PathRegistry::new();
    reg.set_path("/a.json", Some("/work")).expect("first set");
    let p = reg.set_path("/b.json", Some("/work")).expect("second set");
    assert_eq!(p, "/b.json");
    assert_eq!(reg.get_path(), "/b.json");
    let q = reg.require_path().expect("a stored path is required successfully");
    assert_eq!(q, "/b.json");
}
