use atref::config::Config;

#[test]
fn default_has_home_chord_and_excludes() {
    let cfg = Config::default_with_home(r"C:\Users\test".to_string());
    assert_eq!(cfg.folders, vec![r"C:\Users\test".to_string()]);
    assert_eq!(cfg.chord, "Control+Space");
    assert!(cfg.exclude.contains(&"node_modules".to_string()));
    assert!(cfg.git_aware);
}

#[test]
fn default_is_valid() {
    let cfg = Config::default_with_home(r"C:\Users\test".to_string());
    assert_eq!(cfg.validate(), Ok(()));
}

#[test]
fn empty_folders_is_rejected() {
    let mut cfg = Config::default_with_home("C:\\x".to_string());
    cfg.folders.clear();
    assert_eq!(
        cfg.validate(),
        Err("`folders` must list at least one directory".to_string())
    );
}

#[test]
fn blank_chord_fails_validation() {
    let mut cfg = Config::default_with_home("C:\\x".to_string());
    cfg.chord = " \t\u{3000} ".to_string();
    assert_eq!(cfg.validate(), Err("`chord` must not be empty".to_string()));
    cfg.chord = " x ".to_string();
    assert_eq!(cfg.validate(), Ok(()));
}

#[test]
fn cloned_config_is_equal_field_by_field() {
    let cfg = Config::default_with_home("C:\\x".to_string());
    let c2 = cfg.clone();
    assert_eq!(c2.folders, cfg.folders);
    assert_eq!(c2.exclude, cfg.exclude);
    assert_eq!(c2.chord, cfg.chord);
    assert_eq!(c2.git_aware, cfg.git_aware);
}
