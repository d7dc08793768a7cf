use atref::watch::config_touched;

#[test]
fn only_the_config_file_triggers_a_reload() {
    let sibling = vec![r"C:\cfg\index.redb".to_string()];
    assert!(!config_touched(&sibling, "config.json"));
    let edit = vec![r"C:\cfg\index.redb".to_string(), r"C:\cfg\config.json".to_string()];
    assert!(config_touched(&edit, "config.json"));
    let tmp = vec![r"C:\cfg\config.json.tmp".to_string()];
    assert!(!config_touched(&tmp, "config.json"));
    assert!(!config_touched(&[], "config.json"));
}

#[test]
fn fires_on_config_edit_but_not_on_sibling_writes() {
    let store_write = vec![r"C:\tmp\edit\index.redb".to_string()];
    assert!(!config_touched(&store_write, "config.json"), "a sibling-file write must not trigger a reload");
    let edit = vec![r"C:\tmp\edit\config.json".to_string()];
    assert!(config_touched(&edit, "config.json"), "editing config.json triggers the callback");
}

#[test]
fn fires_on_atomic_replace_on_save() {
    // A rename of the temp file over config.json reports both paths.
    let replace = vec![
        r"C:\tmp\replace\config.json.tmp".to_string(),
        r"C:\tmp\replace\config.json".to_string(),
    ];
    assert!(config_touched(&replace, "config.json"), "atomic replace-on-save triggers the callback");
}
