use aa_editor::paths::{
    file_name, is_mlt_file, join_path, path_with_json_extension, path_with_mlt_extension,
    resolve_project_path, str_eq_ignore_ascii_case, tree_label,
};
use aa_editor::settings::{config_home, Settings, SettingsError};

#[test]
fn join_adds_separator() {
    assert_eq!(join_path("/home/u", ".config"), "/home/u/.config");
    assert_eq!(join_path("/a/", "b"), "/a/b");
    assert_eq!(join_path("", "b"), "b");
    assert_eq!(join_path("a", ""), "a/");
}

#[test]
fn join_absolute_component_replaces() {
    assert_eq!(join_path("a", "/b"), "/b");
}

#[test]
fn file_name_of_paths() {
    assert_eq!(file_name("/a/b.txt"), Some("b.txt".to_string()));
    assert_eq!(file_name("/a/dir/"), Some("dir".to_string()));
    assert_eq!(file_name("/"), None);
    assert_eq!(file_name("a/.."), None);
}

#[test]
fn mlt_files_by_extension() {
    assert!(is_mlt_file("x/y.mlt"));
    assert!(is_mlt_file("x/Y.MlT"));
    assert!(!is_mlt_file("x/y.txt"));
    assert!(!is_mlt_file("x/mlt"));
    assert!(!is_mlt_file("x/.mlt"));
}

#[test]
fn case_insensitive_compare() {
    assert!(str_eq_ignore_ascii_case("MLT", "mlt"));
    assert!(!str_eq_ignore_ascii_case("mlt", "mlts"));
    assert!(!str_eq_ignore_ascii_case("ÄB", "äb"));
}

#[test]
fn project_extension_added_when_missing() {
    assert_eq!(path_with_json_extension("/p/proj".to_string()), "/p/proj.aa_editor_proj");
    assert_eq!(path_with_json_extension("/p/proj.json".to_string()), "/p/proj.json");
}

#[test]
fn mlt_extension_added_when_missing() {
    assert_eq!(path_with_mlt_extension("/p/out".to_string()), "/p/out.mlt");
    assert_eq!(path_with_mlt_extension("/p/out.txt".to_string()), "/p/out.txt");
}

#[test]
fn tilde_resolved_against_home() {
    let home = Some("/home/u".to_string());
    assert_eq!(resolve_project_path("~", home.clone()), "/home/u");
    assert_eq!(resolve_project_path("~/x/y", home.clone()), "/home/u/x/y");
    assert_eq!(resolve_project_path("~user/x", home.clone()), "~user/x");
    assert_eq!(resolve_project_path("/abs", home), "/abs");
    assert_eq!(resolve_project_path("~/x", None), "~/x");
}

#[test]
fn tree_labels() {
    assert_eq!(tree_label("/a/b"), "b");
    assert_eq!(tree_label("/"), "/");
}

#[test]
fn config_home_prefers_xdg() {
    assert_eq!(config_home(Some("/x".to_string()), Some("/h".to_string())), Ok("/x".to_string()));
}

#[test]
fn config_home_falls_back_to_home() {
    assert_eq!(
        config_home(Some(String::new()), Some("/h".to_string())),
        Ok("/h/.config".to_string())
    );
    assert_eq!(config_home(None, Some("/h/".to_string())), Ok("/h/.config".to_string()));
}

#[test]
fn config_home_missing() {
    assert_eq!(config_home(None, Some(String::new())), Err(SettingsError::NoConfigHome));
    assert_eq!(config_home(None, None), Err(SettingsError::NoConfigHome));
}

#[test]
fn settings_file_location() {
    assert_eq!(
        Settings::path(None, Some("/h".to_string())),
        Ok("/h/.config/aa_editor/settings.json".to_string())
    );
    assert_eq!(
        Settings::dir(Some("/cfg".to_string()), None),
        Ok("/cfg/aa_editor".to_string())
    );
    assert_eq!(Settings::path(None, None), Err(SettingsError::NoConfigHome));
}

#[test]
fn default_settings_and_message() {
    assert_eq!(Settings::default().version, "0.0.1");
    assert_eq!(
        SettingsError::NoConfigHome.message(),
        "XDG_CONFIG_HOME is not set and HOME is unavailable"
    );
}
