use aa_editor::project_file::{
    default_mlt_collection_directory_path, default_project_file_version, ProjectFile, ProjectItem,
};
use aa_editor::state::{editor_texts, ProjectState};

fn strings(v: &[&str]) -> Vec<String> {
    v.iter().map(|s| s.to_string()).collect()
}

#[test]
fn default_project_file() {
    let p = ProjectFile::default();
    assert_eq!(p.version, "0.0.1");
    assert_eq!(p.mlt_collection_directory_path, "~/.local/share/aa_editor/mlt_collections");
    assert!(p.items.is_empty());
    assert_eq!(default_project_file_version(), "0.0.1");
    assert_eq!(default_mlt_collection_directory_path(), "~/.local/share/aa_editor/mlt_collections");
}

#[test]
fn texts_of_items() {
    let p = ProjectFile {
        version: "0.0.1".to_string(),
        mlt_collection_directory_path: "/c".to_string(),
        items: vec![ProjectItem { text: "a".to_string() }, ProjectItem { text: "b".to_string() }],
    };
    assert_eq!(p.to_texts(), strings(&["a", "b"]));
}

#[test]
fn set_texts_then_to_texts() {
    let mut p = ProjectFile::default();
    p.version = "9".to_string();
    p.set_texts(strings(&["x", "", "z"]));
    assert_eq!(p.to_texts(), strings(&["x", "", "z"]));
    assert_eq!(p.version, "9");
    assert_eq!(p.items[2], ProjectItem { text: "z".to_string() });
}

#[test]
fn editors_for_no_texts() {
    assert_eq!(editor_texts(Vec::new()), strings(&[""]));
    assert_eq!(editor_texts(strings(&["a"])), strings(&["a"]));
}

#[test]
fn new_state_title() {
    let s = ProjectState::new();
    assert_eq!(s.title(), "AA Editor - Untitled");
    assert_eq!(s.save_target(), None);
}

#[test]
fn dirty_marker_in_title() {
    let mut s = ProjectState::new();
    assert!(s.mark_dirty());
    assert!(!s.mark_dirty());
    assert_eq!(s.title(), "AA Editor - Untitled *");
    s.mark_clean(Some("/p/work.aa_editor_proj".to_string()));
    assert_eq!(s.title(), "AA Editor - work.aa_editor_proj");
    assert_eq!(s.save_target(), Some("/p/work.aa_editor_proj".to_string()));
}

#[test]
fn applying_a_project() {
    let mut s = ProjectState::new();
    s.mark_dirty();
    let mut p = ProjectFile::default();
    p.set_texts(strings(&["one", "two"]));
    let texts = s.apply_project_file(p.clone(), "/p/a.aa_editor_proj".to_string());
    assert_eq!(texts, strings(&["one", "two"]));
    assert!(!s.dirty);
    assert_eq!(s.project_file, p);
    assert_eq!(s.title(), "AA Editor - a.aa_editor_proj");
}

#[test]
fn applying_an_empty_project_gives_one_editor() {
    let mut s = ProjectState::new();
    let texts = s.apply_project_file(ProjectFile::default(), "/p/e".to_string());
    assert_eq!(texts, strings(&[""]));
}

#[test]
fn saving_keeps_metadata() {
    let mut s = ProjectState::new();
    s.project_file.mlt_collection_directory_path = "/coll".to_string();
    s.mark_dirty();
    let p = s.project_for_save(strings(&["t1", "t2"]));
    assert_eq!(p.mlt_collection_directory_path, "/coll");
    assert_eq!(p.to_texts(), strings(&["t1", "t2"]));
    s.saved(p.clone(), "/p/s.aa_editor_proj".to_string());
    assert_eq!(s.project_file, p);
    assert_eq!(s.title(), "AA Editor - s.aa_editor_proj");
}

#[test]
fn collection_directory_resolved() {
    let s = ProjectState::new();
    assert_eq!(
        s.mlt_collection_directory(Some("/home/u".to_string())),
        "/home/u/.local/share/aa_editor/mlt_collections"
    );
    assert_eq!(s.mlt_collection_directory(None), "~/.local/share/aa_editor/mlt_collections");
}
