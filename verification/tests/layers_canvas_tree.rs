use aa_editor::canvas::{DragTracker, layer_interaction, layer_size, resized_layer_size, LayerInteractionKind, PickedWidget};
use aa_editor::layers::{layer_title, LayerRegistry};
use aa_editor::tree::{order_tree_entries, TreeEntry};

fn w(header: bool, resize_handle: bool, close_button: bool, panel: bool) -> PickedWidget {
    PickedWidget { header, resize_handle, close_button, panel }
}

#[test]
fn layer_titles() {
    assert_eq!(layer_title(2, 1), "Item 2 Layer 1");
    let mut r: LayerRegistry<&str> = LayerRegistry::new();
    assert_eq!(r.new_layer_title(0), None);
    assert_eq!(r.new_layer_title(3), Some("Item 3 Layer 1".to_string()));
    r.push_layer(3, "a");
    assert_eq!(r.new_layer_title(3), Some("Item 3 Layer 2".to_string()));
}

#[test]
fn registry_counts_layers() {
    let mut r: LayerRegistry<u32> = LayerRegistry::new();
    r.push_layer(1, 10);
    r.push_layer(1, 11);
    r.push_layer(4, 40);
    assert_eq!(r.layer_count(1), 2);
    assert_eq!(r.layer_count(4), 1);
    assert_eq!(r.layer_count(2), 0);
}

#[test]
fn removing_an_item_shifts_later_items_down() {
    let mut r: LayerRegistry<u32> = LayerRegistry::new();
    r.push_layer(1, 10);
    r.push_layer(2, 20);
    r.push_layer(2, 21);
    r.push_layer(3, 30);
    r.push_layer(5, 50);
    let taken = r.remove_item(2);
    assert_eq!(taken, vec![20, 21]);
    assert_eq!(r.layer_count(1), 1);
    assert_eq!(r.layer_count(2), 1);
    assert_eq!(r.layer_count(3), 0);
    assert_eq!(r.layer_count(4), 1);
    assert_eq!(r.layer_count(5), 0);
    let mut all = r.take_all();
    all.sort();
    assert_eq!(all, vec![(1, vec![10]), (2, vec![30]), (4, vec![50])]);
}

#[test]
fn removing_an_item_without_layers() {
    let mut r: LayerRegistry<u32> = LayerRegistry::new();
    r.push_layer(3, 30);
    assert_eq!(r.remove_item(1), Vec::<u32>::new());
    assert_eq!(r.layer_count(2), 1);
    assert_eq!(r.layer_count(3), 0);
}

#[test]
fn taking_all_layers_empties_the_registry() {
    let mut r: LayerRegistry<u32> = LayerRegistry::new();
    r.push_layer(7, 1);
    let all = r.take_all();
    assert_eq!(all, vec![(7, vec![1])]);
    assert_eq!(r.layer_count(7), 0);
    assert!(r.take_all().is_empty());
}

#[test]
fn layer_sizes_have_a_minimum() {
    assert_eq!(layer_size(100, 500), (240, 500));
    assert_eq!(layer_size(640, 10), (640, 160));
    assert_eq!(resized_layer_size(640, 480, -500, 20), (240, 500));
    assert_eq!(resized_layer_size(640, 480, 10, -10), (650, 470));
}

#[test]
fn press_on_header_moves() {
    let chain = vec![w(false, false, false, false), w(true, false, false, false), w(false, false, false, true)];
    assert_eq!(layer_interaction(&chain), Some(LayerInteractionKind::Move));
}

#[test]
fn press_on_handle_resizes() {
    let chain = vec![w(false, true, false, false), w(true, false, false, true)];
    assert_eq!(layer_interaction(&chain), Some(LayerInteractionKind::Resize));
}

#[test]
fn press_on_close_or_body_grabs_nothing() {
    let close = vec![w(false, false, true, false), w(true, false, false, true)];
    assert_eq!(layer_interaction(&close), None);
    let body = vec![w(false, false, false, false), w(false, false, false, true)];
    assert_eq!(layer_interaction(&body), None);
    let not_panel = vec![w(true, false, false, false)];
    assert_eq!(layer_interaction(&not_panel), None);
    assert_eq!(layer_interaction(&Vec::new()), None);
}

fn entry(name: &str, is_dir: bool) -> TreeEntry {
    TreeEntry {
        name: name.to_string(),
        path: format!("/c/{name}"),
        is_dir,
        is_file: !is_dir,
    }
}

#[test]
fn tree_shows_directories_first_then_mlt_files_by_name() {
    let entries = vec![
        entry("b.mlt", false),
        entry("notes.txt", false),
        entry("Zdir", true),
        entry("A.MLT", false),
        entry("adir", true),
        entry("c.mlt", false),
    ];
    let names: Vec<String> = order_tree_entries(entries).into_iter().map(|e| e.name).collect();
    assert_eq!(names, vec!["adir", "Zdir", "A.MLT", "b.mlt", "c.mlt"]);
}

#[test]
fn tree_keeps_order_of_equal_names() {
    let entries = vec![entry("X.mlt", false), entry("x.mlt", false), entry("a.mlt", false)];
    let names: Vec<String> = order_tree_entries(entries).into_iter().map(|e| e.name).collect();
    assert_eq!(names, vec!["a.mlt", "X.mlt", "x.mlt"]);
}

#[test]
fn tree_orders_names_by_lowercase() {
    let entries = vec![entry("Éa.mlt", false), entry("éb.mlt", false), entry("z.mlt", false)];
    let names: Vec<String> = order_tree_entries(entries).into_iter().map(|e| e.name).collect();
    assert_eq!(names, vec!["z.mlt", "Éa.mlt", "éb.mlt"]);
}

#[test]
fn tree_ignores_case_of_names() {
    let entries = vec![entry("B.mlt", false), entry("a.mlt", false), entry("C.Mlt", false)];
    let names: Vec<String> = order_tree_entries(entries).into_iter().map(|e| e.name).collect();
    assert_eq!(names, vec!["a.mlt", "B.mlt", "C.Mlt"]);
}

#[test]
fn tree_keeps_directories_without_mlt_extension() {
    let entries = vec![entry("x.txt", true), entry("y.txt", false)];
    let names: Vec<String> = order_tree_entries(entries).into_iter().map(|e| e.name).collect();
    assert_eq!(names, vec!["x.txt"]);
}

#[test]
fn drag_tracker_follows_a_drag() {
    let mut d: DragTracker<&str> = DragTracker::new();
    assert_eq!(d.current(), None);
    assert!(d.begin(Some("layer")));
    assert_eq!(d.current(), Some(&"layer"));
    assert_eq!(d.finish(), Some("layer"));
    assert_eq!(d.finish(), None);
    assert!(!d.begin(None));
    assert_eq!(d.current(), None);
}
