use float_pigment::css::group::{drop_css_extension, StyleSheetImportIndex};

fn strings(v: &[&str]) -> Vec<String> {
    v.iter().map(|s| s.to_string()).collect()
}

fn index(entries: &[(&str, &[&str])]) -> StyleSheetImportIndex {
    let mut index = StyleSheetImportIndex::new();
    for (path, imports) in entries {
        index.insert(path, strings(imports));
    }
    index
}

#[test]
fn drops_the_style_sheet_extension() {
    assert_eq!(drop_css_extension("src/a.wxss"), "src/a");
    assert_eq!(drop_css_extension("src/a.css"), "src/a.css");
    assert_eq!(drop_css_extension("a.wxss.wxss"), "a.wxss");
    assert_eq!(drop_css_extension(".wxss"), "");
    assert_eq!(drop_css_extension("wxss"), "wxss");
}

#[test]
fn query_lists_imports_before_importers() {
    let mut index = index(&[("a.wxss", &["b", "c"]), ("b", &["c"]), ("c", &[])]);
    assert_eq!(index.query_and_mark_dependencies("a.wxss"), strings(&["c", "b", "a"]));
}

#[test]
fn query_never_hands_out_a_path_twice() {
    let mut index = index(&[("a", &["b", "c"]), ("b", &["c"]), ("c", &[]), ("d", &["c", "e"]), ("e", &[])]);
    assert_eq!(index.query_and_mark_dependencies("b"), strings(&["c", "b"]));
    assert_eq!(index.query_and_mark_dependencies("a"), strings(&["a"]));
    assert_eq!(index.query_and_mark_dependencies("d"), strings(&["e", "d"]));
    assert_eq!(index.query_and_mark_dependencies("d"), strings(&[]));
    assert_eq!(index.query_and_mark_dependencies("missing"), strings(&[]));
}

#[test]
fn query_follows_cycles_once() {
    let mut index = index(&[("a", &["b"]), ("b", &["a"])]);
    assert_eq!(index.query_and_mark_dependencies("a"), strings(&["b", "a"]));
}

#[test]
fn list_dependencies_recursive_and_not() {
    let index = index(&[("a", &["b", "c"]), ("b", &["c"]), ("c", &[])]);
    assert_eq!(index.list_dependencies("a.wxss", true), strings(&["c", "b", "c", "a"]));
    assert_eq!(index.list_dependencies("a", false), strings(&["b", "c"]));
    assert_eq!(index.list_dependencies("b.wxss", false), strings(&["c"]));
    assert_eq!(index.list_dependencies("c", false), strings(&[]));
    assert_eq!(index.list_dependencies("z", true), strings(&[]));
    assert_eq!(index.list_dependencies("z", false), strings(&[]));
}

#[test]
fn list_dependencies_stops_at_cycles_and_marks_nothing() {
    let mut index = index(&[("a", &["b"]), ("b", &["a", "x"])]);
    assert_eq!(index.list_dependencies("a", true), strings(&["b", "a"]));
    assert_eq!(index.list_dependencies("a", true), strings(&["b", "a"]));
    assert_eq!(index.query_and_mark_dependencies("a"), strings(&["b", "a"]));
    assert_eq!(index.list_dependencies("b", true), strings(&["a", "b"]));
}
