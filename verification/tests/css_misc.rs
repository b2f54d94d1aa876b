use float_pigment::css::check_trait::CompatibilityCheck;
use float_pigment::css::ffi::{ColorValue, FfiErrorCode, FfiResult};
use float_pigment::css::parser::{
    is_url, resolve_relative_path, StyleParsingDebugMode, WarningKind,
    DEFAULT_INPUT_CSS_EXTENSION, DEFAULT_OUTPUT_CSS_EXTENSION,
};
use float_pigment::css::path::resolve;
use float_pigment::css::shorthand::{split_edges, split_hv};

#[test]
fn warning_codes_and_messages() {
    assert_eq!(WarningKind::Unknown.code(), 0x10000);
    assert_eq!(WarningKind::HooksGenerated.code(), 0x10001);
    assert_eq!(WarningKind::InvalidEnvDefaultValue.code(), 0x10019);
    assert_eq!(WarningKind::Unknown.static_message(), "unknown error");
    assert_eq!(
        WarningKind::ImportNotOnTop.static_message(),
        "@import should appear before any other code blocks"
    );
    assert_eq!(
        WarningKind::InvalidEnvDefaultValue.static_message(),
        "the default value of `env()` is invalid"
    );
    let all = [
        WarningKind::Unknown,
        WarningKind::RecursiveImports,
        WarningKind::ImportNotOnTop,
        WarningKind::MissingImportTarget,
    ];
    for a in all {
        for b in all {
            assert_eq!(a == b, a.code() == b.code());
        }
    }
    assert_eq!(StyleParsingDebugMode::NoDebug, StyleParsingDebugMode::NoDebug);
}

#[test]
fn ffi_results() {
    let r = FfiResult::ok(5u32);
    assert_eq!(r.value, 5);
    assert_eq!(r.err, FfiErrorCode::NoError);
    let r = FfiResult::error(FfiErrorCode::StrNullPointer, ColorValue::default());
    assert_eq!(r.err, FfiErrorCode::StrNullPointer);
    assert_eq!(r.value, ColorValue { red: 0, green: 0, blue: 0, alpha: 0 });
}

#[test]
fn path_resolution() {
    assert_eq!(resolve("a/b/c.css", "d.css"), "a/b/d.css");
    assert_eq!(resolve("a/b/c.css", "../../../x"), "../x");
    assert_eq!(resolve("/a/b/c.css", "../../../x"), "x");
    assert_eq!(resolve("a//./b/c", "./d//e"), "a/b/d/e");
    assert_eq!(resolve("", ""), "");
    assert_eq!(resolve("x", "/"), "");
}

#[test]
fn resolution_is_idempotent() {
    let p = resolve("src/./components//a.wxss", "../x/./y.wxss");
    assert_eq!(p, "src/x/y.wxss");
    let again = resolve("anything/else", &format!("/{}", p));
    assert_eq!(again, p);
}

#[test]
fn rooted_paths_ignore_the_base() {
    assert_eq!(resolve("a/b", "/c/../d"), resolve("x/y/z", "/c/../d"));
    assert_eq!(resolve("/a/b", "../../../c"), "c");
}

#[test]
fn import_extensions() {
    assert_eq!(DEFAULT_INPUT_CSS_EXTENSION, ".wxss");
    assert_eq!(DEFAULT_OUTPUT_CSS_EXTENSION, "");
    assert_eq!(resolve_relative_path("a.wxss", "b.wxss", "", ""), "b.wxss");
    assert_eq!(resolve_relative_path("a.wxss", "b.css", ".wxss", ".css"), "b.css");
    assert_eq!(resolve_relative_path("a.wxss", "b.txt", ".wxss", ".css"), "b.txt.css");
    assert_eq!(
        resolve_relative_path("a.wxss", "b.wxss", DEFAULT_INPUT_CSS_EXTENSION, DEFAULT_OUTPUT_CSS_EXTENSION),
        "b"
    );
}

#[test]
fn url_detection() {
    assert!(is_url("//cdn/x.css"));
    assert!(is_url("a:"));
    assert!(is_url("svn+ssh.v2-x:rest"));
    assert!(!is_url("1http://x"));
    assert!(!is_url("ht tp://x"));
    assert!(!is_url(""));
    assert!(!is_url("/x"));
    assert!(!is_url("abc"));
}

#[test]
fn shorthand_expansion() {
    assert_eq!(split_hv(vec![1]), (1, 1));
    assert_eq!(split_hv(vec![1, 2, 3]), (1, 2));
    assert_eq!(split_edges(vec![1]), (1, 1, 1, 1));
    assert_eq!(split_edges(vec![1, 2]), (1, 2, 1, 2));
    assert_eq!(split_edges(vec![1, 2, 3]), (1, 2, 3, 2));
    assert_eq!(split_edges(vec![1, 2, 3, 4]), (1, 2, 3, 4));
}

#[test]
fn compatibility_checks_run() {
    <Vec<Option<u32>> as CompatibilityCheck>::check();
    <Box<[String]> as CompatibilityCheck>::check();
}
