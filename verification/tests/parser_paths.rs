use float_pigment::css::parser::{is_url, resolve_relative_path};

#[test]
fn resolve_relative_path_test() {
    assert_eq!(
        resolve_relative_path("/src/components/a.wxss", "./hello.wxss", ".wxss", ".css"),
        "src/components/hello.css"
    );

    assert_eq!(
        resolve_relative_path("src/components/a.wxss", "./hello.wxss", ".wxss", ".css"),
        "src/components/hello.css"
    );

    assert_eq!(
        resolve_relative_path("src/components/a.wxss", "../hello.wxss", ".wxss", ".css"),
        "src/hello.css"
    );

    assert_eq!(
        resolve_relative_path("src/components/a.wxss", ".././hello.wxss", ".wxss", ".css"),
        "src/hello.css"
    );

    assert_eq!(
        resolve_relative_path(
            "src/components/test/a.wxss",
            "../../test/../hello.wxss",
            ".wxss",
            ".css"
        ),
        "src/hello.css"
    );

    assert_eq!(
        resolve_relative_path(
            "src/components/test/a.wxss",
            "../../test/../hello.wxss",
            "",
            ".css"
        ),
        "src/hello.wxss.css"
    );

    assert_eq!(
        resolve_relative_path(
            "src/components/a.wxss",
            "../../../../../hello.wxss",
            ".wxss",
            ".css"
        ),
        "../../../hello.css"
    );

    assert_eq!(
        resolve_relative_path("src/components/a.wxss", "/hello.wxss", ".wxss", ".css"),
        "hello.css"
    );

    assert_eq!(
        resolve_relative_path("src/components/././a.wxss", "/hello.wxss", ".wxss", ".css"),
        "hello.css"
    );

    assert_eq!(
        resolve_relative_path(
            "src/components/.\\.\\a.wxss",
            "/hello.wxss",
            ".wxss",
            ".css"
        ),
        "hello.css"
    );

    assert!(is_url("https://wxweb/float-pigment"));
    assert!(is_url("http://wxweb/float-pigment"));
    assert!(is_url("data:application/octet-stream;base64,AAEAAAALAIAAAwAwR1NVQrD+s+0AAAE4AAAAQk9TLzJAKEx+AAABfAAAAFZjbWFw65cFHQAAAhwAAAJQZ2x5ZvCRR/EAAASUAAAKtGhlYWQLKIN9AAAA4AAAADZoaGVhCCwD+gAAALwAAAAkaG10eEJo//8AA="));
    assert!(!is_url("www.wxweb/float-pigment"));
    assert!(!is_url("www.wxweb/float-pigment"));
}
