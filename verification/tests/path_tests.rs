use madsim_tonic::path::{service_name, service_of};
use tonic::codegen::http::uri::PathAndQuery;

#[test]
fn service_name_is_second_piece() {
    assert_eq!(service_name("/echo/Get"), Some("echo"));
    assert_eq!(service_name("/echo/Stream"), Some("echo"));
    assert_eq!(service_name("/echo"), Some("echo"));
    assert_eq!(service_name("/"), Some(""));
    assert_eq!(service_name("//Get"), Some(""));
    assert_eq!(service_name("a/b/c"), Some("b"));
}

#[test]
fn service_name_absent_without_slash() {
    assert_eq!(service_name(""), None);
    assert_eq!(service_name("echo"), None);
}

#[test]
fn service_name_counts_characters_not_bytes() {
    assert_eq!(service_name("/\u{e9}cho/Get"), Some("\u{e9}cho"));
    assert_eq!(service_name("\u{4e16}\u{754c}/svc/m"), Some("svc"));
}

#[test]
fn service_of_drops_the_query() {
    let with_query = PathAndQuery::from_static("/echo?a/b");
    assert_eq!(service_of(&with_query), Some("echo"));
    let plain = PathAndQuery::from_static("/echo/Get?x=1");
    assert_eq!(service_of(&plain), Some("echo"));
}
