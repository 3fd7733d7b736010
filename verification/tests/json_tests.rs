use pdrive::digits::u32_to_string;
use pdrive::json::complete_body;
use pdrive::multipart::PartResult;

fn pr(n: u32, tag: &str) -> PartResult {
    PartResult { part_number: n, etag: String::from(tag) }
}

#[test]
fn decimal_renderings() {
    assert_eq!(u32_to_string(0), "0");
    assert_eq!(u32_to_string(7), "7");
    assert_eq!(u32_to_string(42), "42");
    assert_eq!(u32_to_string(1000), "1000");
    assert_eq!(u32_to_string(4294967295), "4294967295");
}

#[test]
fn empty_parts_body_is_empty_array() {
    let body = complete_body(&Vec::new());
    assert_eq!(body, "[]");
}

#[test]
fn one_part_body() {
    let body = complete_body(&vec![pr(1, "abc123")]);
    assert_eq!(body, "[{\"partNumber\":1,\"etag\":\"abc123\"}]");
}

#[test]
fn body_keeps_collection_order_and_tags() {
    let body = complete_body(&vec![pr(2, "e2"), pr(1, "e1"), pr(3, "e3")]);
    assert_eq!(
        body,
        "[{\"partNumber\":2,\"etag\":\"e2\"},{\"partNumber\":1,\"etag\":\"e1\"},{\"partNumber\":3,\"etag\":\"e3\"}]"
    );
}

#[test]
fn etag_quotes_backslashes_and_controls_are_escaped() {
    let body = complete_body(&vec![pr(1, "a\"b\\c\nd")]);
    assert_eq!(body, "[{\"partNumber\":1,\"etag\":\"a\\\"b\\\\c\\u000ad\"}]");
}
