use webdemo::api::describe;
use webdemo::api::ApiError;

#[test]
fn api_error_is_a_bad_request() {
    let e = ApiError { message: "an".to_owned() };
    assert_eq!(e.status_code(), 400);
}

#[test]
fn api_error_text_quotes_the_message() {
    let e = ApiError { message: "an".to_owned() };
    assert_eq!(e.to_text(), "api error: \"an\"");
}

#[test]
fn api_error_text_escapes_the_message() {
    let e = ApiError { message: "a \"b\"\n\\".to_owned() };
    assert_eq!(e.to_text(), "api error: \"a \\\"b\\\"\\n\\\\\"");
}

#[test]
fn describe_puts_the_prefix_in_front() {
    assert_eq!(describe("x"), "api error: x");
    assert_eq!(describe(""), "api error: ");
}
