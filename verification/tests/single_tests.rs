use pdrive::config::Config;
use pdrive::error::ClientError;
use pdrive::error::UploadError;
use pdrive::single::classify_single_response;
use pdrive::single::single_upload_url;

#[test]
fn ok_response_returns_body_as_location() {
    let r = classify_single_response(200, String::from("files/abc"));
    assert_eq!(r.unwrap(), "files/abc");
}

#[test]
fn bad_request_surfaces_server_body() {
    let r = classify_single_response(400, String::from("name already taken"));
    match r {
        Err(UploadError::Client(e)) => assert_eq!(e.message, "name already taken"),
        _ => panic!("expected a client error"),
    }
}

#[test]
fn unauthorized_has_fixed_wrong_token_message() {
    let r = classify_single_response(401, String::from("<html>server internals</html>"));
    match r {
        Err(UploadError::Client(e)) => assert_eq!(e.message, "Wrong token"),
        _ => panic!("expected a client error"),
    }
}

#[test]
fn unexpected_status_is_a_protocol_violation() {
    let r = classify_single_response(503, String::from("try later"));
    match r {
        Err(UploadError::UnexpectedStatus(status, body)) => {
            assert_eq!(status, 503);
            assert_eq!(body, "try later");
        }
        _ => panic!("expected an unexpected-status error"),
    }
}

#[test]
fn upload_url_embeds_file_name() {
    let url = single_upload_url("http://h", "movie.mkv");
    assert_eq!(url, "http://h/upload/movie.mkv");
}

#[test]
fn client_error_display_line() {
    let e = ClientError { message: String::from("nope") };
    assert_eq!(e.display_string(), "Server error occured: nope");
}

#[test]
fn default_config_has_placeholders() {
    let c = Config::default();
    assert_eq!(c.token, "MISSING_TOKEN");
    assert_eq!(c.api_url, "MISSING_API");
    assert_eq!(c.concurrent_requests, 2);
}
