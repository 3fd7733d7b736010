use pdrive::error::UploadError;
use pdrive::multipart::classify_complete_response;
use pdrive::multipart::finish_url;
use pdrive::multipart::init_url;
use pdrive::multipart::part_response_ok;
use pdrive::multipart::part_url;
use pdrive::multipart::UploadSession;

#[test]
fn session_urls_embed_key_upload_id_and_part_number() {
    let s = UploadSession::new(String::from("key1"), String::from("uid9"));
    assert_eq!(init_url("http://h", "key1"), "http://h/upload-part/init/key1");
    assert_eq!(
        part_url("http://h", &s, 7),
        "http://h/upload-part/put/key1/uid9?partNumber=7"
    );
    assert_eq!(
        part_url("http://h", &s, 12),
        "http://h/upload-part/put/key1/uid9?partNumber=12"
    );
    assert_eq!(finish_url("http://h", &s), "http://h/upload-part/finish/key1/uid9");
}

#[test]
fn only_a_200_lets_a_part_through() {
    assert!(part_response_ok(200));
    assert!(!part_response_ok(400));
    assert!(!part_response_ok(401));
    assert!(!part_response_ok(500));
}

#[test]
fn completion_ok_returns_location() {
    let r = classify_complete_response(200, String::from("files/big.bin"));
    assert_eq!(r.unwrap(), "files/big.bin");
}

#[test]
fn completion_failure_is_a_protocol_violation() {
    let r = classify_complete_response(500, String::from("incomplete"));
    match r {
        Err(UploadError::UnexpectedStatus(status, body)) => {
            assert_eq!(status, 500);
            assert_eq!(body, "incomplete");
        }
        _ => panic!("expected an unexpected-status error"),
    }
}
