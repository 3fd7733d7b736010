use vstd::prelude::*;
use crate::error::ClientError;
use crate::error::UploadError;

verus! {

/// The target of a single-shot upload: the base API URL with the file's
/// base name embedded in the path.
pub fn single_upload_url(api_url: &str, file_name: &str) -> (r: String)
    ensures
        r@ == api_url@ + "/upload/"@ + file_name@,
{
    let mut s = api_url.to_owned();
    s.append("/upload/");
    s.append(file_name);
    s
}

/// Classify the server's answer to a single-shot upload.
///
/// A 200 hands the response body back as the object's relative location.
/// A 400 is a recoverable error carrying the server's body as its message,
/// and a 401 a recoverable error with a fixed wrong-credential message that
/// does not echo the body. Every other status is a protocol violation,
/// reported with the status and the body.
pub fn classify_single_response(status: u16, body: String) -> (r: Result<String, UploadError>)
    ensures
        status == 200 ==> (r matches Ok(loc) && loc@ == body@),
        status == 400 ==> (r matches Err(UploadError::Client(e)) && e.message@ == body@),
        status == 401 ==> (r matches Err(UploadError::Client(e)) && e.message@ == "Wrong token"@),
        status != 200 && status != 400 && status != 401 ==> (r matches Err(
            UploadError::UnexpectedStatus(s, b),
        ) && s == status && b@ == body@),
{
    if status == 200 {
        Ok(body)
    } else if status == 400 {
        Err(UploadError::Client(ClientError { message: body }))
    } else if status == 401 {
        Err(UploadError::Client(ClientError { message: String::from_str("Wrong token") }))
    } else {
        Err(UploadError::UnexpectedStatus(status, body))
    }
}

} // verus!
