use vstd::prelude::*;
use crate::digits::spec_dec_str;
use crate::digits::push_decimal;
use crate::error::UploadError;

verus! {

/// One multipart transfer as the server tracks it: the logical object
/// name and the opaque session token the init call assigned. Referenced,
/// never changed, by every later part and completion call.
#[derive(Debug, Clone)]
pub struct UploadSession {
    pub key: String,
    pub upload_id: String,
}

impl UploadSession {
    pub fn new(key: String, upload_id: String) -> (s: UploadSession)
        ensures
            s.key@ == key@,
            s.upload_id@ == upload_id@,
    {
        UploadSession { key, upload_id }
    }
}

/// The server's confirmation for one uploaded chunk: the 1-based part
/// number it was stored under, and the etag that proves receipt.
#[derive(Debug, Clone)]
pub struct PartResult {
    pub part_number: u32,
    pub etag: String,
}

/// The target of the multipart init call for an object named `key`.
pub fn init_url(api_url: &str, key: &str) -> (r: String)
    ensures
        r@ == api_url@ + "/upload-part/init/"@ + key@,
{
    let mut s = api_url.to_owned();
    s.append("/upload-part/init/");
    s.append(key);
    s
}

/// The target of the upload of one part, carrying the session identifiers
/// in the path and the 1-based part number as a query parameter.
pub fn part_url(api_url: &str, session: &UploadSession, part_number: u32) -> (r: String)
    ensures
        r@ == api_url@ + "/upload-part/put/"@ + session.key@ + "/"@ + session.upload_id@
            + "?partNumber="@ + spec_dec_str(part_number as int),
{
    let mut s = api_url.to_owned();
    s.append("/upload-part/put/");
    s.append(session.key.as_str());
    s.append("/");
    s.append(session.upload_id.as_str());
    s.append("?partNumber=");
    push_decimal(part_number, &mut s);
    s
}

/// The target of the completion call for a session.
pub fn finish_url(api_url: &str, session: &UploadSession) -> (r: String)
    ensures
        r@ == api_url@ + "/upload-part/finish/"@ + session.key@ + "/"@ + session.upload_id@,
{
    let mut s = api_url.to_owned();
    s.append("/upload-part/finish/");
    s.append(session.key.as_str());
    s.append("/");
    s.append(session.upload_id.as_str());
    s
}

/// Whether the answer to one part upload lets the transfer go on: only a
/// 200 does; anything else is a protocol violation that aborts the upload.
pub fn part_response_ok(status: u16) -> (r: bool)
    ensures
        r <==> status == 200,
{
    status == 200
}

/// Classify the server's answer to the completion call: a 200 hands the
/// body back as the final location, anything else is a protocol violation
/// reported with the status and the body.
pub fn classify_complete_response(status: u16, body: String) -> (r: Result<String, UploadError>)
    ensures
        status == 200 ==> (r matches Ok(loc) && loc@ == body@),
        status != 200 ==> (r matches Err(UploadError::UnexpectedStatus(s, b)) && s == status && b@
            == body@),
{
    if status == 200 {
        Ok(body)
    } else {
        Err(UploadError::UnexpectedStatus(status, body))
    }
}

} // verus!
