use vstd::prelude::*;

verus! {

/// A recoverable, displayable failure reported by the server on the
/// single-shot path (a bad request or a rejected credential).
#[derive(Debug, Clone)]
pub struct ClientError {
    pub message: String,
}

impl ClientError {
    /// The human-readable line this error is reported with.
    pub fn display_string(&self) -> (r: String)
        ensures
            r@ == "Server error occured: "@ + self.message@,
    {
        let mut s = String::from_str("Server error occured: ");
        s.append(self.message.as_str());
        s
    }
}

/// Everything the upload core can classify out of a server response:
/// a recoverable client error, or a status the protocol does not allow,
/// reported together with the response body.
#[derive(Debug, Clone)]
pub enum UploadError {
    Client(ClientError),
    UnexpectedStatus(u16, String),
}

} // verus!
