//! The verified core of a file uploader for an object-storage HTTP API.
//!
//! A file at or below a fixed threshold goes up in one request; a larger
//! one is split into bounded-size chunks that are uploaded as the parts
//! of a multipart session under bounded concurrency and then assembled
//! by a completion call. This crate holds everything that can be decided
//! away from the network: splitting bytes into chunks, choosing the
//! upload path, building the request targets, classifying server
//! responses, tracking part dispatch and confirmation, and rendering the
//! completion call's JSON body. The thin shell that performs the actual
//! HTTP requests and file reads hands plain values in and out of these
//! functions.

use vstd::prelude::*;

pub mod chunk;
pub mod config;
pub mod digits;
pub mod error;
pub mod json;
pub mod multipart;
pub mod single;
pub mod tracker;

verus! {

/// Files at or below this size go up in one request; larger files are split
/// into chunks of exactly this many bytes (the last chunk may be shorter).
pub const FILE_SPLIT_SIZE: usize = 50 * 1024 * 1024;

/// The fixed width of the part-upload worker pool. Deliberately a
/// constant of the multipart path: the configured `concurrent_requests`
/// knob is not consulted there.
pub const PART_UPLOAD_CONCURRENCY: usize = 2;

/// Which upload path a file of a given size takes.
#[derive(PartialEq, Eq, Structural, Clone, Copy, Debug)]
pub enum UploadRoute {
    SingleShot,
    Multipart,
}

/// Pick the upload path from the file size: single-shot at or below the
/// split threshold, multipart above it.
pub fn route_for_size(size: u64) -> (r: UploadRoute)
    ensures
        r == UploadRoute::SingleShot <==> size <= FILE_SPLIT_SIZE as u64,
        r == UploadRoute::Multipart <==> size > FILE_SPLIT_SIZE as u64,
{
    if size <= FILE_SPLIT_SIZE as u64 {
        UploadRoute::SingleShot
    } else {
        UploadRoute::Multipart
    }
}

/// The user-visible result of a finished upload: the returned relative
/// location joined onto the configured base URL.
pub fn final_url(api_url: &str, location: &str) -> (r: String)
    ensures
        r@ == api_url@ + "/"@ + location@,
{
    let mut s = api_url.to_owned();
    s.append("/");
    s.append(location);
    s
}

} // verus!
