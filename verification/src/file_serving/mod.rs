//! Serving files from a directory: path confinement, precompressed
//! siblings, fallback to the index document, and the response itself.

pub mod disk;
pub mod handlers;
pub mod path_utils;
pub mod spa;

use crate::compression::CompressionType;
use crate::file_serving::path_utils::FsPath;
use crate::proxy::headers::Fields;
use vstd::prelude::*;

verus! {

/// A file beside the requested one that already holds its content in
/// encoded form.
pub struct PrecompressedFile {
    pub path: FsPath,
    pub compression: CompressionType,
}

/// A response to a file request, complete in memory.
pub struct FileResponse {
    pub content: Vec<u8>,
    pub mime_type: String,
    pub compression: CompressionType,
    pub headers: Vec<(String, String)>,
}

/// A `FileResponse` as plain values.
pub struct ResponseModel {
    pub content: Seq<u8>,
    pub mime_type: Seq<char>,
    pub compression: CompressionType,
    pub headers: Fields,
}

impl View for FileResponse {
    type V = ResponseModel;

    open spec fn view(&self) -> ResponseModel {
        ResponseModel {
            content: self.content@,
            mime_type: self.mime_type@,
            compression: self.compression,
            headers: self.headers.deep_view(),
        }
    }
}

} // verus!
