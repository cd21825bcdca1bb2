//! Frames of the internal wire protocol.
use vstd::prelude::*;

verus! {

/// One message of the internal protocol.
pub enum Frame {
    DslQuery(String),
    DslResponse(Vec<u8>),
    FileUploadChunk(Vec<u8>),
    FileUploadFinish,
    FileDownloadInit(String),
    FileDownloadChunk(Vec<u8>),
    FileDownloadFinish,
    Heartbeat,
    Error(String),
}

} // verus!
