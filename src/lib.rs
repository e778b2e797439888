//! Chunked upload of a local file to a blob-storage object as a list of blocks.
//!
//! The library holds the decisions of an upload: how a file is cut into
//! chunks, how each block is named after its byte offset, and the step-by-step
//! session that reacts to the outcome of each read, block upload and commit.
//! The caller performs the I/O that each step asks for.
pub mod block_id;
pub mod chunking;
pub mod error;
pub mod block_list;
pub mod azure_blob_uploader;
