//! Safe zip extraction core.
//!
//! Given the bytes of a zip archive, the library decides, entry by entry,
//! what may be written where under a target directory: it decodes each
//! stored name, sanitizes it against path traversal, detects and optionally
//! strips a shared toplevel directory, and hands back the decompressed
//! content together with the sanitized relative path and any POSIX
//! permission bits.  The caller performs the actual filesystem writes.
//!
//! The archive reader is built with the deflate and bzip2 codecs; an
//! archive compressed with another method fails with the reader's
//! unsupported-method error instead of extracting.

pub mod archive;
pub mod decode;
pub mod laws;
pub mod paths;
pub mod plan;
pub mod session;

use vstd::prelude::*;

verus! {

/// The errors an extraction can end with.
#[derive(Debug)]
pub enum ZipExtractError {
    /// Reading the source or writing an output failed.
    Io(std::io::Error),
    /// The archive reader rejected the container or an entry.
    Zip(zip::result::ZipError),
    /// Stripping was active but an entry's sanitized path did not begin
    /// with the shared toplevel component.  The planner proves this cannot
    /// arise, but the error taxonomy models it rather than assuming it.
    StripToplevel { toplevel: Vec<u8>, path: Vec<u8> },
}

} // verus!
