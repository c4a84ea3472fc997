//! A minimal content-addressable object store.
//!
//! Objects (blobs, trees, commits) are encoded as `"<kind> <size>\0" +
//! payload`, compressed with zlib, and named by the SHA-1 digest of the
//! uncompressed encoded bytes. This crate holds the verified core: the
//! header codec, the tree-entry codec, digest and path derivation, and the
//! byte-level write/read pipeline. File and console I/O live outside it.

use vstd::prelude::*;

pub mod bytes;
pub mod digest;
pub mod header;
pub mod store;
pub mod tree;
pub mod zlib;

verus! {

/// The kind of a stored object. It determines how the payload bytes are
/// interpreted and appears as the first token of the encoded header.
#[derive(Clone, Copy, Debug, PartialEq, Eq, Structural)]
pub enum Kind {
    Blob,
    Commit,
    Tree,
}

/// The error taxonomy of the store. The parsing and pipeline errors are
/// produced by the verified core; `StorageIo` and `ObjectNotFound` are
/// reserved for the filesystem shell around it.
#[derive(Clone, Copy, Debug, PartialEq, Eq, Structural)]
pub enum Error {
    /// A filesystem open/create/rename failure.
    StorageIo,
    /// No stored file corresponds to the requested digest.
    ObjectNotFound,
    /// The compressed stream is corrupt or truncated.
    Decompression,
    /// The object header lacks a NUL within the bounded window, lacks a
    /// space separator, or names an unrecognized kind.
    MalformedHeader,
    /// The header's size token is not a decimal number that fits in 64 bits.
    InvalidSize,
    /// A declared size does not match the number of payload bytes present.
    SizeMismatch,
    /// A tree payload chunk has no space between mode and name.
    MalformedTreeEntry,
    /// A tree payload ends with fewer than 20 digest bytes after an entry's
    /// NUL terminator.
    TruncatedTreeEntry,
    /// An operation received an object kind it does not support.
    UnsupportedKind,
}

/// The byte spelling of a kind, as it appears in an object header.
pub open spec fn spec_kind_bytes(k: Kind) -> Seq<u8> {
    match k {
        Kind::Blob => seq![98u8, 108u8, 111u8, 98u8],
        Kind::Commit => seq![99u8, 111u8, 109u8, 109u8, 105u8, 116u8],
        Kind::Tree => seq![116u8, 114u8, 101u8, 101u8],
    }
}

/// The kind named by a header's first token, if it is one of the three
/// recognized spellings.
pub open spec fn spec_kind_of(token: Seq<u8>) -> Option<Kind> {
    if token == spec_kind_bytes(Kind::Blob) {
        Some(Kind::Blob)
    } else if token == spec_kind_bytes(Kind::Commit) {
        Some(Kind::Commit)
    } else if token == spec_kind_bytes(Kind::Tree) {
        Some(Kind::Tree)
    } else {
        None
    }
}

/// The ASCII spelling of a kind, for rendering.
pub fn kind_bytes(k: Kind) -> (r: Vec<u8>)
    ensures
        r@ == spec_kind_bytes(k),
{
    let mut out: Vec<u8> = Vec::new();
    match k {
        Kind::Blob => {
            out.push(98u8);
            out.push(108u8);
            out.push(111u8);
            out.push(98u8);
        }
        Kind::Commit => {
            out.push(99u8);
            out.push(111u8);
            out.push(109u8);
            out.push(109u8);
            out.push(105u8);
            out.push(116u8);
        }
        Kind::Tree => {
            out.push(116u8);
            out.push(114u8);
            out.push(101u8);
            out.push(101u8);
        }
    }
    proof {
        assert(out@ =~= spec_kind_bytes(k));
    }
    out
}

} // verus!
