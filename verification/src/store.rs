//! The object store pipeline at the byte level.
//!
//! Writing encodes the header and payload, names the object by the SHA-1
//! digest of those bytes, and compresses them for storage. Reading inverts
//! this: decompress, decode the header, expose the payload. Where the
//! resulting bytes are filed, and how the rename makes them visible
//! atomically, is the filesystem shell's concern, not this module's.

use vstd::prelude::*;
use crate::Kind;
use crate::Error;
use crate::spec_kind_bytes;
use crate::kind_bytes;
use crate::bytes::{spec_find, copy_range, push_all};
use crate::header::{spec_decode_header, spec_encode_header, encode_header, decode_header,
    lemma_header_round_trip};
use crate::digest::{spec_sha1, sha1_bytes, spec_hex, hex_lower};
use crate::tree::{TreeEntry, EntryModel, spec_decode_tree, decode_tree};
use crate::zlib::{spec_inflate, zlib_compress, zlib_decompress};

verus! {

/// A decoded object: its kind, the size its header declared, and the
/// payload bytes that followed the header.
#[derive(Debug, PartialEq, Eq)]
pub struct Object {
    pub kind: Kind,
    pub expected_size: u64,
    pub content: Vec<u8>,
}

/// The mathematical shape of a decoded object.
pub ghost struct ObjectModel {
    pub kind: Kind,
    pub expected_size: u64,
    pub content: Seq<u8>,
}

impl View for Object {
    type V = ObjectModel;

    open spec fn view(&self) -> ObjectModel {
        ObjectModel { kind: self.kind, expected_size: self.expected_size, content: self.content@ }
    }
}

/// The full encoded form of an object: header then payload.
pub open spec fn spec_encode_object(k: Kind, content: Seq<u8>) -> Seq<u8>
    recommends
        content.len() <= u64::MAX,
{
    spec_encode_header(k, content.len() as u64) + content
}

/// The digest that names an object: the SHA-1 of its encoded form.
pub open spec fn spec_object_digest(k: Kind, content: Seq<u8>) -> Seq<u8> {
    spec_sha1(spec_encode_object(k, content))
}

/// What decoding an uncompressed object stream yields.
pub open spec fn spec_decode_object(s: Seq<u8>) -> Result<ObjectModel, Error> {
    match spec_decode_header(s) {
        Ok(p) => Ok(
            ObjectModel {
                kind: p.0,
                expected_size: p.1,
                content: s.skip(spec_find(s, 0, 0) + 1),
            },
        ),
        Err(e) => Err(e),
    }
}

/// Encodes an object, uncompressed: header then payload.
pub fn encode_object(k: Kind, content: &Vec<u8>) -> (r: Vec<u8>)
    ensures
        r@ == spec_encode_object(k, content@),
{
    let mut out = encode_header(k, content.len() as u64);
    push_all(&mut out, content);
    out
}

/// A write's outcome: the digest that names the object, and the compressed
/// bytes that the store files under it.
#[derive(Debug, PartialEq, Eq)]
pub struct EncodedObject {
    pub digest: Vec<u8>,
    pub compressed: Vec<u8>,
}

/// Builds the store's on-disk record for an object. The declared size must
/// match the content, as the header records it: a mismatch is a caller
/// contract violation and yields `SizeMismatch` rather than a corrupt
/// object.
pub fn write_object(kind: Kind, declared_size: u64, content: &Vec<u8>) -> (r: Result<
    EncodedObject,
    Error,
>)
    ensures
        r matches Ok(w) ==> declared_size == content@.len() && w.digest@ == spec_object_digest(
            kind,
            content@,
        ) && w.digest@.len() == 20 && spec_inflate(w.compressed@) == Some(
            spec_encode_object(kind, content@),
        ),
        r is Err ==> declared_size != content@.len() && r == Err::<EncodedObject, Error>(
            Error::SizeMismatch,
        ),
        declared_size == content@.len() ==> r is Ok,
{
    if declared_size != content.len() as u64 {
        return Err(Error::SizeMismatch);
    }
    let encoded = encode_object(kind, content);
    let digest = sha1_bytes(&encoded);
    let compressed = zlib_compress(&encoded);
    Ok(EncodedObject { digest, compressed })
}

/// Reads an object back from its stored, compressed bytes: decompresses,
/// decodes the header, and exposes the remaining bytes as the payload.
pub fn read_object(compressed: &Vec<u8>) -> (r: Result<Object, Error>)
    ensures
        spec_inflate(compressed@) matches Some(raw) ==> (match spec_decode_object(raw) {
            Ok(m) => r matches Ok(o) && o@ == m,
            Err(e) => r == Err::<Object, Error>(e),
        }),
        spec_inflate(compressed@) is None ==> r == Err::<Object, Error>(Error::Decompression),
{
    let raw = match zlib_decompress(compressed) {
        Ok(v) => v,
        Err(e) => {
            return Err(e);
        }
    };
    let header = match decode_header(&raw) {
        Ok(t) => t,
        Err(e) => {
            return Err(e);
        }
    };
    let content = copy_range(&raw, header.2, raw.len());
    proof {
        assert(content@ =~= raw@.skip(spec_find(raw@, 0, 0) + 1));
    }
    Ok(Object { kind: header.0, expected_size: header.1, content })
}

/// The payload that `cat-file -p` prints: blobs only, and the byte count
/// must match the size the header declared.
pub fn blob_payload(obj: Object) -> (r: Result<Vec<u8>, Error>)
    ensures
        obj@.kind is Blob && obj@.expected_size == obj@.content.len() ==> (r matches Ok(c) && c@
            == obj@.content),
        !(obj@.kind is Blob) ==> r == Err::<Vec<u8>, Error>(Error::UnsupportedKind),
        obj@.kind is Blob && obj@.expected_size != obj@.content.len() ==> r == Err::<
            Vec<u8>,
            Error,
        >(Error::SizeMismatch),
{
    match obj.kind {
        Kind::Blob => {
            if obj.expected_size == obj.content.len() as u64 {
                Ok(obj.content)
            } else {
                Err(Error::SizeMismatch)
            }
        },
        _ => Err(Error::UnsupportedKind),
    }
}

/// The entries that `ls-tree` lists: trees only.
pub fn tree_entries(obj: &Object) -> (r: Result<Vec<TreeEntry>, Error>)
    ensures
        !(obj@.kind is Tree) ==> r == Err::<Vec<TreeEntry>, Error>(Error::UnsupportedKind),
        obj@.kind is Tree ==> (spec_decode_tree(obj@.content) matches Ok(ms) ==> (r matches Ok(es)
            && crate::tree::models_of(es@) == ms)),
        obj@.kind is Tree ==> (spec_decode_tree(obj@.content) matches Err(e) ==> r == Err::<
            Vec<TreeEntry>,
            Error,
        >(e)),
{
    match obj.kind {
        Kind::Tree => decode_tree(&obj.content),
        _ => Err(Error::UnsupportedKind),
    }
}

/// The mode column of a display line: zero-padded on the left to six
/// characters.
pub open spec fn spec_pad6(mode: Seq<u8>) -> Seq<u8> {
    if mode.len() >= 6 {
        mode
    } else {
        Seq::new((6 - mode.len()) as nat, |i: int| 48u8) + mode
    }
}

/// One full `ls-tree` display line: padded mode, space, the child object's
/// kind, space, the 40-character hex digest, four spaces, the entry name,
/// and a newline.
pub open spec fn spec_entry_line(e: EntryModel, child_kind: Kind) -> Seq<u8> {
    spec_pad6(e.mode) + seq![32u8] + spec_kind_bytes(child_kind) + seq![32u8] + spec_hex(
        e.child_digest,
    ) + seq![32u8, 32u8, 32u8, 32u8] + e.name + seq![10u8]
}

/// Renders one full `ls-tree` display line. The child's kind comes from
/// the caller, which resolves it by reading the child object itself.
pub fn format_entry_line(e: &TreeEntry, child_kind: Kind) -> (r: Vec<u8>)
    ensures
        r@ == spec_entry_line(e@, child_kind),
{
    let mut out: Vec<u8> = Vec::new();
    let ml = e.mode.len();
    if ml < 6 {
        let pad = 6 - ml;
        let mut i: usize = 0;
        while i < pad
            invariant
                0 <= i <= pad,
                out@.len() == i,
                forall|j: int| 0 <= j < i ==> out@[j] == 48u8,
            decreases pad - i,
        {
            out.push(48u8);
            i = i + 1;
        }
        proof {
            assert(out@ =~= Seq::new((6 - e.mode@.len()) as nat, |j: int| 48u8));
        }
    }
    push_all(&mut out, &e.mode);
    proof {
        assert(out@ =~= spec_pad6(e@.mode));
    }
    out.push(32u8);
    let kb = kind_bytes(child_kind);
    push_all(&mut out, &kb);
    out.push(32u8);
    let hx = hex_lower(&e.child_digest);
    push_all(&mut out, &hx);
    out.push(32u8);
    out.push(32u8);
    out.push(32u8);
    out.push(32u8);
    push_all(&mut out, &e.name);
    out.push(10u8);
    proof {
        assert(out@ =~= spec_entry_line(e@, child_kind));
    }
    out
}

/// Renders the name-only `ls-tree` display line: the entry's name and a
/// newline.
pub fn format_entry_name_line(e: &TreeEntry) -> (r: Vec<u8>)
    ensures
        r@ == e@.name + seq![10u8],
{
    let mut out: Vec<u8> = Vec::new();
    push_all(&mut out, &e.name);
    out.push(10u8);
    proof {
        assert(out@ =~= e@.name + seq![10u8]);
    }
    out
}

/// Decoding inverts encoding: the encoded form of any object parses back
/// to the same kind, the payload's exact length, and the same payload.
pub proof fn lemma_object_round_trip(k: Kind, content: Seq<u8>)
    requires
        content.len() <= u64::MAX,
    ensures
        spec_decode_object(spec_encode_object(k, content)) matches Ok(m) && m.kind == k
            && m.expected_size == content.len() && m.content == content,
{
    lemma_header_round_trip(k, content.len() as u64, content);
    let s = spec_encode_object(k, content);
    let hl = spec_encode_header(k, content.len() as u64).len() as int;
    assert(spec_find(s, 0, 0) == hl - 1);
    assert(s.skip(hl) =~= content);
}

/// Reading back what a write stored yields the object that was written:
/// a successful write leaves compressed bytes that inflate to the encoded
/// object, and decoding those recovers the kind, the payload's exact
/// length, and the payload.
pub proof fn lemma_store_round_trip(k: Kind, content: Seq<u8>, compressed: Seq<u8>)
    requires
        content.len() <= u64::MAX,
        spec_inflate(compressed) == Some(spec_encode_object(k, content)),
    ensures
        spec_inflate(compressed) matches Some(raw) && spec_decode_object(raw) matches Ok(m)
            && m.kind == k && m.expected_size == content.len() && m.content == content,
{
    lemma_object_round_trip(k, content);
}

/// Writing is deterministic: the same kind and content always produce the
/// same digest, hence the same hex name and the same storage path, so two
/// writes of one object leave one stored file.
pub proof fn lemma_write_deterministic(k: Kind, content: Seq<u8>, d1: Seq<u8>, d2: Seq<u8>)
    requires
        d1 == spec_object_digest(k, content),
        d2 == spec_object_digest(k, content),
    ensures
        d1 == d2,
        spec_hex(d1) == spec_hex(d2),
        spec_hex(d1.take(1)) == spec_hex(d2.take(1)),
        spec_hex(d1.skip(1)) == spec_hex(d2.skip(1)),
{
}

/// The provable core of content addressing: encoding is injective, so two
/// objects that differ in kind, in length, or in one payload byte hand the
/// hash distinct inputs. That their SHA-1 digests then differ holds only
/// with overwhelming probability and is not provable here.
pub proof fn lemma_encoding_injective(k1: Kind, c1: Seq<u8>, k2: Kind, c2: Seq<u8>)
    requires
        c1.len() <= u64::MAX,
        c2.len() <= u64::MAX,
        spec_encode_object(k1, c1) == spec_encode_object(k2, c2),
    ensures
        k1 == k2,
        c1 == c2,
{
    lemma_object_round_trip(k1, c1);
    lemma_object_round_trip(k2, c2);
}

} // verus!
