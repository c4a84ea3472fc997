use std::io::Read;
use std::io::Write;

use objstore::digest::{digest_path_parts, hex_lower, sha1_bytes};
use objstore::header::{decode_header, encode_header, parse_size};
use objstore::store::{
    blob_payload, encode_object, format_entry_line, format_entry_name_line, read_object,
    tree_entries, write_object, Object,
};
use objstore::tree::{decode_tree, encode_tree, TreeEntry};
use objstore::zlib::{zlib_compress, zlib_decompress};
use objstore::{Error, Kind};

use sha1::Digest;
use sha1::Sha1;

const HELLO_DIGEST_HEX: &str = "ce013625030ba8dba906f756967f9e9ca394464a";

fn hello_blob_digest() -> Vec<u8> {
    let w = write_object(Kind::Blob, 6, &b"hello\n".to_vec()).unwrap();
    w.digest
}

#[test]
fn blob_round_trip() {
    let content = b"some bytes with a NUL \x00 and more".to_vec();
    let w = write_object(Kind::Blob, content.len() as u64, &content).unwrap();
    let obj = read_object(&w.compressed).unwrap();
    assert_eq!(obj.kind, Kind::Blob);
    assert_eq!(obj.expected_size, content.len() as u64);
    assert_eq!(obj.content, content);
}

#[test]
fn tree_and_commit_round_trip() {
    for kind in [Kind::Tree, Kind::Commit] {
        let content = b"payload".to_vec();
        let w = write_object(kind, content.len() as u64, &content).unwrap();
        let obj = read_object(&w.compressed).unwrap();
        assert_eq!(obj.kind, kind);
        assert_eq!(obj.expected_size, content.len() as u64);
        assert_eq!(obj.content, content);
    }
}

#[test]
fn empty_blob_round_trip() {
    let content = Vec::new();
    let w = write_object(Kind::Blob, 0, &content).unwrap();
    let obj = read_object(&w.compressed).unwrap();
    assert_eq!(obj.kind, Kind::Blob);
    assert_eq!(obj.expected_size, 0);
    assert_eq!(obj.content, content);
}

#[test]
fn write_is_deterministic() {
    let content = b"determinism".to_vec();
    let w1 = write_object(Kind::Blob, content.len() as u64, &content).unwrap();
    let w2 = write_object(Kind::Blob, content.len() as u64, &content).unwrap();
    assert_eq!(w1.digest, w2.digest);
    let (d1, f1) = digest_path_parts(&w1.digest);
    let (d2, f2) = digest_path_parts(&w2.digest);
    assert_eq!(d1, d2);
    assert_eq!(f1, f2);
}

#[test]
fn distinct_contents_distinct_digests() {
    let wa = write_object(Kind::Blob, 1, &b"a".to_vec()).unwrap();
    let wb = write_object(Kind::Blob, 1, &b"b".to_vec()).unwrap();
    let wab = write_object(Kind::Blob, 2, &b"ab".to_vec()).unwrap();
    assert_ne!(wa.digest, wb.digest);
    assert_ne!(wa.digest, wab.digest);
    let wt = write_object(Kind::Tree, 1, &b"a".to_vec()).unwrap();
    assert_ne!(wa.digest, wt.digest);
}

#[test]
fn declared_size_must_match() {
    let r = write_object(Kind::Blob, 5, &b"hello\n".to_vec());
    assert_eq!(r, Err(Error::SizeMismatch));
}

#[test]
fn hello_blob_digest_is_the_hash_of_the_encoded_bytes() {
    let content = b"hello\n".to_vec();
    let encoded = encode_object(Kind::Blob, &content);
    assert_eq!(encoded, b"blob 6\x00hello\n".to_vec());
    let w = write_object(Kind::Blob, 6, &content).unwrap();
    let expected: Vec<u8> = Sha1::digest(b"blob 6\x00hello\n").to_vec();
    assert_eq!(w.digest, expected);
    assert_eq!(String::from_utf8(hex_lower(&w.digest)).unwrap(), HELLO_DIGEST_HEX);
    assert_eq!(w.digest, sha1_bytes(&encoded));
}

#[test]
fn stored_bytes_are_really_zlib() {
    let content = b"hello\n".to_vec();
    let w = write_object(Kind::Blob, 6, &content).unwrap();
    assert_ne!(w.compressed, b"blob 6\x00hello\n".to_vec());
    let mut dec = flate2::read::ZlibDecoder::new(w.compressed.as_slice());
    let mut raw = Vec::new();
    dec.read_to_end(&mut raw).unwrap();
    assert_eq!(raw, b"blob 6\x00hello\n".to_vec());
}

#[test]
fn library_decompression_inverts_real_zlib() {
    let mut enc = flate2::write::ZlibEncoder::new(Vec::new(), flate2::Compression::default());
    enc.write_all(b"commit 3\x00abc").unwrap();
    let compressed = enc.finish().unwrap();
    assert_eq!(zlib_decompress(&compressed).unwrap(), b"commit 3\x00abc".to_vec());
    let obj = read_object(&compressed).unwrap();
    assert_eq!(obj.kind, Kind::Commit);
    assert_eq!(obj.expected_size, 3);
    assert_eq!(obj.content, b"abc".to_vec());
}

#[test]
fn corrupt_stream_fails_decompression() {
    let garbage = b"this is not a zlib stream".to_vec();
    assert_eq!(read_object(&garbage), Err(Error::Decompression));
    assert_eq!(zlib_decompress(&garbage), Err(Error::Decompression));
}

#[test]
fn truncated_stream_fails_decompression() {
    let w = write_object(Kind::Blob, 6, &b"hello\n".to_vec()).unwrap();
    let truncated: Vec<u8> = w.compressed[..w.compressed.len() / 2].to_vec();
    assert_eq!(zlib_decompress(&truncated), Err(Error::Decompression));
}

#[test]
fn header_without_nul_is_rejected() {
    let v = b"blob 6 hello, no terminator anywhere here".to_vec();
    assert_eq!(decode_header(&v), Err(Error::MalformedHeader));
}

#[test]
fn header_with_late_nul_is_rejected() {
    let mut v = vec![b'x'; 40];
    v.push(0);
    assert_eq!(decode_header(&v), Err(Error::MalformedHeader));
}

#[test]
fn header_without_space_is_rejected() {
    let v = b"blob6\x00hello\n".to_vec();
    assert_eq!(decode_header(&v), Err(Error::MalformedHeader));
}

#[test]
fn header_with_unknown_kind_is_rejected() {
    let v = b"blobby 6\x00hello\n".to_vec();
    assert_eq!(decode_header(&v), Err(Error::MalformedHeader));
    let compressed = zlib_compress(&v);
    assert_eq!(read_object(&compressed), Err(Error::MalformedHeader));
}

#[test]
fn header_with_non_utf8_text_is_rejected() {
    // An invalid byte in the size token makes the whole pre-NUL text
    // malformed, not an invalid size.
    assert_eq!(decode_header(&b"blob \xff\x00x".to_vec()), Err(Error::MalformedHeader));
    // A lone continuation byte and a truncated multi-byte sequence are
    // equally malformed, wherever they sit.
    assert_eq!(decode_header(&b"bl\x80ob 6\x00".to_vec()), Err(Error::MalformedHeader));
    assert_eq!(decode_header(&b"blob 6\xc3\x00x".to_vec()), Err(Error::MalformedHeader));
    // Valid multi-byte UTF-8 in the size token is well-formed text whose
    // size fails to parse: that stays InvalidSize.
    assert_eq!(decode_header(&b"blob \xc3\xa9\x00x".to_vec()), Err(Error::InvalidSize));
}

#[test]
fn header_with_bad_size_is_rejected() {
    assert_eq!(decode_header(&b"blob \x00x".to_vec()), Err(Error::InvalidSize));
    assert_eq!(decode_header(&b"blob six\x00x".to_vec()), Err(Error::InvalidSize));
    assert_eq!(decode_header(&b"blob -1\x00x".to_vec()), Err(Error::InvalidSize));
    assert_eq!(
        decode_header(&b"blob 99999999999999999999\x00x".to_vec()),
        Err(Error::InvalidSize)
    );
}

#[test]
fn header_decodes_fields_and_consumed_length() {
    let v = b"tree 123\x00rest of the payload".to_vec();
    let (kind, size, consumed) = decode_header(&v).unwrap();
    assert_eq!(kind, Kind::Tree);
    assert_eq!(size, 123);
    assert_eq!(consumed, 9);
    let hdr = encode_header(Kind::Tree, 123);
    assert_eq!(hdr, b"tree 123\x00".to_vec());
}

#[test]
fn size_token_parses_to_the_limit() {
    assert_eq!(parse_size(&b"0".to_vec()), Ok(0));
    assert_eq!(parse_size(&b"007".to_vec()), Ok(7));
    assert_eq!(parse_size(&b"18446744073709551615".to_vec()), Ok(u64::MAX));
    assert_eq!(
        parse_size(&b"18446744073709551616".to_vec()),
        Err(Error::InvalidSize)
    );
}

#[test]
fn empty_tree_payload_decodes_to_no_entries() {
    let entries = decode_tree(&Vec::new()).unwrap();
    assert_eq!(entries.len(), 0);
}

#[test]
fn truncated_tree_entry_is_rejected() {
    let mut payload = b"100644 a\x00".to_vec();
    payload.extend_from_slice(&[1, 2, 3, 4, 5]);
    assert_eq!(decode_tree(&payload), Err(Error::TruncatedTreeEntry));
}

#[test]
fn tree_chunk_without_space_is_rejected() {
    let mut payload = b"100644a\x00".to_vec();
    payload.extend_from_slice(&[0u8; 20]);
    assert_eq!(decode_tree(&payload), Err(Error::MalformedTreeEntry));
}

#[test]
fn tree_payload_without_nul_is_rejected() {
    let payload = b"100644 a".to_vec();
    assert_eq!(decode_tree(&payload), Err(Error::MalformedTreeEntry));
}

#[test]
fn one_entry_tree_round_trip() {
    let child = hello_blob_digest();
    let entry = TreeEntry {
        mode: b"100644".to_vec(),
        name: b"hello.txt".to_vec(),
        child_digest: child.clone(),
    };
    let payload = encode_tree(&vec![entry]);
    let mut expected = b"100644 hello.txt\x00".to_vec();
    expected.extend_from_slice(&child);
    assert_eq!(payload, expected);
    let back = decode_tree(&payload).unwrap();
    assert_eq!(back.len(), 1);
    assert_eq!(back[0].mode, b"100644".to_vec());
    assert_eq!(back[0].name, b"hello.txt".to_vec());
    assert_eq!(back[0].child_digest, child);
}

#[test]
fn multi_entry_tree_round_trip() {
    let entries = vec![
        TreeEntry {
            mode: b"100644".to_vec(),
            name: b"a name with spaces".to_vec(),
            child_digest: vec![7u8; 20],
        },
        TreeEntry {
            mode: b"40000".to_vec(),
            name: b"dir".to_vec(),
            child_digest: (0u8..20u8).collect(),
        },
    ];
    let payload = encode_tree(&entries);
    let back = decode_tree(&payload).unwrap();
    assert_eq!(back.len(), 2);
    for (orig, got) in entries.iter().zip(back.iter()) {
        assert_eq!(orig.mode, got.mode);
        assert_eq!(orig.name, got.name);
        assert_eq!(orig.child_digest, got.child_digest);
    }
}

#[test]
fn cat_file_prints_blob_payload_exactly() {
    let w = write_object(Kind::Blob, 6, &b"hello\n".to_vec()).unwrap();
    let obj = read_object(&w.compressed).unwrap();
    let payload = blob_payload(obj).unwrap();
    assert_eq!(payload, b"hello\n".to_vec());
}

#[test]
fn cat_file_refuses_trees() {
    let child = hello_blob_digest();
    let mut payload = b"100644 hello.txt\x00".to_vec();
    payload.extend_from_slice(&child);
    let w = write_object(Kind::Tree, payload.len() as u64, &payload).unwrap();
    let obj = read_object(&w.compressed).unwrap();
    assert_eq!(blob_payload(obj), Err(Error::UnsupportedKind));
}

#[test]
fn blob_payload_checks_declared_size() {
    let obj = Object {
        kind: Kind::Blob,
        expected_size: 7,
        content: b"hello\n".to_vec(),
    };
    assert_eq!(blob_payload(obj), Err(Error::SizeMismatch));
}

#[test]
fn tree_entries_refuses_blobs() {
    let w = write_object(Kind::Blob, 6, &b"hello\n".to_vec()).unwrap();
    let obj = read_object(&w.compressed).unwrap();
    assert_eq!(tree_entries(&obj), Err(Error::UnsupportedKind));
}

#[test]
fn tree_entries_lists_a_stored_tree() {
    let child = hello_blob_digest();
    let mut payload = b"100644 hello.txt\x00".to_vec();
    payload.extend_from_slice(&child);
    let w = write_object(Kind::Tree, payload.len() as u64, &payload).unwrap();
    let obj = read_object(&w.compressed).unwrap();
    let entries = tree_entries(&obj).unwrap();
    assert_eq!(entries.len(), 1);
    assert_eq!(entries[0].name, b"hello.txt".to_vec());
}

#[test]
fn digest_hex_and_path_parts() {
    let digest = hello_blob_digest();
    let hex_name = String::from_utf8(hex_lower(&digest)).unwrap();
    assert_eq!(hex_name, HELLO_DIGEST_HEX);
    let (dir, file) = digest_path_parts(&digest);
    assert_eq!(String::from_utf8(dir).unwrap(), &HELLO_DIGEST_HEX[..2]);
    assert_eq!(String::from_utf8(file).unwrap(), &HELLO_DIGEST_HEX[2..]);
}

#[test]
fn hex_rendering_is_lowercase_high_nibble_first() {
    assert_eq!(hex_lower(&vec![0x00, 0x0f, 0xa5, 0xff]), b"000fa5ff".to_vec());
}

#[test]
fn display_line_pads_mode_and_names_child_kind() {
    let entry = TreeEntry {
        mode: b"40000".to_vec(),
        name: b"dir".to_vec(),
        child_digest: vec![0xabu8; 20],
    };
    let line = format_entry_line(&entry, Kind::Tree);
    let mut expected = b"040000 tree ".to_vec();
    expected.extend_from_slice("ab".repeat(20).as_bytes());
    expected.extend_from_slice(b"    dir\n");
    assert_eq!(line, expected);
    assert_eq!(format_entry_name_line(&entry), b"dir\n".to_vec());
}
