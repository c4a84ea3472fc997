//! The object header codec: `"<kind> <size>\0"`.
//!
//! Encoding renders the kind token, one space, the decimal size, and a NUL.
//! Decoding scans a bounded window for the NUL, splits the text before it on
//! the first space, and recognizes the kind and the decimal size.

use vstd::prelude::*;
use crate::bytes::{spec_find, lemma_spec_find, lemma_spec_find_is, find_byte, copy_range, bytes_eq};
use crate::{Kind, Error, spec_kind_bytes, spec_kind_of, kind_bytes};

verus! {

/// How far into an object decoding looks for the header's NUL terminator.
/// The longest well-formed header is `"commit "`, twenty decimal digits and
/// the NUL: 28 bytes.
pub const HEADER_WINDOW: usize = 32;

/// The decimal ASCII digits of `n`, most significant first, with no sign,
/// no padding and no leading zeros.
pub open spec fn spec_dec_digits(n: nat) -> Seq<u8>
    decreases n,
{
    if n < 10 {
        seq![(48 + n) as u8]
    } else {
        spec_dec_digits(n / 10).push((48 + n % 10) as u8)
    }
}

/// Whether every byte of `s` is a decimal ASCII digit.
pub open spec fn all_digits(s: Seq<u8>) -> bool {
    forall|i: int| 0 <= i < s.len() ==> 48 <= #[trigger] s[i] <= 57
}

/// The number that a sequence of decimal ASCII digits denotes.
pub open spec fn spec_digits_val(s: Seq<u8>) -> nat
    decreases s.len(),
{
    if s.len() == 0 {
        0
    } else {
        spec_digits_val(s.drop_last()) * 10 + (s.last() - 48) as nat
    }
}

/// The size a header's size token denotes: a nonempty run of decimal
/// digits whose value fits in 64 bits, leading zeros allowed.
pub open spec fn spec_parse_size(s: Seq<u8>) -> Option<u64> {
    if s.len() > 0 && all_digits(s) && spec_digits_val(s) <= u64::MAX {
        Some(spec_digits_val(s) as u64)
    } else {
        None
    }
}

/// The NUL lookahead bound for a stream of the given length.
pub open spec fn spec_window(len: int) -> int {
    if len < 32 {
        len
    } else {
        32
    }
}

/// Whether a byte is a UTF-8 continuation byte.
pub open spec fn spec_utf8_cont(b: u8) -> bool {
    0x80 <= b && b <= 0xBF
}

/// Whether a byte sequence is well-formed UTF-8: a run of one-byte ASCII
/// and well-formed two- to four-byte sequences, with overlong forms,
/// surrogates and values past U+10FFFF excluded by the lead/second-byte
/// ranges.
pub open spec fn spec_utf8_wf(s: Seq<u8>) -> bool
    decreases s.len(),
{
    if s.len() == 0 {
        true
    } else {
        let b0 = s[0];
        if b0 < 0x80 {
            spec_utf8_wf(s.skip(1))
        } else if 0xC2 <= b0 && b0 <= 0xDF {
            s.len() >= 2 && spec_utf8_cont(s[1]) && spec_utf8_wf(s.skip(2))
        } else if b0 == 0xE0 {
            s.len() >= 3 && 0xA0 <= s[1] && s[1] <= 0xBF && spec_utf8_cont(s[2]) && spec_utf8_wf(
                s.skip(3),
            )
        } else if (0xE1 <= b0 && b0 <= 0xEC) || b0 == 0xEE || b0 == 0xEF {
            s.len() >= 3 && spec_utf8_cont(s[1]) && spec_utf8_cont(s[2]) && spec_utf8_wf(s.skip(3))
        } else if b0 == 0xED {
            s.len() >= 3 && 0x80 <= s[1] && s[1] <= 0x9F && spec_utf8_cont(s[2]) && spec_utf8_wf(
                s.skip(3),
            )
        } else if b0 == 0xF0 {
            s.len() >= 4 && 0x90 <= s[1] && s[1] <= 0xBF && spec_utf8_cont(s[2]) && spec_utf8_cont(
                s[3],
            ) && spec_utf8_wf(s.skip(4))
        } else if 0xF1 <= b0 && b0 <= 0xF3 {
            s.len() >= 4 && spec_utf8_cont(s[1]) && spec_utf8_cont(s[2]) && spec_utf8_cont(s[3])
                && spec_utf8_wf(s.skip(4))
        } else if b0 == 0xF4 {
            s.len() >= 4 && 0x80 <= s[1] && s[1] <= 0x8F && spec_utf8_cont(s[2]) && spec_utf8_cont(
                s[3],
            ) && spec_utf8_wf(s.skip(4))
        } else {
            false
        }
    }
}

/// A sequence of plain ASCII bytes is well-formed UTF-8.
pub proof fn lemma_ascii_utf8(s: Seq<u8>)
    requires
        forall|j: int| 0 <= j < s.len() ==> #[trigger] s[j] < 0x80,
    ensures
        spec_utf8_wf(s),
    decreases s.len(),
{
    if s.len() > 0 {
        assert(forall|j: int| 0 <= j < s.skip(1).len() ==> #[trigger] s.skip(1)[j] < 0x80);
        lemma_ascii_utf8(s.skip(1));
    }
}

/// Whether a byte is a UTF-8 continuation byte.
pub fn is_utf8_cont(b: u8) -> (r: bool)
    ensures
        r <==> spec_utf8_cont(b),
{
    0x80 <= b && b <= 0xBF
}

/// Whether the bytes of `v` in the index range `[from, to)` are
/// well-formed UTF-8.
pub fn is_utf8_range(v: &Vec<u8>, from: usize, to: usize) -> (r: bool)
    requires
        from <= to <= v@.len(),
    ensures
        r <==> spec_utf8_wf(v@.subrange(from as int, to as int)),
{
    let mut i = from;
    while i < to
        invariant
            from <= i <= to,
            to <= v@.len(),
            spec_utf8_wf(v@.subrange(from as int, to as int)) <==> spec_utf8_wf(
                v@.subrange(i as int, to as int),
            ),
        decreases to - i,
    {
        let ghost s = v@.subrange(i as int, to as int);
        proof {
            assert(forall|k: int| 0 <= k < s.len() ==> #[trigger] s[k] == v@[i + k]);
        }
        let b0 = v[i];
        let step: usize;
        if b0 < 0x80 {
            step = 1;
        } else if 0xC2 <= b0 && b0 <= 0xDF {
            if to - i < 2 || !is_utf8_cont(v[i + 1]) {
                return false;
            }
            step = 2;
        } else if b0 == 0xE0 {
            if to - i < 3 {
                return false;
            }
            let b1 = v[i + 1];
            if !(0xA0 <= b1 && b1 <= 0xBF) || !is_utf8_cont(v[i + 2]) {
                return false;
            }
            step = 3;
        } else if (0xE1 <= b0 && b0 <= 0xEC) || b0 == 0xEE || b0 == 0xEF {
            if to - i < 3 || !is_utf8_cont(v[i + 1]) || !is_utf8_cont(v[i + 2]) {
                return false;
            }
            step = 3;
        } else if b0 == 0xED {
            if to - i < 3 {
                return false;
            }
            let b1 = v[i + 1];
            if !(0x80 <= b1 && b1 <= 0x9F) || !is_utf8_cont(v[i + 2]) {
                return false;
            }
            step = 3;
        } else if b0 == 0xF0 {
            if to - i < 4 {
                return false;
            }
            let b1 = v[i + 1];
            if !(0x90 <= b1 && b1 <= 0xBF) || !is_utf8_cont(v[i + 2]) || !is_utf8_cont(v[i + 3]) {
                return false;
            }
            step = 4;
        } else if 0xF1 <= b0 && b0 <= 0xF3 {
            if to - i < 4 || !is_utf8_cont(v[i + 1]) || !is_utf8_cont(v[i + 2]) || !is_utf8_cont(
                v[i + 3],
            ) {
                return false;
            }
            step = 4;
        } else if b0 == 0xF4 {
            if to - i < 4 {
                return false;
            }
            let b1 = v[i + 1];
            if !(0x80 <= b1 && b1 <= 0x8F) || !is_utf8_cont(v[i + 2]) || !is_utf8_cont(v[i + 3]) {
                return false;
            }
            step = 4;
        } else {
            return false;
        }
        proof {
            assert(s.skip(step as int) =~= v@.subrange(i + step, to as int));
        }
        i = i + step;
    }
    proof {
        assert(v@.subrange(i as int, to as int) =~= Seq::<u8>::empty());
    }
    true
}

/// What decoding the front of `s` as an object header yields: the kind and
/// the declared payload size, or the error that the malformation earns.
/// Header text that is not valid UTF-8, like one without a NUL in the
/// window, without a space, or with an unrecognized kind, is malformed;
/// only a valid text whose size token fails to parse earns `InvalidSize`.
pub open spec fn spec_decode_header(s: Seq<u8>) -> Result<(Kind, u64), Error> {
    let n = spec_find(s, 0, 0);
    if n >= spec_window(s.len() as int) {
        Err(Error::MalformedHeader)
    } else {
        let text = s.take(n);
        let sp = spec_find(text, 32, 0);
        if !spec_utf8_wf(text) {
            Err(Error::MalformedHeader)
        } else if sp >= text.len() {
            Err(Error::MalformedHeader)
        } else {
            match spec_kind_of(text.take(sp)) {
                None => Err(Error::MalformedHeader),
                Some(k) => match spec_parse_size(text.skip(sp + 1)) {
                    None => Err(Error::InvalidSize),
                    Some(sz) => Ok((k, sz)),
                },
            }
        }
    }
}

/// The encoded header bytes: kind token, space, decimal size, NUL.
pub open spec fn spec_encode_header(k: Kind, size: u64) -> Seq<u8> {
    spec_kind_bytes(k) + seq![32u8] + spec_dec_digits(size as nat) + seq![0u8]
}

/// Appends the decimal ASCII digits of `n` to `out`.
pub fn push_decimal(n: u64, out: &mut Vec<u8>)
    ensures
        final(out)@ == old(out)@ + spec_dec_digits(n as nat),
    decreases n,
{
    if n < 10 {
        out.push(48 + n as u8);
    } else {
        push_decimal(n / 10, out);
        out.push(48 + (n % 10) as u8);
    }
    proof {
        assert(out@ =~= old(out)@ + spec_dec_digits(n as nat));
    }
}

/// Encodes an object header for the given kind and declared payload size.
pub fn encode_header(k: Kind, size: u64) -> (r: Vec<u8>)
    ensures
        r@ == spec_encode_header(k, size),
{
    let mut out = kind_bytes(k);
    out.push(32u8);
    push_decimal(size, &mut out);
    out.push(0u8);
    proof {
        assert(out@ =~= spec_encode_header(k, size));
    }
    out
}

/// Parses a size token: a nonempty run of decimal digits with a value that
/// fits in 64 bits. Anything else is `InvalidSize`.
pub fn parse_size(v: &Vec<u8>) -> (r: Result<u64, Error>)
    ensures
        spec_parse_size(v@) matches Some(sz) ==> r == Ok::<u64, Error>(sz),
        spec_parse_size(v@) is None ==> r == Err::<u64, Error>(Error::InvalidSize),
{
    let n = v.len();
    if n == 0 {
        return Err(Error::InvalidSize);
    }
    let mut acc: u64 = 0;
    let mut i: usize = 0;
    while i < n
        invariant
            0 <= i <= n,
            n == v@.len(),
            all_digits(v@.take(i as int)),
            acc == spec_digits_val(v@.take(i as int)),
        decreases n - i,
    {
        let c = v[i];
        if c < 48 || c > 57 {
            return Err(Error::InvalidSize);
        }
        let d = (c - 48) as u64;
        if acc > (u64::MAX - d) / 10 {
            proof {
                assert(v@.take(i + 1).drop_last() =~= v@.take(i as int));
                assert(spec_digits_val(v@.take(i + 1)) == acc * 10 + d);
                assert(acc * 10 + d > u64::MAX);
                if all_digits(v@) {
                    assert(v@.take(n as int) =~= v@);
                    lemma_digits_val_prefix_le(v@, i + 1, n as int);
                    assert(spec_digits_val(v@) > u64::MAX);
                }
            }
            return Err(Error::InvalidSize);
        }
        let next = acc * 10 + d;
        proof {
            assert(v@.take(i + 1).drop_last() =~= v@.take(i as int));
        }
        acc = next;
        i = i + 1;
    }
    proof {
        assert(v@.take(n as int) =~= v@);
    }
    Ok(acc)
}

/// Appending digits to a digit run never shrinks its value.
pub proof fn lemma_digits_val_prefix_le(s: Seq<u8>, i: int, j: int)
    requires
        0 <= i <= j <= s.len(),
        all_digits(s.take(j)),
    ensures
        spec_digits_val(s.take(i)) <= spec_digits_val(s.take(j)),
    decreases j - i,
{
    if i < j {
        lemma_digits_val_prefix_le(s, i, j - 1);
        assert(s.take(j - 1) =~= s.take(j).drop_last());
        assert(s.take(j).last() == s[j - 1]);
        assert(48 <= s.take(j)[j - 1] <= 57);
    }
}

/// The `k`-th power of ten.
pub open spec fn pow10(k: nat) -> nat
    decreases k,
{
    if k == 0 {
        1
    } else {
        10 * pow10((k - 1) as nat)
    }
}

/// The decimal rendering of `n` is a nonempty digit run denoting `n`.
pub proof fn lemma_dec_digits(n: nat)
    ensures
        spec_dec_digits(n).len() >= 1,
        all_digits(spec_dec_digits(n)),
        spec_digits_val(spec_dec_digits(n)) == n,
    decreases n,
{
    if n < 10 {
        let s = spec_dec_digits(n);
        assert(s.drop_last() =~= Seq::<u8>::empty());
        assert(spec_digits_val(s.drop_last()) == 0);
        assert(s.last() == (48 + n) as u8);
        assert(s.last() as nat == 48 + n);
        assert(spec_digits_val(s) == (s.last() - 48) as nat);
    } else {
        lemma_dec_digits(n / 10);
        let s = spec_dec_digits(n);
        let p = spec_dec_digits(n / 10);
        assert(s == p.push((48 + n % 10) as u8));
        assert(s.drop_last() =~= p);
        assert(s.last() == (48 + n % 10) as u8);
        assert(spec_digits_val(s) == spec_digits_val(p) * 10 + n % 10);
        assert((n / 10) * 10 + n % 10 == n);
        assert forall|i: int| 0 <= i < s.len() implies 48 <= #[trigger] s[i] <= 57 by {
            if i < p.len() {
                assert(48 <= p[i] <= 57);
            }
        }
    }
}

/// A number below the `k`-th power of ten has at most `k` decimal digits.
pub proof fn lemma_dec_digits_len(n: nat, k: nat)
    requires
        1 <= k,
        n < pow10(k),
    ensures
        spec_dec_digits(n).len() <= k,
    decreases k,
{
    if n >= 10 {
        assert(pow10(0) == 1);
        if k == 1 {
            assert(pow10(1) == 10 * pow10(0));
            assert(false);
        }
        assert(pow10(k) == 10 * pow10((k - 1) as nat));
        assert(n / 10 < pow10((k - 1) as nat)) by (nonlinear_arith)
            requires
                n < 10 * pow10((k - 1) as nat),
        ;
        lemma_dec_digits_len(n / 10, (k - 1) as nat);
    }
}

/// A 64-bit size never needs more than twenty decimal digits.
pub proof fn lemma_u64_digits_len(n: u64)
    ensures
        spec_dec_digits(n as nat).len() <= 20,
{
    assert(pow10(0) == 1);
    assert(pow10(1) == 10);
    assert(pow10(2) == 100);
    assert(pow10(3) == 1000);
    assert(pow10(4) == 10000);
    assert(pow10(5) == 100000);
    assert(pow10(6) == 1000000);
    assert(pow10(7) == 10000000);
    assert(pow10(8) == 100000000);
    assert(pow10(9) == 1000000000);
    assert(pow10(10) == 10000000000);
    assert(pow10(11) == 100000000000);
    assert(pow10(12) == 1000000000000);
    assert(pow10(13) == 10000000000000);
    assert(pow10(14) == 100000000000000);
    assert(pow10(15) == 1000000000000000);
    assert(pow10(16) == 10000000000000000);
    assert(pow10(17) == 100000000000000000);
    assert(pow10(18) == 1000000000000000000);
    assert(pow10(19) == 10000000000000000000);
    assert(pow10(20) == 100000000000000000000);
    lemma_dec_digits_len(n as nat, 20);
}

/// A kind's token is short, plain ASCII, free of NUL and space, and
/// recognized back as the same kind.
pub proof fn lemma_kind_token(k: Kind)
    ensures
        1 <= spec_kind_bytes(k).len() <= 6,
        forall|j: int| 0 <= j < spec_kind_bytes(k).len() ==> #[trigger] spec_kind_bytes(k)[j]
            != 0 && spec_kind_bytes(k)[j] != 32 && spec_kind_bytes(k)[j] < 0x80,
        spec_kind_of(spec_kind_bytes(k)) == Some(k),
{
    let b = spec_kind_bytes(Kind::Blob);
    let c = spec_kind_bytes(Kind::Commit);
    let t = spec_kind_bytes(Kind::Tree);
    assert(b[0] == 98 && b[1] == 108 && b[2] == 111 && b[3] == 98);
    assert(c[0] == 99 && c[1] == 111 && c[2] == 109 && c[3] == 109 && c[4] == 105 && c[5] == 116);
    assert(t[0] == 116 && t[1] == 114 && t[2] == 101 && t[3] == 101);
    assert(b != c && b != t && c != t);
}

/// Decoding inverts encoding: an encoded header followed by any payload
/// parses back to the same kind and size, with the NUL closing the header.
pub proof fn lemma_header_round_trip(k: Kind, size: u64, c: Seq<u8>)
    ensures
        spec_encode_header(k, size).len() <= 28,
        spec_find(spec_encode_header(k, size) + c, 0, 0) == spec_encode_header(k, size).len() - 1,
        spec_decode_header(spec_encode_header(k, size) + c) == Ok::<(Kind, u64), Error>((k, size)),
{
    let kb = spec_kind_bytes(k);
    let d = spec_dec_digits(size as nat);
    let hdr = spec_encode_header(k, size);
    let s = hdr + c;
    lemma_kind_token(k);
    lemma_dec_digits(size as nat);
    lemma_u64_digits_len(size);
    let hl = hdr.len() as int;
    assert(hl == kb.len() + 1 + d.len() + 1);
    assert forall|j: int| 0 <= j < hl - 1 implies #[trigger] s[j] != 0 by {
        if j < kb.len() {
            assert(s[j] == kb[j]);
        } else if j == kb.len() {
            assert(s[j] == 32);
        } else {
            assert(s[j] == d[j - kb.len() - 1]);
            assert(48 <= d[j - kb.len() - 1] <= 57);
        }
    }
    assert(s[hl - 1] == 0);
    lemma_spec_find_is(s, 0, 0, hl - 1);
    assert(hl - 1 < spec_window(s.len() as int));
    let text = s.take(hl - 1);
    assert(text =~= kb + seq![32u8] + d);
    assert forall|j: int| 0 <= j < text.len() implies #[trigger] text[j] < 0x80 by {
        if j < kb.len() {
            assert(text[j] == kb[j]);
        } else if j == kb.len() {
            assert(text[j] == 32);
        } else {
            assert(text[j] == d[j - kb.len() - 1]);
            assert(48 <= d[j - kb.len() - 1] <= 57);
        }
    }
    lemma_ascii_utf8(text);
    assert forall|j: int| 0 <= j < kb.len() implies #[trigger] text[j] != 32 by {
        assert(text[j] == kb[j]);
    }
    assert(text[kb.len() as int] == 32);
    lemma_spec_find_is(text, 32, 0, kb.len() as int);
    assert(text.take(kb.len() as int) =~= kb);
    assert(text.skip(kb.len() as int + 1) =~= d);
    assert(spec_parse_size(d) == Some(size));
}

/// A stream with no NUL inside the lookahead window is rejected as a
/// malformed header.
pub proof fn lemma_header_no_nul_rejected(s: Seq<u8>)
    requires
        forall|j: int| 0 <= j < spec_window(s.len() as int) ==> #[trigger] s[j] != 0,
    ensures
        spec_decode_header(s) == Err::<(Kind, u64), Error>(Error::MalformedHeader),
{
    lemma_spec_find(s, 0, 0);
}

/// Header text with no space before its NUL is rejected as a malformed
/// header.
pub proof fn lemma_header_no_space_rejected(s: Seq<u8>)
    requires
        spec_find(s, 0, 0) < spec_window(s.len() as int),
        forall|j: int| 0 <= j < spec_find(s, 0, 0) ==> #[trigger] s[j] != 32,
    ensures
        spec_decode_header(s) == Err::<(Kind, u64), Error>(Error::MalformedHeader),
{
    let n = spec_find(s, 0, 0);
    lemma_spec_find(s, 0, 0);
    let text = s.take(n);
    assert(forall|j: int| 0 <= j < text.len() ==> #[trigger] text[j] == s[j]);
    lemma_spec_find_is(text, 32, 0, n);
}

/// Header text that is not well-formed UTF-8 is rejected as a malformed
/// header, wherever in the text the offending bytes sit.
pub proof fn lemma_header_not_utf8_rejected(s: Seq<u8>)
    requires
        0 <= spec_find(s, 0, 0) < spec_window(s.len() as int),
        !spec_utf8_wf(s.take(spec_find(s, 0, 0))),
    ensures
        spec_decode_header(s) == Err::<(Kind, u64), Error>(Error::MalformedHeader),
{
}

/// A header whose first token is none of the three recognized kind
/// spellings is rejected as a malformed header, whatever stands after it.
pub proof fn lemma_header_unknown_kind_rejected(tok: Seq<u8>, rest: Seq<u8>, c: Seq<u8>)
    requires
        forall|j: int| 0 <= j < tok.len() ==> #[trigger] tok[j] != 0 && tok[j] != 32,
        forall|j: int| 0 <= j < rest.len() ==> #[trigger] rest[j] != 0,
        spec_kind_of(tok) is None,
        tok.len() + rest.len() + 2 <= 32,
    ensures
        spec_decode_header(tok + seq![32u8] + rest + seq![0u8] + c) == Err::<
            (Kind, u64),
            Error,
        >(Error::MalformedHeader),
{
    let s = tok + seq![32u8] + rest + seq![0u8] + c;
    let hl = tok.len() + 1 + rest.len() + 1;
    assert forall|j: int| 0 <= j < hl - 1 implies #[trigger] s[j] != 0 by {
        if j < tok.len() {
            assert(s[j] == tok[j]);
        } else if j == tok.len() {
            assert(s[j] == 32);
        } else {
            assert(s[j] == rest[j - tok.len() - 1]);
        }
    }
    assert(s[hl - 1] == 0);
    lemma_spec_find_is(s, 0, 0, hl - 1);
    assert(hl - 1 < spec_window(s.len() as int));
    let text = s.take(hl - 1);
    assert(text =~= tok + seq![32u8] + rest);
    assert forall|j: int| 0 <= j < tok.len() implies #[trigger] text[j] != 32 by {
        assert(text[j] == tok[j]);
    }
    assert(text[tok.len() as int] == 32);
    lemma_spec_find_is(text, 32, 0, tok.len() as int);
    assert(text.take(tok.len() as int) =~= tok);
}

/// Decodes the object header at the front of `v` and reports how many bytes
/// it consumed, the NUL included.
pub fn decode_header(v: &Vec<u8>) -> (r: Result<(Kind, u64, usize), Error>)
    ensures
        spec_decode_header(v@) matches Ok(p) ==> (r matches Ok(t) && t.0 == p.0 && t.1 == p.1
            && t.2 as int == spec_find(v@, 0, 0) + 1 && 0 < t.2 <= v@.len()),
        spec_decode_header(v@) matches Err(e) ==> r == Err::<(Kind, u64, usize), Error>(e),
{
    let len = v.len();
    let n = find_byte(v, 0, 0);
    let w = if len < HEADER_WINDOW {
        len
    } else {
        HEADER_WINDOW
    };
    if n >= w {
        return Err(Error::MalformedHeader);
    }
    let ghost text = v@.take(n as int);
    proof {
        assert(v@.subrange(0, n as int) =~= text);
    }
    if !is_utf8_range(v, 0, n) {
        return Err(Error::MalformedHeader);
    }
    let sp = find_byte(v, 32, 0);
    if sp >= n {
        proof {
            assert(forall|j: int| 0 <= j < text.len() ==> text[j] == v@[j]);
            lemma_spec_find_is(text, 32, 0, n as int);
        }
        return Err(Error::MalformedHeader);
    }
    proof {
        assert(forall|j: int| 0 <= j < text.len() ==> text[j] == v@[j]);
        lemma_spec_find_is(text, 32, 0, sp as int);
    }
    let token = copy_range(v, 0, sp);
    proof {
        assert(token@ =~= text.take(sp as int));
    }
    let kind = if bytes_eq(&token, &kind_bytes(Kind::Blob)) {
        Kind::Blob
    } else if bytes_eq(&token, &kind_bytes(Kind::Commit)) {
        Kind::Commit
    } else if bytes_eq(&token, &kind_bytes(Kind::Tree)) {
        Kind::Tree
    } else {
        return Err(Error::MalformedHeader);
    };
    let size_token = copy_range(v, sp + 1, n);
    proof {
        assert(size_token@ =~= text.skip(sp + 1));
    }
    let size = match parse_size(&size_token) {
        Ok(sz) => sz,
        Err(e) => {
            return Err(e);
        }
    };
    Ok((kind, size, n + 1))
}

} // verus!
