//! The tree entry codec.
//!
//! A tree object's payload is a run of entries `"<mode> <name>\0"` followed
//! by the child's 20 raw digest bytes, with no separators between entries
//! and nothing after the last one.

use vstd::prelude::*;
use crate::bytes::{spec_find, lemma_spec_find_is, find_byte, copy_range, push_all};
use crate::Error;

verus! {

/// One directory entry of a tree payload: a short ASCII mode, a binary-safe
/// name without embedded NUL, and the child object's 20-byte digest.
#[derive(Debug, PartialEq, Eq)]
pub struct TreeEntry {
    pub mode: Vec<u8>,
    pub name: Vec<u8>,
    pub child_digest: Vec<u8>,
}

/// The mathematical shape of a tree entry: its three byte sequences.
pub ghost struct EntryModel {
    pub mode: Seq<u8>,
    pub name: Seq<u8>,
    pub child_digest: Seq<u8>,
}

impl View for TreeEntry {
    type V = EntryModel;

    open spec fn view(&self) -> EntryModel {
        EntryModel { mode: self.mode@, name: self.name@, child_digest: self.child_digest@ }
    }
}

/// What the on-disk format can carry: the digest is exactly 20 bytes, the
/// mode holds neither NUL nor space, and the name holds no NUL.
pub open spec fn entry_wf(e: EntryModel) -> bool {
    &&& e.child_digest.len() == 20
    &&& forall|j: int| 0 <= j < e.mode.len() ==> #[trigger] e.mode[j] != 0 && e.mode[j] != 32
    &&& forall|j: int| 0 <= j < e.name.len() ==> #[trigger] e.name[j] != 0
}

/// The models of a vector of entries.
pub open spec fn models_of(es: Seq<TreeEntry>) -> Seq<EntryModel> {
    es.map_values(|e: TreeEntry| e@)
}

/// The encoded bytes of one entry.
pub open spec fn spec_encode_entry(e: EntryModel) -> Seq<u8> {
    e.mode + seq![32u8] + e.name + seq![0u8] + e.child_digest
}

/// The encoded bytes of a whole tree payload, in entry order.
pub open spec fn spec_encode_tree(ms: Seq<EntryModel>) -> Seq<u8>
    decreases ms.len(),
{
    if ms.len() == 0 {
        Seq::empty()
    } else {
        spec_encode_entry(ms[0]) + spec_encode_tree(ms.skip(1))
    }
}

/// What decoding a tree payload yields: the entries in on-disk order, or
/// the error the first malformed entry earns. A chunk with no NUL before
/// the end, or none before the first space, is malformed; fewer than 20
/// digest bytes after a chunk is a truncation.
pub open spec fn spec_decode_tree(s: Seq<u8>) -> Result<Seq<EntryModel>, Error>
    decreases s.len(),
{
    if s.len() == 0 {
        Ok(Seq::empty())
    } else {
        let n = spec_find(s, 0, 0);
        if !(0 <= n < s.len()) {
            Err(Error::MalformedTreeEntry)
        } else {
            let chunk = s.take(n);
            let sp = spec_find(chunk, 32, 0);
            if sp >= chunk.len() {
                Err(Error::MalformedTreeEntry)
            } else if s.len() - (n + 1) < 20 {
                Err(Error::TruncatedTreeEntry)
            } else {
                let e = EntryModel {
                    mode: chunk.take(sp),
                    name: chunk.skip(sp + 1),
                    child_digest: s.subrange(n + 1, n + 21),
                };
                match spec_decode_tree(s.skip(n + 21)) {
                    Ok(rest) => Ok(seq![e] + rest),
                    Err(err) => Err(err),
                }
            }
        }
    }
}

/// Decodes a whole tree payload into its entries.
pub fn decode_tree(v: &Vec<u8>) -> (r: Result<Vec<TreeEntry>, Error>)
    ensures
        spec_decode_tree(v@) matches Ok(ms) ==> (r matches Ok(es) && models_of(es@) == ms),
        spec_decode_tree(v@) matches Err(e) ==> r == Err::<Vec<TreeEntry>, Error>(e),
{
    let len = v.len();
    let mut pos: usize = 0;
    let mut out: Vec<TreeEntry> = Vec::new();
    proof {
        assert(v@.skip(0) =~= v@);
        assert(models_of(out@) + spec_decode_tree(v@)->Ok_0 =~= spec_decode_tree(v@)->Ok_0);
    }
    while pos < len
        invariant
            0 <= pos <= len,
            len == v@.len(),
            spec_decode_tree(v@.skip(pos as int)) matches Ok(rest) ==> spec_decode_tree(v@)
                == Ok::<Seq<EntryModel>, Error>(models_of(out@) + rest),
            spec_decode_tree(v@.skip(pos as int)) matches Err(e) ==> spec_decode_tree(v@)
                == Err::<Seq<EntryModel>, Error>(e),
        decreases len - pos,
    {
        let ghost suff = v@.skip(pos as int);
        let n_abs = find_byte(v, 0, pos);
        if n_abs == len {
            proof {
                assert(forall|j: int| 0 <= j < suff.len() ==> #[trigger] suff[j] == v@[pos + j]);
                lemma_spec_find_is(suff, 0, 0, suff.len() as int);
            }
            return Err(Error::MalformedTreeEntry);
        }
        let ghost n_rel = n_abs - pos;
        let ghost chunk = suff.take(n_rel);
        proof {
            assert(forall|j: int| 0 <= j < suff.len() ==> #[trigger] suff[j] == v@[pos + j]);
            lemma_spec_find_is(suff, 0, 0, n_rel);
        }
        let sp_abs = find_byte(v, 32, pos);
        if sp_abs >= n_abs {
            proof {
                assert(forall|j: int| 0 <= j < chunk.len() ==> #[trigger] chunk[j] == v@[pos + j]);
                lemma_spec_find_is(chunk, 32, 0, n_rel);
            }
            return Err(Error::MalformedTreeEntry);
        }
        let ghost sp_rel = sp_abs - pos;
        proof {
            assert(forall|j: int| 0 <= j < chunk.len() ==> #[trigger] chunk[j] == v@[pos + j]);
            lemma_spec_find_is(chunk, 32, 0, sp_rel);
        }
        if len - (n_abs + 1) < 20 {
            return Err(Error::TruncatedTreeEntry);
        }
        let mode = copy_range(v, pos, sp_abs);
        let name = copy_range(v, sp_abs + 1, n_abs);
        let child_digest = copy_range(v, n_abs + 1, n_abs + 21);
        let entry = TreeEntry { mode, name, child_digest };
        proof {
            let e = EntryModel {
                mode: chunk.take(sp_rel),
                name: chunk.skip(sp_rel + 1),
                child_digest: suff.subrange(n_rel + 1, n_rel + 21),
            };
            assert(entry@.mode =~= e.mode);
            assert(entry@.name =~= e.name);
            assert(entry@.child_digest =~= e.child_digest);
            assert(entry@ == e);
            assert(v@.skip(n_abs + 21 as int) =~= suff.skip(n_rel + 21));
            assert(models_of(out@.push(entry)) =~= models_of(out@) + seq![entry@]);
            assert(models_of(out@) + (seq![e] + spec_decode_tree(suff.skip(n_rel + 21))->Ok_0)
                =~= (models_of(out@) + seq![e]) + spec_decode_tree(suff.skip(n_rel + 21))->Ok_0);
        }
        out.push(entry);
        pos = n_abs + 21;
    }
    proof {
        assert(v@.skip(pos as int) =~= Seq::<u8>::empty());
        assert(models_of(out@) + Seq::<EntryModel>::empty() =~= models_of(out@));
    }
    Ok(out)
}

/// Appends the encoding of one entry to `out`.
pub fn encode_entry(e: &TreeEntry, out: &mut Vec<u8>)
    ensures
        final(out)@ == old(out)@ + spec_encode_entry(e@),
{
    push_all(out, &e.mode);
    out.push(32u8);
    push_all(out, &e.name);
    out.push(0u8);
    push_all(out, &e.child_digest);
    proof {
        assert(out@ =~= old(out)@ + spec_encode_entry(e@));
    }
}

/// Appending one entry extends an encoded tree payload by that entry's
/// encoding.
pub proof fn lemma_encode_tree_push(ms: Seq<EntryModel>, e: EntryModel)
    ensures
        spec_encode_tree(ms.push(e)) == spec_encode_tree(ms) + spec_encode_entry(e),
    decreases ms.len(),
{
    if ms.len() == 0 {
        assert(ms.push(e)[0] == e);
        assert(ms.push(e).skip(1) =~= Seq::<EntryModel>::empty());
        assert(spec_encode_tree(ms.push(e).skip(1)) == Seq::<u8>::empty());
        assert(spec_encode_tree(ms) == Seq::<u8>::empty());
        assert(spec_encode_tree(ms.push(e)) == spec_encode_entry(e) + Seq::<u8>::empty());
        assert(spec_encode_entry(e) + Seq::<u8>::empty() =~= Seq::<u8>::empty()
            + spec_encode_entry(e));
    } else {
        lemma_encode_tree_push(ms.skip(1), e);
        assert(ms.push(e)[0] == ms[0]);
        assert(ms.push(e).skip(1) =~= ms.skip(1).push(e));
        assert(spec_encode_entry(ms[0]) + (spec_encode_tree(ms.skip(1)) + spec_encode_entry(e))
            =~= (spec_encode_entry(ms[0]) + spec_encode_tree(ms.skip(1))) + spec_encode_entry(e));
    }
}

/// An empty tree payload decodes to zero entries, without error.
pub proof fn lemma_tree_empty()
    ensures
        spec_decode_tree(Seq::<u8>::empty()) == Ok::<Seq<EntryModel>, Error>(
            Seq::<EntryModel>::empty(),
        ),
{
}

/// Decoding inverts encoding for any run of well-formed entries.
pub proof fn lemma_tree_round_trip(ms: Seq<EntryModel>)
    requires
        forall|i: int| 0 <= i < ms.len() ==> entry_wf(#[trigger] ms[i]),
    ensures
        spec_decode_tree(spec_encode_tree(ms)) == Ok::<Seq<EntryModel>, Error>(ms),
    decreases ms.len(),
{
    if ms.len() == 0 {
        assert(spec_encode_tree(ms) == Seq::<u8>::empty());
        assert(ms =~= Seq::<EntryModel>::empty());
    } else {
        let e = ms[0];
        let rest = ms.skip(1);
        assert(forall|i: int| 0 <= i < rest.len() ==> entry_wf(#[trigger] rest[i]));
        lemma_tree_round_trip(rest);
        let s = spec_encode_tree(ms);
        let es = spec_encode_entry(e);
        assert(s == es + spec_encode_tree(rest));
        let ml = e.mode.len() as int;
        let nulpos = ml + 1 + e.name.len() as int;
        assert(es.len() == nulpos + 21);
        assert forall|j: int| 0 <= j < nulpos implies #[trigger] s[j] != 0 by {
            assert(s[j] == es[j]);
            if j < ml {
                assert(es[j] == e.mode[j]);
            } else if j == ml {
                assert(es[j] == 32);
            } else {
                assert(es[j] == e.name[j - ml - 1]);
            }
        }
        assert(es[nulpos] == 0);
        assert(s[nulpos] == 0);
        lemma_spec_find_is(s, 0, 0, nulpos);
        let chunk = s.take(nulpos);
        assert(chunk =~= e.mode + seq![32u8] + e.name);
        assert forall|j: int| 0 <= j < ml implies #[trigger] chunk[j] != 32 by {
            assert(chunk[j] == e.mode[j]);
        }
        assert(chunk[ml] == 32);
        lemma_spec_find_is(chunk, 32, 0, ml);
        assert(chunk.take(ml) =~= e.mode);
        assert(chunk.skip(ml + 1) =~= e.name);
        assert(s.len() - (nulpos + 1) >= 20);
        assert(s.subrange(nulpos + 1, nulpos + 21) =~= e.child_digest);
        assert(s.skip(nulpos + 21) =~= spec_encode_tree(rest));
        let e2 = EntryModel {
            mode: chunk.take(ml),
            name: chunk.skip(ml + 1),
            child_digest: s.subrange(nulpos + 1, nulpos + 21),
        };
        assert(e2 == e);
        assert(seq![e] + rest =~= ms);
    }
}

/// A payload that opens with a well-formed `"<mode> <name>\0"` chunk but
/// carries fewer than 20 bytes after it is rejected as truncated.
pub proof fn lemma_tree_truncated(mode: Seq<u8>, name: Seq<u8>, tail: Seq<u8>)
    requires
        forall|j: int| 0 <= j < mode.len() ==> #[trigger] mode[j] != 0 && mode[j] != 32,
        forall|j: int| 0 <= j < name.len() ==> #[trigger] name[j] != 0,
        tail.len() < 20,
    ensures
        spec_decode_tree(mode + seq![32u8] + name + seq![0u8] + tail) == Err::<
            Seq<EntryModel>,
            Error,
        >(Error::TruncatedTreeEntry),
{
    let s = mode + seq![32u8] + name + seq![0u8] + tail;
    let ml = mode.len() as int;
    let nulpos = ml + 1 + name.len() as int;
    assert forall|j: int| 0 <= j < nulpos implies #[trigger] s[j] != 0 by {
        if j < ml {
            assert(s[j] == mode[j]);
        } else if j == ml {
            assert(s[j] == 32);
        } else {
            assert(s[j] == name[j - ml - 1]);
        }
    }
    assert(s[nulpos] == 0);
    lemma_spec_find_is(s, 0, 0, nulpos);
    let chunk = s.take(nulpos);
    assert forall|j: int| 0 <= j < ml implies #[trigger] chunk[j] != 32 by {
        assert(chunk[j] == mode[j]);
    }
    assert(chunk[ml] == 32);
    lemma_spec_find_is(chunk, 32, 0, ml);
    assert(s.len() - (nulpos + 1) < 20);
}

/// A nonempty payload with no NUL anywhere is rejected as malformed.
pub proof fn lemma_tree_no_nul_rejected(s: Seq<u8>)
    requires
        s.len() > 0,
        forall|j: int| 0 <= j < s.len() ==> #[trigger] s[j] != 0,
    ensures
        spec_decode_tree(s) == Err::<Seq<EntryModel>, Error>(Error::MalformedTreeEntry),
{
    lemma_spec_find_is(s, 0, 0, s.len() as int);
}

/// A payload whose first chunk holds no space between mode and name is
/// rejected as malformed.
pub proof fn lemma_tree_no_space_rejected(s: Seq<u8>)
    requires
        s.len() > 0,
        0 <= spec_find(s, 0, 0) < s.len(),
        forall|j: int| 0 <= j < spec_find(s, 0, 0) ==> #[trigger] s[j] != 32,
    ensures
        spec_decode_tree(s) == Err::<Seq<EntryModel>, Error>(Error::MalformedTreeEntry),
{
    let n = spec_find(s, 0, 0);
    let chunk = s.take(n);
    assert(forall|j: int| 0 <= j < chunk.len() ==> #[trigger] chunk[j] == s[j]);
    lemma_spec_find_is(chunk, 32, 0, n);
}

/// Encodes an ordered run of entries into a tree payload. Names must hold
/// no NUL and modes neither NUL nor space: the format cannot carry others.
pub fn encode_tree(entries: &Vec<TreeEntry>) -> (r: Vec<u8>)
    requires
        forall|i: int| 0 <= i < entries@.len() ==> entry_wf(#[trigger] entries@[i]@),
    ensures
        r@ == spec_encode_tree(models_of(entries@)),
{
    let n = entries.len();
    let mut out: Vec<u8> = Vec::new();
    let mut i: usize = 0;
    while i < n
        invariant
            0 <= i <= n,
            n == entries@.len(),
            out@ == spec_encode_tree(models_of(entries@.take(i as int))),
        decreases n - i,
    {
        encode_entry(&entries[i], &mut out);
        i = i + 1;
        proof {
            assert(models_of(entries@.take(i as int)) =~= models_of(entries@.take(i - 1)).push(
                entries@[i - 1]@,
            ));
            lemma_encode_tree_push(models_of(entries@.take(i - 1)), entries@[i - 1]@);
        }
    }
    proof {
        assert(entries@.take(n as int) =~= entries@);
    }
    out
}

} // verus!
