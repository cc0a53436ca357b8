use vstd::prelude::*;
use vstd::utf8::{encode_utf8, encode_utf8_decode_utf8};

verus! {

/// `prefix` is a byte-wise prefix of `path` (as `str::starts_with` tests it).
pub open spec fn byte_prefix(prefix: Seq<char>, path: Seq<char>) -> bool {
    encode_utf8(prefix).is_prefix_of(encode_utf8(path))
}

/// Length in bytes of the UTF-8 encoding of `s` (what `str::len` returns).
pub open spec fn byte_len(s: Seq<char>) -> nat {
    encode_utf8(s).len()
}

/// Whether `prefix` is a byte-wise prefix of `path`.
pub fn starts_with(path: &str, prefix: &str) -> (b: bool)
    ensures
        b == byte_prefix(prefix@, path@),
{
    let pb = prefix.as_bytes();
    let bb = path.as_bytes();
    if pb.len() > bb.len() {
        return false;
    }
    let mut i: usize = 0;
    while i < pb.len()
        invariant
            pb@ == encode_utf8(prefix@),
            bb@ == encode_utf8(path@),
            pb@.len() <= bb@.len(),
            0 <= i <= pb@.len(),
            forall|k: int| 0 <= k < i ==> pb@[k] == bb@[k],
        decreases pb@.len() - i,
    {
        if pb[i] != bb[i] {
            assert(pb@[i as int] != bb@.subrange(0, pb@.len() as int)[i as int]);
            return false;
        }
        i = i + 1;
    }
    assert(pb@ =~= bb@.subrange(0, pb@.len() as int));
    true
}

/// Whether two strings hold the same characters.
pub fn same_text(a: &str, b: &str) -> (eq: bool)
    ensures
        eq == (a@ == b@),
{
    let ab = a.as_bytes();
    let bb = b.as_bytes();
    if ab.len() != bb.len() {
        return false;
    }
    let mut i: usize = 0;
    while i < ab.len()
        invariant
            ab@ == encode_utf8(a@),
            bb@ == encode_utf8(b@),
            ab@.len() == bb@.len(),
            0 <= i <= ab@.len(),
            forall|k: int| 0 <= k < i ==> ab@[k] == bb@[k],
        decreases ab@.len() - i,
    {
        if ab[i] != bb[i] {
            return false;
        }
        i = i + 1;
    }
    proof {
        assert(ab@ =~= bb@);
        encode_utf8_decode_utf8(a@);
        encode_utf8_decode_utf8(b@);
    }
    true
}

} // verus!
