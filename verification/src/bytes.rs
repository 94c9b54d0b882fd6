//! Plain byte-string keys.
//!
//! Plan ids, asset ids and account addresses are all opaque byte strings;
//! this module supplies the few executable helpers the rest of the crate
//! needs on them: equality, copying, and the distinguished id of the native
//! asset.

use vstd::prelude::*;

use crate::table::has_key;

verus! {

/// Key of a plain byte-string set member: its own bytes.
pub open spec fn bytes_key() -> spec_fn(Vec<u8>) -> Seq<u8> {
    |b: Vec<u8>| b@
}

/// Looks up the index of `x` in a set of byte strings.
pub fn find_bytes(v: &Vec<Vec<u8>>, x: &Vec<u8>) -> (r: Option<usize>)
    ensures
        match r {
            Some(i) => i < v@.len() && v@[i as int]@ == x@,
            None => !has_key(v@, bytes_key(), x@),
        },
{
    let mut i: usize = 0;
    while i < v.len()
        invariant
            i <= v@.len(),
            forall|j: int| 0 <= j < i ==> v@[j]@ != x@,
        decreases v@.len() - i,
    {
        if bytes_eq(&v[i], x) {
            return Some(i);
        }
        i += 1;
    }
    None
}

/// The id of the native asset, as a sequence of bytes: the ASCII text `EGLD`.
pub open spec fn egld_id() -> Seq<u8> {
    seq![69u8, 71u8, 76u8, 68u8]
}

/// Builds the native-asset id as an owned byte string.
pub fn egld_token_id() -> (r: Vec<u8>)
    ensures
        r@ == egld_id(),
{
    let mut r: Vec<u8> = Vec::new();
    r.push(69u8);
    r.push(71u8);
    r.push(76u8);
    r.push(68u8);
    proof {
        assert(r@ =~= egld_id());
    }
    r
}

/// Decides whether two byte strings hold the same bytes.
pub fn bytes_eq(a: &Vec<u8>, b: &Vec<u8>) -> (r: bool)
    ensures
        r == (a@ == b@),
{
    if a.len() != b.len() {
        proof {
            if a@ == b@ {
                assert(a@.len() == b@.len());
            }
        }
        return false;
    }
    let mut i: usize = 0;
    while i < a.len()
        invariant
            a@.len() == b@.len(),
            i <= a@.len(),
            forall|j: int| 0 <= j < i ==> a@[j] == b@[j],
        decreases a@.len() - i,
    {
        if a[i] != b[i] {
            proof {
                if a@ == b@ {
                    assert(a@[i as int] == b@[i as int]);
                }
            }
            return false;
        }
        i += 1;
    }
    proof {
        assert(a@ =~= b@);
    }
    true
}

/// Copies a byte string.
pub fn clone_bytes(v: &Vec<u8>) -> (r: Vec<u8>)
    ensures
        r@ == v@,
{
    let mut r: Vec<u8> = Vec::new();
    let mut i: usize = 0;
    while i < v.len()
        invariant
            i <= v@.len(),
            r@ == v@.take(i as int),
        decreases v@.len() - i,
    {
        let x = v[i];
        r.push(x);
        proof {
            assert(v@.take(i as int).push(v@[i as int]) =~= v@.take(i as int + 1));
        }
        i += 1;
    }
    proof {
        assert(v@.take(v@.len() as int) =~= v@);
    }
    r
}

} // verus!
