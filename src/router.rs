//! Request paths: `/<storage key>/<operations>`.
use crate::ops::{first_index, last_index};
use vstd::prelude::*;
use vstd::string::StringSliceAdditionalSpecFns;
use vstd::utf8::{
    encode_utf8, encode_utf8_valid_utf8, is_char_boundary, is_char_boundary_iff_is_leading_byte,
    valid_utf8,
};

verus! {

pub const SLASH: u8 = 47;

/// The last segment of a path: the operation string.
pub open spec fn path_operations(p: Seq<u8>) -> Seq<u8> {
    let l = last_index(p, SLASH);
    if l < 0 {
        p
    } else {
        p.subrange(l + 1, p.len() as int)
    }
}

/// The segments between the first and the last: the storage key.
pub open spec fn path_key(p: Seq<u8>) -> Seq<u8> {
    let l = last_index(p, SLASH);
    let f = first_index(p.subrange(0, l), SLASH);
    if l < 0 || f < 0 {
        Seq::empty()
    } else {
        p.subrange(f + 1, l)
    }
}

proof fn lemma_boundary_at_slash(b: Seq<u8>, i: int)
    requires
        valid_utf8(b),
        0 <= i < b.len(),
        b[i] == SLASH,
    ensures
        is_char_boundary(b, i),
{
    is_char_boundary_iff_is_leading_byte(b, i);
}

proof fn lemma_boundary_after_slash(b: Seq<u8>)
    requires
        valid_utf8(b),
        b.len() >= 1,
        b[0] == SLASH,
    ensures
        is_char_boundary(b, 1),
{
    reveal_with_fuel(is_char_boundary, 2);
}

/// Finds the last `/` in `b[0..end]`.
fn last_slash(b: &[u8], end: usize) -> (r: Option<usize>)
    requires
        end <= b@.len(),
    ensures
        match r {
            Some(i) => i == last_index(b@.subrange(0, end as int), SLASH) && i < end && b@[i as int]
                == SLASH,
            None => last_index(b@.subrange(0, end as int), SLASH) == -1,
        },
{
    let ghost p = b@.subrange(0, end as int);
    let mut c: usize = end;
    while c > 0 && b[c - 1] != SLASH
        invariant
            c <= end <= b@.len(),
            p == b@.subrange(0, end as int),
            forall|k: int| c <= k < end ==> p[k] != SLASH,
        decreases c,
    {
        c = c - 1;
    }
    proof {
        crate::ops::lemma_last_index(p, SLASH, c - 1);
    }
    if c == 0 {
        None
    } else {
        Some(c - 1)
    }
}

/// Finds the first `/` in `b[0..end]`.
fn first_slash(b: &[u8], end: usize) -> (r: Option<usize>)
    requires
        end <= b@.len(),
    ensures
        match r {
            Some(i) => i == first_index(b@.subrange(0, end as int), SLASH) && i < end && b@[i as int]
                == SLASH,
            None => first_index(b@.subrange(0, end as int), SLASH) == -1,
        },
{
    let ghost p = b@.subrange(0, end as int);
    let mut i: usize = 0;
    while i < end && b[i] != SLASH
        invariant
            i <= end <= b@.len(),
            p == b@.subrange(0, end as int),
            forall|k: int| 0 <= k < i ==> p[k] != SLASH,
        decreases end - i,
    {
        i = i + 1;
    }
    proof {
        crate::ops::lemma_first_index(p, SLASH, i as int);
    }
    if i == end {
        None
    } else {
        Some(i)
    }
}

/// Splits a request path into its operation string (the last segment) and
/// the storage key (the segments between the leading one and the last).
pub fn extract_path_components(path: &str) -> (r: (&str, String))
    ensures
        r.0.spec_bytes() == path_operations(path.spec_bytes()),
        encode_utf8(r.1@) == path_key(path.spec_bytes()),
{
    broadcast use encode_utf8_valid_utf8;

    let b = path.as_bytes();
    assert(b@.subrange(0, b@.len() as int) =~= b@);
    let l = match last_slash(b, b.len()) {
        Some(l) => l,
        None => {
            let key = String::new();
            assert(encode_utf8(key@) =~= Seq::<u8>::empty()) by {
                assert(key@ =~= Seq::<char>::empty());
            }
            return (path, key);
        },
    };
    proof {
        lemma_boundary_at_slash(path.spec_bytes(), l as int);
    }
    let (head, slash_tail) = path.split_at(l);
    proof {
        lemma_boundary_after_slash(slash_tail.spec_bytes());
    }
    let (_, operations) = slash_tail.split_at(1);
    assert(operations.spec_bytes() =~= b@.subrange(l + 1, b@.len() as int));
    let hb = head.as_bytes();
    assert(hb@.subrange(0, l as int) =~= b@.subrange(0, l as int));
    let key = match first_slash(hb, l) {
        Some(f) => {
            proof {
                lemma_boundary_at_slash(head.spec_bytes(), f as int);
            }
            let (_, mid) = head.split_at(f);
            proof {
                lemma_boundary_after_slash(mid.spec_bytes());
            }
            let (_, inner) = mid.split_at(1);
            assert(inner.spec_bytes() =~= b@.subrange(f + 1, l as int));
            let key = inner.to_owned();
            key
        },
        None => {
            let key = String::new();
            assert(encode_utf8(key@) =~= Seq::<u8>::empty()) by {
                assert(key@ =~= Seq::<char>::empty());
            }
            key
        },
    };
    (operations, key)
}

} // verus!
