use vstd::prelude::*;

pub mod communicator;
pub mod device;
pub mod group;
pub mod notify;
pub mod protocol;
pub mod state;
pub mod task;

verus! {

/// True when a byte is an ASCII punctuation character.
pub open spec fn spec_is_punct(b: u8) -> bool {
    (0x21 <= b && b <= 0x2f) || (0x3a <= b && b <= 0x40) || (0x5b <= b && b <= 0x60)
        || (0x7b <= b && b <= 0x7e)
}

/// True when a byte is an ASCII control character.
pub open spec fn spec_is_ctrl(b: u8) -> bool {
    b < 0x20 || b == 0x7f
}

/// True when a byte is a UTF-8 continuation byte.
pub open spec fn spec_is_cont(b: u8) -> bool {
    0x80 <= b && b <= 0xbf
}

/// The number of characters in a UTF-8 encoded string: one per byte
/// that is not a continuation byte.
pub open spec fn char_count_upto(s: Seq<u8>, n: int) -> int
    decreases n,
{
    if n <= 0 {
        0
    } else if spec_is_cont(s[n - 1]) {
        char_count_upto(s, n - 1)
    } else {
        char_count_upto(s, n - 1) + 1
    }
}

pub open spec fn char_count(s: Seq<u8>) -> int {
    char_count_upto(s, s.len() as int)
}

/// True when position `i` starts the UTF-8 encoding of a control
/// character: an ASCII control byte, or the two-byte sequence of one of
/// the characters between U+0080 and U+009F.
pub open spec fn ctrl_at(s: Seq<u8>, i: int) -> bool {
    spec_is_ctrl(s[i]) || (s[i] == 0xc2 && i + 1 < s.len() && 0x80 <= s[i + 1] && s[i + 1] <= 0x9f)
}

/// A display name, handed over as UTF-8 encoded text, is valid when it
/// is at most 64 characters long and holds neither punctuation nor
/// control characters.  Punctuation is an ASCII class; the control
/// characters are those of U+0000..U+001F, U+007F and U+0080..U+009F,
/// read off their UTF-8 encoding.
pub open spec fn valid_name(s: Seq<u8>) -> bool {
    &&& char_count(s) <= 64
    &&& forall|i: int| 0 <= i < s.len() ==> !spec_is_punct(s[i])
    &&& forall|i: int| 0 <= i < s.len() ==> !ctrl_at(s, i)
}

/// Decides whether a display name is acceptable for a device or a group.
pub fn check_name(name: &Vec<u8>) -> (r: bool)
    ensures
        r == valid_name(name@),
{
    let mut count: usize = 0;
    let mut i: usize = 0;
    while i < name.len()
        invariant
            i <= name@.len(),
            count == char_count_upto(name@, i as int),
            count <= i,
            forall|j: int| 0 <= j < i ==> !spec_is_punct(name@[j]),
            forall|j: int| 0 <= j < i ==> !ctrl_at(name@, j),
        decreases name@.len() - i,
    {
        let b = name[i];
        if (0x21 <= b && b <= 0x2f) || (0x3a <= b && b <= 0x40) || (0x5b <= b && b <= 0x60)
            || (0x7b <= b && b <= 0x7e) || b < 0x20 || b == 0x7f {
            proof {
                assert(spec_is_punct(name@[i as int]) || ctrl_at(name@, i as int));
            }
            return false;
        }
        if b == 0xc2 && i + 1 < name.len() {
            let c = name[i + 1];
            if 0x80 <= c && c <= 0x9f {
                proof {
                    assert(ctrl_at(name@, i as int));
                }
                return false;
            }
        }
        proof {
            assert(!spec_is_punct(name@[i as int]));
            assert(!ctrl_at(name@, i as int));
        }
        if !(0x80 <= b && b <= 0xbf) {
            count += 1;
        }
        i += 1;
    }
    proof {
        assert(count == char_count(name@));
    }
    count <= 64
}

/// True when a UTF-8 encoded string holds no control character.
pub open spec fn no_ctrl(s: Seq<u8>) -> bool {
    forall|i: int| 0 <= i < s.len() ==> !ctrl_at(s, i)
}

/// Decides whether a string holds no control character.
pub fn check_no_ctrl(name: &Vec<u8>) -> (r: bool)
    ensures
        r == no_ctrl(name@),
{
    let mut i: usize = 0;
    while i < name.len()
        invariant
            i <= name@.len(),
            forall|j: int| 0 <= j < i ==> !ctrl_at(name@, j),
        decreases name@.len() - i,
    {
        let b = name[i];
        if b < 0x20 || b == 0x7f {
            proof {
                assert(ctrl_at(name@, i as int));
            }
            return false;
        }
        if b == 0xc2 && i + 1 < name.len() {
            let c = name[i + 1];
            if 0x80 <= c && c <= 0x9f {
                proof {
                    assert(ctrl_at(name@, i as int));
                }
                return false;
            }
        }
        i += 1;
    }
    true
}

/// The views of a list of byte identifiers.
pub open spec fn ids_view(s: Seq<Vec<u8>>) -> Seq<Seq<u8>> {
    s.map_values(|d: Vec<u8>| d@)
}

/// True when `id` occurs in `ids`.
pub open spec fn ids_contain(ids: Seq<Seq<u8>>, id: Seq<u8>) -> bool {
    exists|i: int| 0 <= i < ids.len() && ids[i] == id
}

/// True when no identifier occurs twice.
pub open spec fn ids_distinct(ids: Seq<Seq<u8>>) -> bool {
    forall|i: int, j: int| 0 <= i < j < ids.len() ==> ids[i] != ids[j]
}

/// Distinct identifiers have one ordinal each.
pub proof fn lemma_distinct_unique(ids: Seq<Seq<u8>>, a: int, b: int)
    requires
        ids_distinct(ids),
        0 <= a < ids.len(),
        0 <= b < ids.len(),
        ids[a] == ids[b],
    ensures
        a == b,
{
    if a < b {
        assert(ids[a] != ids[b]);
    }
    if b < a {
        assert(ids[b] != ids[a]);
    }
}

/// Byte-for-byte equality of two identifiers.
pub fn bytes_eq(a: &Vec<u8>, b: &Vec<u8>) -> (r: bool)
    ensures
        r == (a@ == b@),
{
    if a.len() != b.len() {
        return false;
    }
    let mut i: usize = 0;
    while i < a.len()
        invariant
            i <= a@.len(),
            a@.len() == b@.len(),
            forall|j: int| 0 <= j < i ==> a@[j] == b@[j],
        decreases a@.len() - i,
    {
        if a[i] != b[i] {
            return false;
        }
        i += 1;
    }
    proof {
        assert(a@ =~= b@);
    }
    true
}

/// A fresh copy of a byte string.
pub fn clone_bytes(v: &Vec<u8>) -> (r: Vec<u8>)
    ensures
        r@ == v@,
{
    let mut r: Vec<u8> = Vec::new();
    let mut i: usize = 0;
    while i < v.len()
        invariant
            i <= v@.len(),
            r@ == v@.subrange(0, i as int),
        decreases v@.len() - i,
    {
        r.push(v[i]);
        i += 1;
        proof {
            assert(r@ =~= v@.subrange(0, i as int));
        }
    }
    proof {
        assert(r@ =~= v@);
    }
    r
}

/// A fresh copy of a list of byte identifiers.
pub fn clone_ids(v: &Vec<Vec<u8>>) -> (r: Vec<Vec<u8>>)
    ensures
        ids_view(r@) == ids_view(v@),
{
    let mut r: Vec<Vec<u8>> = Vec::new();
    let mut i: usize = 0;
    while i < v.len()
        invariant
            i <= v@.len(),
            r@.len() == i,
            forall|j: int| 0 <= j < i ==> r@[j]@ == v@[j]@,
        decreases v@.len() - i,
    {
        r.push(clone_bytes(&v[i]));
        i += 1;
    }
    proof {
        assert forall|j: int| 0 <= j < v@.len() implies ids_view(r@)[j] == ids_view(v@)[j] by {
            assert(r@[j]@ == v@[j]@);
        }
        assert(ids_view(r@) =~= ids_view(v@));
    }
    r
}

/// The identifiers with repeats dropped: of each identifier, its
/// first occurrence is kept, in order.
pub open spec fn dedup_ids(ids: Seq<Seq<u8>>) -> Seq<Seq<u8>>
    decreases ids.len(),
{
    if ids.len() == 0 {
        Seq::empty()
    } else if ids_contain(ids.drop_last(), ids.last()) {
        dedup_ids(ids.drop_last())
    } else {
        dedup_ids(ids.drop_last()).push(ids.last())
    }
}

/// Dropping repeats keeps exactly the identifiers that were there.
pub proof fn lemma_dedup_membership(ids: Seq<Seq<u8>>, d: Seq<u8>)
    ensures
        ids_contain(dedup_ids(ids), d) == ids_contain(ids, d),
    decreases ids.len(),
{
    if ids.len() > 0 {
        lemma_dedup_membership(ids.drop_last(), d);
        let pre = ids.drop_last();
        if ids_contain(ids, d) {
            let k = choose|k: int| 0 <= k < ids.len() && ids[k] == d;
            if k < ids.len() - 1 {
                assert(pre[k] == d);
                assert(ids_contain(pre, d));
                if !ids_contain(pre, ids.last()) {
                    let m = choose|m: int|
                        0 <= m < dedup_ids(pre).len() && dedup_ids(pre)[m] == d;
                    assert(dedup_ids(ids)[m] == d);
                }
            } else {
                if !ids_contain(pre, ids.last()) {
                    assert(dedup_ids(ids)[dedup_ids(ids).len() - 1] == d);
                }
            }
        }
        if ids_contain(dedup_ids(ids), d) {
            let k = choose|k: int| 0 <= k < dedup_ids(ids).len() && dedup_ids(ids)[k] == d;
            if ids_contain(pre, ids.last()) {
                assert(ids_contain(pre, d));
                let j = choose|j: int| 0 <= j < pre.len() && pre[j] == d;
                assert(ids[j] == d);
            } else {
                if k < dedup_ids(pre).len() {
                    assert(ids_contain(dedup_ids(pre), d));
                    let j = choose|j: int| 0 <= j < pre.len() && pre[j] == d;
                    assert(ids[j] == d);
                } else {
                    assert(ids[ids.len() - 1] == d);
                }
            }
        }
    }
}

/// True when a task identifier occurs in a list of identifiers.
pub open spec fn seq_contains_id(ids: Seq<u128>, id: u128) -> bool {
    exists|i: int| 0 <= i < ids.len() && ids[i] == id
}

/// Whether `id` occurs among `ids`, by byte-for-byte comparison.
pub fn ids_member(ids: &Vec<Vec<u8>>, id: &Vec<u8>) -> (r: bool)
    ensures
        r == ids_contain(ids_view(ids@), id@),
{
    let mut i: usize = 0;
    while i < ids.len()
        invariant
            i <= ids@.len(),
            forall|j: int| 0 <= j < i ==> ids_view(ids@)[j] != id@,
        decreases ids@.len() - i,
    {
        if bytes_eq(&ids[i], id) {
            assert(ids_view(ids@)[i as int] == id@);
            return true;
        }
        i += 1;
    }
    false
}

} // verus!
