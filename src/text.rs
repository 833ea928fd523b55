use vstd::prelude::*;

verus! {

/// ASCII case folding of one UTF-8 byte: `A`..`Z` become `a`..`z`, every
/// other byte stays. Bytes of multi-byte sequences are never in `A`..`Z`,
/// so folding bytes folds exactly the ASCII letters of the text.
pub open spec fn fold_byte(b: u8) -> u8 {
    if 65 <= b <= 90 {
        (b + 32) as u8
    } else {
        b
    }
}

/// `needle` occurs in `hay` at `start`, ignoring ASCII case.
pub open spec fn occurs_folded_at(hay: Seq<u8>, needle: Seq<u8>, start: int) -> bool {
    &&& 0 <= start
    &&& start + needle.len() <= hay.len()
    &&& forall|j: int| 0 <= j < needle.len() ==> fold_byte(#[trigger] hay[start + j]) == fold_byte(needle[j])
}

/// `needle` is a substring of `hay`, ignoring ASCII case. The empty needle
/// occurs in every text.
pub open spec fn contains_folded(hay: Seq<u8>, needle: Seq<u8>) -> bool {
    exists|start: int| occurs_folded_at(hay, needle, start)
}

/// The two texts are equal, ignoring ASCII case.
pub open spec fn eq_folded(a: Seq<u8>, b: Seq<u8>) -> bool {
    &&& a.len() == b.len()
    &&& forall|j: int| 0 <= j < a.len() ==> fold_byte(#[trigger] a[j]) == fold_byte(b[j])
}

pub fn fold(b: u8) -> (r: u8)
    ensures
        r == fold_byte(b),
{
    if 65 <= b && b <= 90 {
        b + 32
    } else {
        b
    }
}

fn occurs_at(hay: &Vec<u8>, needle: &Vec<u8>, start: usize) -> (r: bool)
    requires
        start + needle@.len() <= hay@.len(),
    ensures
        r == occurs_folded_at(hay@, needle@, start as int),
{
    let n: usize = hay.len();
    let mut j: usize = 0;
    while j < needle.len()
        invariant
            n == hay@.len(),
            j <= needle@.len(),
            start + needle@.len() <= hay@.len(),
            forall|k: int| 0 <= k < j ==> fold_byte(#[trigger] hay@[start + k]) == fold_byte(needle@[k]),
        decreases needle@.len() - j,
    {
        assert(start + j < hay@.len());
        if fold(hay[start + j]) != fold(needle[j]) {
            return false;
        }
        j = j + 1;
    }
    true
}

/// Case-insensitive (ASCII) substring test on UTF-8 bytes.
pub fn contains_folded_bytes(hay: &Vec<u8>, needle: &Vec<u8>) -> (r: bool)
    ensures
        r == contains_folded(hay@, needle@),
{
    if needle.len() > hay.len() {
        return false;
    }
    let last = hay.len() - needle.len();
    let mut start: usize = 0;
    loop
        invariant
            last == hay@.len() - needle@.len(),
            needle@.len() <= hay@.len(),
            start <= last,
            forall|s: int| 0 <= s < start ==> !occurs_folded_at(hay@, needle@, s),
        decreases last - start,
    {
        if occurs_at(hay, needle, start) {
            return true;
        }
        if start == last {
            return false;
        }
        start = start + 1;
    }
}

/// Case-insensitive (ASCII) equality on UTF-8 bytes.
pub fn eq_folded_bytes(a: &Vec<u8>, b: &Vec<u8>) -> (r: bool)
    ensures
        r == eq_folded(a@, b@),
{
    if a.len() != b.len() {
        return false;
    }
    let r = occurs_at(a, b, 0);
    assert(r == eq_folded(a@, b@)) by {
        assert forall|j: int| 0 <= j < a@.len() implies a@[0 + j] == #[trigger] a@[j] by {}
    }
    r
}

} // verus!
