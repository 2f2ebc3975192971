use vstd::prelude::*;

verus! {

/// `needle` occurs at byte `i` of `hay`.
pub open spec fn occurs_at(hay: Seq<u8>, needle: Seq<u8>, i: int) -> bool {
    0 <= i && i + needle.len() <= hay.len() && hay.subrange(i, i + needle.len()) == needle
}

/// Whether `needle` occurs in `hay`: the filter that keeps the lines holding a substring (an
/// empty one occurs everywhere).
pub fn contains_bytes(hay: &[u8], needle: &[u8]) -> (r: bool)
    ensures
        r == exists|i: int| #[trigger] occurs_at(hay@, needle@, i),
{
    let n = needle.len();
    if n > hay.len() {
        proof {
            assert forall|i: int| !#[trigger] occurs_at(hay@, needle@, i) by {}
        }
        return false;
    }
    let len = hay.len();
    let mut i: usize = 0;
    while i <= len - n
        invariant
            len == hay@.len(),
            n == needle@.len(),
            n <= hay@.len(),
            i <= hay@.len() - n + 1,
            forall|k: int| 0 <= k < i ==> !#[trigger] occurs_at(hay@, needle@, k),
        decreases hay@.len() + 1 - i,
    {
        let mut j: usize = 0;
        let mut same = true;
        while j < n && same
            invariant
                len == hay@.len(),
                n <= hay@.len(),
                n == needle@.len(),
                i + n <= len,
                j <= n,
                forall|t: int| 0 <= t < j ==> hay@[i + t] == needle@[t],
                !same ==> j < n && hay@[i + j] != needle@[j as int],
            decreases n - j + (if same { 1int } else { 0int }),
        {
            if hay[i + j] == needle[j] {
                j += 1;
            } else {
                same = false;
            }
        }
        if j == n {
            proof {
                assert(hay@.subrange(i as int, i + n) =~= needle@);
                assert(occurs_at(hay@, needle@, i as int));
            }
            return true;
        }
        proof {
            assert(!occurs_at(hay@, needle@, i as int)) by {
                if occurs_at(hay@, needle@, i as int) {
                    assert(hay@.subrange(i as int, i + n)[j as int] == needle@[j as int]);
                }
            }
        }
        i += 1;
    }
    proof {
        assert forall|k: int| !#[trigger] occurs_at(hay@, needle@, k) by {
            if 0 <= k < i {
            }
        }
    }
    false
}

} // verus!
