use vstd::prelude::*;
use vstd::string::StringExecFns;
use crate::data_source::line::{CustomHighlight, KeyedHighlights, Line};
use crate::highlight::highlight::Highlight;

verus! {

/// The highlights stored under `key`: those of the first group with that key.
pub open spec fn highlights_under(h: Seq<KeyedHighlights>, key: Seq<char>) -> Seq<CustomHighlight> {
    if exists|i: int| 0 <= i < h.len() && h[i].key@ == key {
        let i = choose|i: int|
            0 <= i < h.len() && h[i].key@ == key && forall|j: int| 0 <= j < i ==> h[j].key@ != key;
        h[i].items@
    } else {
        Seq::empty()
    }
}

/// Highlights, with `payload`, what a producer stored in a line under `key`.
pub struct CustomHighlighter<T> {
    key: String,
    payload: T,
}

impl<T: Clone> CustomHighlighter<T> {
    pub closed spec fn spec_key(&self) -> Seq<char> {
        self.key@
    }

    pub closed spec fn spec_payload(&self) -> T {
        self.payload
    }

    pub fn new(key: &str, payload: T) -> (r: Self)
        ensures
            r.spec_key() == key@,
            r.spec_payload() == payload,
    {
        CustomHighlighter { key: String::from_str(key), payload }
    }

    /// One highlight for each span stored in `line` under the key, in their order.
    pub fn process(&self, line: &Line) -> (r: Vec<Highlight<T>>)
        ensures
            ({
                let items = highlights_under(line.custom_highlights@, self.spec_key());
                &&& r@.len() == items.len()
                &&& forall|i: int|
                    0 <= i < items.len() ==> #[trigger] r@[i].spec_start() == items[i].start
                        && r@[i].spec_end() == items[i].end && cloned(
                        self.spec_payload(),
                        r@[i].spec_payload(),
                    )
            }),
    {
        let h = &line.custom_highlights;
        let mut i: usize = 0;
        while i < h.len() && !(h[i].key == self.key)
            invariant
                i <= h@.len(),
                forall|j: int| 0 <= j < i ==> h@[j].key@ != self.key@,
            decreases h@.len() - i,
        {
            i += 1;
        }
        let mut r: Vec<Highlight<T>> = Vec::new();
        if i == h.len() {
            proof {
                assert(!exists|k: int| 0 <= k < h@.len() && h@[k].key@ == self.key@);
            }
            return r;
        }
        proof {
            let c = choose|k: int|
                0 <= k < h@.len() && h@[k].key@ == self.key@ && forall|j: int| 0 <= j < k ==> h@[j].key@ != self.key@;
            assert(c == i as int) by {
                if c < i {
                } else if c > i {
                    assert(h@[i as int].key@ == self.key@);
                }
            }
        }
        let items = &h[i].items;
        let mut k: usize = 0;
        while k < items.len()
            invariant
                k <= items@.len(),
                r@.len() == k,
                forall|j: int|
                    0 <= j < k ==> #[trigger] r@[j].spec_start() == items@[j].start && r@[j].spec_end()
                        == items@[j].end && cloned(self.payload, r@[j].spec_payload()),
            decreases items@.len() - k,
        {
            r.push(Highlight::new(items[k].start(), items[k].end(), self.payload.clone()));
            k += 1;
        }
        r
    }
}

} // verus!
