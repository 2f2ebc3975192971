use vstd::prelude::*;
use vstd::utf8::{encode_scalar, encode_utf8, char_is_scalar};
use vstd::string::StringSliceAdditionalSpecFns;
use crate::interval::Integer;

verus! {

broadcast use vstd::string::axiom_spec_iter;

/// Largest size in bytes of a text held in memory; it keeps offsets and their sums in `i64`.
pub const TEXT_LIMIT: u64 = 2305843009213693952;

/// Number of bytes of the UTF-8 encoding of `c`.
pub open spec fn char_width(c: char) -> nat {
    let v = c as u32;
    if v < 0x80 {
        1
    } else if v < 0x800 {
        2
    } else if v < 0x10000 {
        3
    } else {
        4
    }
}

/// Number of bytes of the UTF-8 encoding of `s`.
pub open spec fn byte_len(s: Seq<char>) -> nat
    decreases s.len(),
{
    if s.len() == 0 {
        0
    } else {
        char_width(s[0]) + byte_len(s.drop_first())
    }
}

/// Byte offset of the char with index `i`.
pub open spec fn pos(s: Seq<char>, i: int) -> nat {
    byte_len(s.take(i))
}

pub proof fn lemma_byte_len_encode(s: Seq<char>)
    ensures
        byte_len(s) == encode_utf8(s).len(),
    decreases s.len(),
{
    if s.len() > 0 {
        lemma_byte_len_encode(s.drop_first());
        char_is_scalar(s[0]);
        assert(encode_scalar(s[0] as u32).len() == char_width(s[0]));
    }
}

pub proof fn lemma_byte_len_add(a: Seq<char>, b: Seq<char>)
    ensures
        byte_len(a + b) == byte_len(a) + byte_len(b),
    decreases a.len(),
{
    if a.len() > 0 {
        assert((a + b).drop_first() =~= a.drop_first() + b);
        lemma_byte_len_add(a.drop_first(), b);
    } else {
        assert(a + b =~= b);
    }
}

/// Byte offsets grow by the width of each char.
pub proof fn lemma_pos_step(s: Seq<char>, i: int)
    requires
        0 <= i < s.len(),
    ensures
        pos(s, i + 1) == pos(s, i) + char_width(s[i]),
{
    assert(s.take(i + 1) =~= s.take(i) + seq![s[i]]);
    lemma_byte_len_add(s.take(i), seq![s[i]]);
    assert(seq![s[i]].drop_first() =~= Seq::<char>::empty());
    assert(byte_len(seq![s[i]].drop_first()) == 0);
    assert(byte_len(seq![s[i]]) == char_width(s[i]));
}

/// Byte offsets strictly increase with the char index.
pub proof fn lemma_pos_monotonic(s: Seq<char>, i: int, j: int)
    requires
        0 <= i <= j <= s.len(),
    ensures
        pos(s, i) + (j - i) <= pos(s, j),
    decreases j - i,
{
    if i < j {
        lemma_pos_monotonic(s, i, j - 1);
        lemma_pos_step(s, j - 1);
    }
}

pub proof fn lemma_pos_full(s: Seq<char>)
    ensures
        pos(s, s.len() as int) == byte_len(s),
{
    assert(s.take(s.len() as int) =~= s);
}

/// The byte offset of char `i + 1` is the width of the first char plus the offset of char `i`
/// of the rest.
pub proof fn lemma_pos_drop_first(s: Seq<char>, i: int)
    requires
        0 <= i < s.len(),
    ensures
        pos(s, i + 1) == char_width(s[0]) + pos(s.drop_first(), i),
{
    assert(s.take(i + 1) =~= seq![s[0]] + s.drop_first().take(i));
    lemma_byte_len_add(seq![s[0]], s.drop_first().take(i));
    assert(seq![s[0]].drop_first() =~= Seq::<char>::empty());
    assert(byte_len(seq![s[0]].drop_first()) == 0);
    assert(byte_len(seq![s[0]]) == char_width(s[0]));
}

/// The UTF-8 encoding of a char holds the byte 10 only as the one byte of `'\n'`.
pub proof fn lemma_scalar_newline_byte(c: char)
    ensures
        encode_scalar(c as u32).len() == char_width(c),
        forall|j: int| 0 <= j < encode_scalar(c as u32).len() ==> (#[trigger] encode_scalar(c as u32)[j] == 10u8 <==> (c == '\n' && j == 0)),
{
    let v = c as u32;
    char_is_scalar(c);
    if v <= 0x7F {
        assert((v & 0x7F) == v) by (bit_vector)
            requires
                v <= 0x7F,
        ;
        assert(c == '\n' <==> v == 10);
    } else if v <= 0x7FF {
        let b1 = ((v >> 6) & 0x1F) as u8;
        let b2 = (v & 0x3F) as u8;
        assert((0xC0u8 | b1) != 10u8) by (bit_vector);
        assert((0x80u8 | b2) != 10u8) by (bit_vector);
    } else if v <= 0xFFFF {
        let b1 = ((v >> 12) & 0x0F) as u8;
        let b2 = ((v >> 6) & 0x3F) as u8;
        let b3 = (v & 0x3F) as u8;
        assert((0xE0u8 | b1) != 10u8) by (bit_vector);
        assert((0x80u8 | b2) != 10u8) by (bit_vector);
        assert((0x80u8 | b3) != 10u8) by (bit_vector);
    } else {
        let b1 = ((v >> 18) & 0x7) as u8;
        let b2 = ((v >> 12) & 0x3F) as u8;
        let b3 = ((v >> 6) & 0x3F) as u8;
        let b4 = (v & 0x3F) as u8;
        assert((0xF0u8 | b1) != 10u8) by (bit_vector);
        assert((0x80u8 | b2) != 10u8) by (bit_vector);
        assert((0x80u8 | b3) != 10u8) by (bit_vector);
        assert((0x80u8 | b4) != 10u8) by (bit_vector);
    }
}

/// The bytes 10 of the UTF-8 encoding of a text are exactly the bytes of its `'\n'` chars.
pub proof fn lemma_newline_bytes(s: Seq<char>)
    ensures
        forall|x: int| 0 <= x < encode_utf8(s).len() ==> (#[trigger] encode_utf8(s)[x] == 10u8 <==> exists|i: int| 0 <= i < s.len() && s[i] == '\n' && pos(s, i) == x),
    decreases s.len(),
{
    if s.len() > 0 {
        let rest = s.drop_first();
        lemma_newline_bytes(rest);
        lemma_scalar_newline_byte(s[0]);
        let a = encode_scalar(s[0] as u32);
        let r = encode_utf8(rest);
        let e = encode_utf8(s);
        assert(e == a + r);
        assert(pos(s, 0) == 0) by {
            assert(s.take(0) =~= Seq::<char>::empty());
        }
        assert forall|x: int| 0 <= x < e.len() implies (#[trigger] e[x] == 10u8 <==> exists|i: int| 0 <= i < s.len() && s[i] == '\n' && pos(s, i) == x) by {
            if x < a.len() {
                assert(e[x] == a[x]);
                if exists|i: int| 0 <= i < s.len() && s[i] == '\n' && pos(s, i) == x {
                    let i = choose|i: int| 0 <= i < s.len() && s[i] == '\n' && pos(s, i) == x;
                    if i > 0 {
                        lemma_pos_drop_first(s, i - 1);
                    }
                }
            } else {
                let x1 = x - a.len();
                assert(e[x] == r[x1]);
                if r[x1] == 10u8 {
                    let i1 = choose|i: int| 0 <= i < rest.len() && rest[i] == '\n' && pos(rest, i) == x1;
                    lemma_pos_drop_first(s, i1);
                    assert(s[i1 + 1] == '\n' && pos(s, i1 + 1) == x);
                }
                if exists|i: int| 0 <= i < s.len() && s[i] == '\n' && pos(s, i) == x {
                    let i = choose|i: int| 0 <= i < s.len() && s[i] == '\n' && pos(s, i) == x;
                    assert(i > 0);
                    lemma_pos_drop_first(s, i - 1);
                    assert(rest[i - 1] == '\n' && pos(rest, i - 1) == x1);
                }
            }
        }
    }
}

/// A text held in memory, as chars together with the byte offset of each char.
pub struct Text {
    chars: Vec<char>,
    offsets: Vec<u64>,
    bytes: Vec<u8>,
}

impl Text {
    #[verifier::type_invariant]
    spec fn inv(self) -> bool {
        &&& self.offsets@.len() == self.chars@.len() + 1
        &&& forall|i: int| 0 <= i <= self.chars@.len() ==> #[trigger] self.offsets@[i] == pos(self.chars@, i)
        &&& byte_len(self.chars@) < TEXT_LIMIT
        &&& self.bytes@ == encode_utf8(self.chars@)
    }

    pub closed spec fn view(self) -> Seq<char> {
        self.chars@
    }

    /// A copy of the text.
    pub fn copy(&self) -> (r: Text)
        ensures
            r.view() == self.view(),
    {
        proof {
            use_type_invariant(self);
        }
        let chars = self.chars.clone();
        let offsets = self.offsets.clone();
        let bytes = self.bytes.clone();
        proof {
            assert(chars@ =~= self.chars@);
            assert(offsets@ =~= self.offsets@);
            assert(bytes@ =~= self.bytes@);
        }
        Text { chars, offsets, bytes }
    }

    /// The UTF-8 encoding of the text.
    pub open spec fn spec_bytes(self) -> Seq<u8> {
        encode_utf8(self.view())
    }

    pub fn as_bytes(&self) -> (r: &[u8])
        ensures
            r@ == self.spec_bytes(),
            r@.len() == byte_len(self.view()),
            byte_len(self.view()) < TEXT_LIMIT,
    {
        proof {
            use_type_invariant(self);
            lemma_byte_len_encode(self.chars@);
        }
        self.bytes.as_slice()
    }

    /// The text of a string slice.
    pub fn from_str(s: &str) -> (r: Text)
        requires
            s.spec_bytes().len() < TEXT_LIMIT,
        ensures
            r.view() == s@,
            byte_len(r.view()) == s.spec_bytes().len(),
    {
        proof {
            lemma_byte_len_encode(s@);
        }
        let mut chars: Vec<char> = Vec::new();
        let mut offsets: Vec<u64> = Vec::new();
        offsets.push(0);
        let mut total: u64 = 0;
        for c in it: s.chars()
            invariant
                it.seq() == s@,
                chars@ == s@.take(it.index() as int),
                offsets@.len() == chars@.len() + 1,
                forall|i: int| 0 <= i <= chars@.len() ==> #[trigger] offsets@[i] == pos(chars@, i),
                total == pos(chars@, chars@.len() as int),
                byte_len(s@) < TEXT_LIMIT,
        {
            let ghost k = it.index() as int;
            proof {
                assert(s@.take(k + 1) =~= s@.take(k).push(c));
                lemma_pos_step(s@, k);
                lemma_pos_monotonic(s@, k + 1, s@.len() as int);
                lemma_pos_full(s@);
                assert(chars@.take(k) =~= chars@);
                assert(s@.take(k + 1).take(k) =~= s@.take(k));
                assert(s@.take(k + 1).take(k + 1) =~= s@.take(k + 1));
                assert(s@.take(k) =~= s@.take(k).take(k));
                assert(pos(s@, k) == pos(chars@, k));
                assert(pos(s@, k + 1) == pos(s@.take(k + 1), k + 1));
            }
            let w = char_width_exec(c);
            total = total + w;
            chars.push(c);
            offsets.push(total);
            proof {
                assert forall|i: int| 0 <= i <= chars@.len() implies #[trigger] offsets@[i] == pos(chars@, i) by {
                    if i < chars@.len() {
                        assert(chars@.take(i) =~= s@.take(k).take(i));
                    } else {
                        assert(chars@.take(i) =~= chars@);
                    }
                }
            }
        }
        proof {
            assert(s@.take(s@.len() as int) =~= s@);
        }
        let bytes = vstd::slice::slice_to_vec(s.as_bytes());
        Text { chars, offsets, bytes }
    }

    /// Number of chars.
    pub fn len(&self) -> (r: usize)
        ensures
            r == self.view().len(),
    {
        self.chars.len()
    }

    /// The char with index `i`.
    pub fn char_at(&self, i: usize) -> (r: char)
        requires
            i < self.view().len(),
        ensures
            r == self.view()[i as int],
    {
        self.chars[i]
    }

    /// Byte offset of the char with index `i`; `i` may be the length.
    pub fn offset_at(&self, i: usize) -> (r: Integer)
        requires
            i <= self.view().len(),
        ensures
            r == pos(self.view(), i as int),
            r <= byte_len(self.view()),
            byte_len(self.view()) < TEXT_LIMIT,
    {
        proof {
            use_type_invariant(self);
            lemma_pos_monotonic(self.chars@, i as int, self.chars@.len() as int);
            lemma_pos_full(self.chars@);
        }
        self.offsets[i] as i64
    }

    /// The chars with indices `a..b`.
    pub fn substring(&self, a: usize, b: usize) -> (r: String)
        requires
            a <= b <= self.view().len(),
        ensures
            r@ == self.view().subrange(a as int, b as int),
    {
        crate::data_source::chars::string_of(&self.chars, a, b)
    }

    /// Length in bytes.
    pub fn total(&self) -> (r: Integer)
        ensures
            r == byte_len(self.view()),
            r < TEXT_LIMIT,
    {
        proof {
            use_type_invariant(self);
            lemma_pos_full(self.chars@);
        }
        self.offsets[self.chars.len()] as i64
    }

    /// Index of the first char that starts at or after byte offset `o`; the length if there is
    /// none.
    pub fn index_of_offset(&self, o: Integer) -> (r: usize)
        ensures
            r <= self.view().len(),
            forall|k: int| 0 <= k < r ==> pos(self.view(), k) < o,
            r < self.view().len() ==> pos(self.view(), r as int) >= o,
    {
        proof {
            use_type_invariant(self);
        }
        let n = self.chars.len();
        let mut lo: usize = 0;
        let mut hi: usize = n;
        while lo < hi
            invariant
                n == self.chars@.len(),
                self.offsets@.len() == n + 1,
                forall|i: int| 0 <= i <= n ==> #[trigger] self.offsets@[i] == pos(self.chars@, i),
                lo <= hi <= n,
                forall|k: int| 0 <= k < lo ==> pos(self.chars@, k) < o,
                forall|k: int| hi <= k < n ==> pos(self.chars@, k) >= o,
            decreases hi - lo,
        {
            let mid = lo + (hi - lo) / 2;
            proof {
                assert(self.offsets@[mid as int] == pos(self.chars@, mid as int));
                assert forall|k: int| 0 <= k < mid implies pos(self.chars@, k) <= pos(self.chars@, mid as int) by {
                    lemma_pos_monotonic(self.chars@, k, mid as int);
                }
                assert forall|k: int| mid < k < n implies pos(self.chars@, k) >= pos(self.chars@, mid as int) by {
                    lemma_pos_monotonic(self.chars@, mid as int, k);
                }
            }
            if (self.offsets[mid] as i128) < (o as i128) {
                lo = mid + 1;
            } else {
                hi = mid;
            }
        }
        lo
    }
}

/// Width in bytes of the UTF-8 encoding of `c`.
pub fn char_width_exec(c: char) -> (r: u64)
    ensures
        r == char_width(c),
{
    let v = c as u32;
    if v < 0x80 {
        1
    } else if v < 0x800 {
        2
    } else if v < 0x10000 {
        3
    } else {
        4
    }
}

} // verus!
