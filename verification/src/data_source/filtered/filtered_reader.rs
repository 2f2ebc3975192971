use vstd::prelude::*;

verus! {

// ---------------------------------------------------------------------------
// Model: lines of a byte stream, and those near a match
// ---------------------------------------------------------------------------

/// Index just past the first line break at or after `i`, or the length of `src`.
pub open spec fn line_end(src: Seq<u8>, i: int) -> int
    decreases src.len() - i,
{
    if i >= src.len() {
        src.len() as int
    } else if src[i] == 10u8 {
        i + 1
    } else {
        line_end(src, i + 1)
    }
}

/// `starts` are the offsets where the first `starts.len() - 1` lines of `src` begin, followed
/// by the offset just past the last of them; each line ends after a line break, or at the end.
pub open spec fn splits_lines(src: Seq<u8>, starts: Seq<int>) -> bool {
    &&& starts.len() >= 1
    &&& starts[0] == 0
    &&& forall|i: int| 0 <= i < starts.len() - 1 ==> #[trigger] line_step(src, starts, i)
}

/// Line `i` starts within `src` and the next one starts just past its line break.
pub open spec fn line_step(src: Seq<u8>, starts: Seq<int>, i: int) -> bool {
    starts[i] < src.len() && starts[i + 1] == line_end(src, starts[i])
}

/// Line `i` of `src`, given where lines start.
pub open spec fn line_bytes(src: Seq<u8>, starts: Seq<int>, i: int) -> Seq<u8> {
    src.subrange(starts[i], starts[i + 1])
}

/// Line `i` lies within `n` lines of a line that matched.
pub open spec fn selected(matches: Seq<bool>, n: nat, i: int) -> bool {
    exists|j: int| 0 <= j < matches.len() && matches[j] && i - n <= j <= i + n
}

/// The lines before line `upto` that lie near a match, one after another.
pub open spec fn selected_bytes(src: Seq<u8>, starts: Seq<int>, matches: Seq<bool>, n: nat, upto: int) -> Seq<u8>
    decreases upto,
{
    if upto <= 0 {
        Seq::empty()
    } else {
        selected_bytes(src, starts, matches, n, upto - 1) + if selected(matches, n, upto - 1) {
            line_bytes(src, starts, upto - 1)
        } else {
            Seq::empty()
        }
    }
}

/// How many lines after the last match are still to be shown, after the lines whose match
/// results are `matches`.
pub open spec fn echo_after(matches: Seq<bool>, n: nat) -> nat
    decreases matches.len(),
{
    if matches.len() == 0 {
        0
    } else if matches.last() {
        n
    } else {
        let e = echo_after(matches.drop_last(), n);
        if e > 0 {
            (e - 1) as nat
        } else {
            0
        }
    }
}

pub proof fn lemma_split_step(src: Seq<u8>, starts: Seq<int>, i: int)
    requires
        splits_lines(src, starts),
        0 <= i < starts.len() - 1,
    ensures
        starts[i] < src.len(),
        starts[i + 1] == line_end(src, starts[i]),
{
    assert(line_step(src, starts, i));
}

pub proof fn lemma_splits_push(src: Seq<u8>, starts: Seq<int>, x: int)
    requires
        splits_lines(src, starts),
        starts.last() < src.len(),
        x == line_end(src, starts.last()),
    ensures
        splits_lines(src, starts.push(x)),
{
    let s2 = starts.push(x);
    assert forall|i: int| 0 <= i < s2.len() - 1 implies #[trigger] line_step(src, s2, i) by {
        if i < starts.len() - 1 {
            lemma_split_step(src, starts, i);
        }
    }
}

pub proof fn lemma_line_end(src: Seq<u8>, i: int)
    requires
        0 <= i < src.len(),
    ensures
        i < line_end(src, i) <= src.len(),
        forall|k: int| i <= k < line_end(src, i) - 1 ==> src[k] != 10u8,
        line_end(src, i) < src.len() ==> src[line_end(src, i) - 1] == 10u8,
    decreases src.len() - i,
{
    if src[i] == 10u8 {
        assert(line_end(src, i) == i + 1);
    } else if i + 1 < src.len() {
        assert(line_end(src, i) == line_end(src, i + 1));
        lemma_line_end(src, i + 1);
    } else {
        assert(line_end(src, i) == line_end(src, i + 1));
        assert(line_end(src, i + 1) == src.len());
    }
}

pub proof fn lemma_echo_bound(matches: Seq<bool>, n: nat)
    ensures
        echo_after(matches, n) <= n,
    decreases matches.len(),
{
    if matches.len() > 0 && !matches.last() {
        lemma_echo_bound(matches.drop_last(), n);
    }
}

/// The echo counts down from a match: it reaches `d` (at least 1) exactly when a match lies
/// among the last `n - d + 1` lines.
pub proof fn lemma_echo(matches: Seq<bool>, n: nat, d: nat)
    requires
        1 <= d <= n,
    ensures
        echo_after(matches, n) >= d <==> exists|j: int|
            0 <= j && matches.len() - 1 - (n - d) <= j < matches.len() && #[trigger] matches[j],
    decreases matches.len(),
{
    let k = matches.len() as int;
    if k > 0 {
        let m0 = matches.drop_last();
        assert(forall|j: int| 0 <= j < k - 1 ==> #[trigger] m0[j] == matches[j]);
        if matches.last() {
            assert(matches[k - 1]);
        } else {
            let e0 = echo_after(m0, n);
            assert(echo_after(matches, n) == if e0 > 0 { (e0 - 1) as nat } else { 0 });
            lemma_echo_bound(m0, n);
            if d + 1 <= n {
                lemma_echo(m0, n, d + 1);
                if echo_after(matches, n) >= d {
                    assert(e0 >= d + 1);
                    let j = choose|j: int| 0 <= j && m0.len() - 1 - (n - (d + 1)) <= j < m0.len() && #[trigger] m0[j];
                    assert(matches[j]);
                }
                if exists|j: int| 0 <= j && k - 1 - (n - d) <= j < k && #[trigger] matches[j] {
                    let j = choose|j: int| 0 <= j && k - 1 - (n - d) <= j < k && #[trigger] matches[j];
                    assert(j < k - 1);
                    assert(m0[j]);
                    assert(e0 >= d + 1);
                }
            } else {
                if exists|j: int| 0 <= j && k - 1 - (n - d) <= j < k && #[trigger] matches[j] {
                    let j = choose|j: int| 0 <= j && k - 1 - (n - d) <= j < k && #[trigger] matches[j];
                    assert(j == k - 1);
                }
            }
        }
    }
}

/// The selected bytes before `upto` do not depend on lines and results at or after `upto`,
/// nor on a new result that cannot reach a line before `upto` left out so far.
pub proof fn lemma_selected_bytes_stable(
    src: Seq<u8>,
    starts: Seq<int>,
    starts2: Seq<int>,
    matches: Seq<bool>,
    matches2: Seq<bool>,
    n: nat,
    upto: int,
)
    requires
        0 <= upto,
        upto < starts.len(),
        starts.len() <= starts2.len(),
        forall|i: int| 0 <= i < starts.len() ==> #[trigger] starts2[i] == starts[i],
        matches.len() <= matches2.len(),
        forall|i: int| 0 <= i < matches.len() ==> #[trigger] matches2[i] == matches[i],
        forall|i: int| 0 <= i < upto ==> (selected(matches2, n, i) <==> #[trigger] selected(matches, n, i)),
    ensures
        selected_bytes(src, starts2, matches2, n, upto) == selected_bytes(src, starts, matches, n, upto),
    decreases upto,
{
    if upto > 0 {
        lemma_selected_bytes_stable(src, starts, starts2, matches, matches2, n, upto - 1);
        assert(selected(matches2, n, upto - 1) == selected(matches, n, upto - 1));
    }
}

/// Selected bytes grow by the selected lines only.
pub proof fn lemma_selected_bytes_skip(src: Seq<u8>, starts: Seq<int>, matches: Seq<bool>, n: nat, a: int, b: int)
    requires
        0 <= a <= b,
        forall|i: int| a <= i < b ==> !#[trigger] selected(matches, n, i),
    ensures
        selected_bytes(src, starts, matches, n, b) == selected_bytes(src, starts, matches, n, a),
    decreases b - a,
{
    if b > a {
        lemma_selected_bytes_skip(src, starts, matches, n, a, b - 1);
        assert(!selected(matches, n, b - 1));
        assert(selected_bytes(src, starts, matches, n, b) =~= selected_bytes(src, starts, matches, n, b - 1));
    }
}

/// Selected bytes are no longer than the text they are taken from.
pub proof fn lemma_selected_bytes_len(src: Seq<u8>, starts: Seq<int>, matches: Seq<bool>, n: nat, upto: int)
    requires
        0 <= upto < starts.len(),
        splits_lines(src, starts),
    ensures
        selected_bytes(src, starts, matches, n, upto).len() <= starts[upto],
    decreases upto,
{
    if upto > 0 {
        lemma_selected_bytes_len(src, starts, matches, n, upto - 1);
        lemma_split_step(src, starts, upto - 1);
        lemma_line_end(src, starts[upto - 1]);
    }
}

// ---------------------------------------------------------------------------
// The cache of lines around matches
// ---------------------------------------------------------------------------

/// A line break or a carriage return.
pub fn is_newline(b: u8) -> (r: bool)
    ensures
        r == (b == 10u8 || b == 13u8),
{
    b == 10u8 || b == 13u8
}

/// A line read from the source: where it starts, its bytes (with the line break) and
/// whether the filter accepted it.
pub struct CacheItem {
    pub offset: u64,
    pub bytes: Vec<u8>,
    pub is_ok: bool,
}

impl CacheItem {
    pub fn new(offset: u64, bytes: Vec<u8>, is_ok: bool) -> (r: Self)
        ensures
            r.offset == offset,
            r.bytes@ == bytes@,
            r.is_ok == is_ok,
    {
        CacheItem { offset, bytes, is_ok }
    }
}

impl Clone for CacheItem {
    fn clone(&self) -> (r: Self)
        ensures
            r.offset == self.offset,
            r.bytes@ == self.bytes@,
            r.is_ok == self.is_ok,
    {
        let bytes = self.bytes.clone();
        assert(bytes@ =~= self.bytes@);
        CacheItem { offset: self.offset, bytes, is_ok: self.is_ok }
    }
}

/// The filter returned `r` for a line with bytes `line`.
pub open spec fn filter_gave<F: Fn(&[u8]) -> bool>(filter: F, line: Seq<u8>, r: bool) -> bool {
    exists|b: &[u8]| b@ == line && filter.ensures((b,), r)
}

/// `item` is line `i`, with its start, its bytes and its filter result.
pub open spec fn item_is_line(item: CacheItem, src: Seq<u8>, starts: Seq<int>, matches: Seq<bool>, i: int) -> bool {
    &&& item.offset == starts[i]
    &&& item.bytes@ == line_bytes(src, starts, i)
    &&& item.is_ok == matches[i]
}

/// The bytes of `source` from `from` to just past the next line break (or to the end).
fn read_until_newline(source: &Vec<u8>, from: usize) -> (r: Vec<u8>)
    requires
        from <= source@.len(),
    ensures
        r@ == source@.subrange(from as int, line_end(source@, from as int)),
{
    let ghost src = source@;
    let mut r: Vec<u8> = Vec::new();
    let mut i = from;
    let mut done = false;
    while !done && i < source.len()
        invariant
            src == source@,
            from <= i <= src.len(),
            r@ == src.subrange(from as int, i as int),
            !done ==> line_end(src, from as int) == line_end(src, i as int),
            done ==> line_end(src, from as int) == i,
        decreases src.len() - i,
    {
        let b = source[i];
        r.push(b);
        assert(line_end(src, i as int) == if b == 10u8 { i + 1 } else { line_end(src, i + 1) });
        i = i + 1;
        if b == 10u8 {
            done = true;
        }
        assert(r@ =~= src.subrange(from as int, i as int));
    }
    r
}

/// Lines of `source` read one by one and handed out only when they lie within
/// `neighbourhood` lines of a line that the filter accepts. Lines that may still come before
/// a match wait in `future`; lines handed out are kept in `history`, so that the last one can
/// be taken back.
struct Cache<F: Fn(&[u8]) -> bool> {
    neighbourhood: usize,
    future: Vec<CacheItem>,
    history: Vec<CacheItem>,
    echo: usize,
    has_match: bool,
    restored: bool,
    filter: F,
    source: Vec<u8>,
    reader_pos: usize,
    pos: u64,
    starts: Ghost<Seq<int>>,
    matches: Ghost<Seq<bool>>,
    can_restore: Ghost<bool>,
}

impl<F: Fn(&[u8]) -> bool> Cache<F> {
    spec fn n(&self) -> nat {
        self.neighbourhood as nat
    }

    /// Lines before this one have all been handed out or left out for good.
    spec fn frontier(&self) -> int {
        self.matches@.len() - self.future@.len()
    }

    /// The bytes handed out so far.
    spec fn emitted(&self) -> Seq<u8> {
        selected_bytes(self.source@, self.starts@, self.matches@, self.n(), self.frontier())
    }

    spec fn wf(&self) -> bool {
        let src = self.source@;
        let starts = self.starts@;
        let m = self.matches@;
        let n = self.n();
        let k = m.len() as int;
        let f = self.future@.len() as int;
        let frontier = k - f;
        &&& splits_lines(src, starts)
        &&& starts.len() == k + 1
        &&& self.reader_pos == starts[k]
        &&& self.reader_pos <= src.len()
        &&& src.len() <= usize::MAX
        &&& self.neighbourhood < usize::MAX
        &&& forall|b: &[u8]| #[trigger] self.filter.requires((b,))
        &&& forall|i: int| 0 <= i < k ==> #[trigger] filter_gave(self.filter, line_bytes(src, starts, i), m[i])
        &&& f <= n + 1
        &&& 0 <= frontier
        &&& forall|t: int| 0 <= t < f ==> #[trigger] item_is_line(self.future@[t], src, starts, m, frontier + t)
        &&& self.pos == selected_bytes(src, starts, m, n, frontier).len()
        &&& self.echo == echo_after(m, n)
        &&& self.has_match ==> f >= 1 && m[k - 1] && forall|t: int| 0 <= t < f - 1 ==> !#[trigger] m[frontier + t]
        &&& !self.has_match && self.restored ==> f == 1 && selected(m, n, k - 1)
        &&& !self.has_match && !self.restored ==> forall|t: int|
            0 <= t < f ==> !#[trigger] m[frontier + t] && !selected(m, n, frontier + t)
        &&& forall|i: int| 0 <= i < frontier && !#[trigger] selected(m, n, i) ==> i + n < k
        &&& !self.has_match && !self.restored && self.echo > 0 ==> f == 0
        &&& self.restored ==> f >= 1
        &&& self.can_restore@ ==> {
            &&& self.history@.len() >= 1
            &&& frontier >= 1
            &&& item_is_line(self.history@.last(), src, starts, m, frontier - 1)
            &&& selected(m, n, frontier - 1)
            &&& !self.restored
            &&& (self.has_match ==> f <= n && !self.history@.last().is_ok)
            &&& (!self.has_match ==> f == 0)
        }
    }

    /// All lines of the source have been read, and all those near a match handed out.
    spec fn exhausted(&self) -> bool {
        &&& self.reader_pos == self.source@.len()
        &&& !self.restored
        &&& self.emitted() == selected_bytes(self.source@, self.starts@, self.matches@, self.n(), self.matches@.len() as int)
    }

    fn new(neighbourhood: usize, filter: F, source: Vec<u8>) -> (r: Self)
        requires
            neighbourhood < usize::MAX,
            forall|b: &[u8]| #[trigger] filter.requires((b,)),
        ensures
            r.wf(),
            r.neighbourhood == neighbourhood,
            r.filter == filter,
            r.source@ == source@,
            r.matches@.len() == 0,
            r.future@.len() == 0,
            !r.restored,
    {
        let _ = source.len();
        Cache {
            neighbourhood,
            future: Vec::new(),
            history: Vec::new(),
            echo: 0,
            has_match: false,
            restored: false,
            filter,
            source,
            reader_pos: 0,
            pos: 0,
            starts: Ghost(Seq::empty().push(0int)),
            matches: Ghost(Seq::empty()),
            can_restore: Ghost(false),
        }
    }

    /// The next line to hand out. A line taken back by `restore` comes first; lines waiting
    /// before a match come next, once the match is read; otherwise lines are read until one
    /// is a match or follows a match closely enough. `None` at the end of the source, when
    /// all lines near a match have been handed out.
    #[verifier::rlimit(60)]
    fn next(&mut self) -> (r: Option<CacheItem>)
        requires
            old(self).wf(),
        ensures
            final(self).wf(),
            final(self).neighbourhood == old(self).neighbourhood,
            final(self).filter == old(self).filter,
            final(self).source@ == old(self).source@,
            match r {
                Some(item) => {
                    &&& final(self).emitted() == old(self).emitted() + item.bytes@
                    &&& final(self).history@.last().bytes@ == item.bytes@
                    &&& !final(self).restored
                    &&& final(self).can_restore@
                    &&& item.bytes@.len() >= 1
                    &&& (old(self).restored ==> item == old(self).future@[0])
                },
                None => {
                    &&& final(self).emitted() == old(self).emitted()
                    &&& final(self).exhausted()
                    &&& !old(self).restored
                },
            },
    {
        let ghost src = self.source@;
        let ghost n = self.n();
        proof {
            self.can_restore@ = false;
        }
        if self.restored || (self.has_match && self.future.len() > 0) {
            let ghost k = self.matches@.len() as int;
            let ghost f = self.future@.len() as int;
            let ghost fr = k - f;
            let item = self.future.remove(0);
            let restored = self.restored;
            self.restored = false;
            if item.is_ok {
                self.has_match = false;
            }
            proof {
                let m = self.matches@;
                let starts = self.starts@;
                assert(item_is_line(old(self).future@[0], src, starts, m, fr + 0));
                if old(self).has_match {
                    assert(selected(m, n, fr)) by {
                        assert(m[k - 1]);
                    }
                    if item.is_ok {
                        if f > 1 {
                            assert(!m[fr + 0]);
                        }
                    }
                }
                assert(selected(m, n, fr));
                assert(selected_bytes(src, starts, m, n, fr + 1) == selected_bytes(src, starts, m, n, fr) + line_bytes(src, starts, fr));
                lemma_selected_bytes_len(src, starts, m, n, fr + 1);
                lemma_split_step(src, starts, fr);
                lemma_line_end(src, starts[fr]);
                assert forall|t: int| 0 <= t < self.future@.len() implies #[trigger] item_is_line(self.future@[t], src, starts, m, fr + 1 + t) by {
                    assert(self.future@[t] == old(self).future@[t + 1]);
                    assert(item_is_line(old(self).future@[t + 1], src, starts, m, fr + (t + 1)));
                }
                if self.has_match {
                    assert forall|t: int| 0 <= t < self.future@.len() - 1 implies !#[trigger] m[fr + 1 + t] by {
                        assert(!m[fr + (t + 1)]);
                    }
                }
            }
            self.pos = self.pos + item.bytes.len() as u64;
            self.push_history(item.clone());
            proof {
                self.can_restore@ = true;
            }
            return Some(item);
        }
        loop
            invariant
                self.wf(),
                !self.restored,
                !old(self).restored,
                !self.has_match,
                !self.can_restore@,
                self.emitted() == old(self).emitted(),
                self.neighbourhood == old(self).neighbourhood,
                self.filter == old(self).filter,
                self.source@ == old(self).source@,
                src == self.source@,
                n == self.n(),
            decreases src.len() - self.reader_pos,
        {
            let ghost k = self.matches@.len() as int;
            let ghost f = self.future@.len() as int;
            let ghost fr = k - f;
            let ghost m = self.matches@;
            let ghost starts = self.starts@;
            let ghost fut = self.future@;
            assert(forall|t: int| 0 <= t < f ==> !#[trigger] m[fr + t] && !selected(m, n, fr + t));
            assert(forall|t: int| 0 <= t < f ==> #[trigger] item_is_line(fut[t], src, starts, m, fr + t));
            let offset = self.reader_pos as u64;
            let buf = read_until_newline(&self.source, self.reader_pos);
            if buf.len() == 0 {
                proof {
                    if self.reader_pos < src.len() {
                        lemma_line_end(src, self.reader_pos as int);
                    }
                    assert forall|i: int| fr <= i < k implies !#[trigger] selected(m, n, i) by {
                        let t = i - fr;
                        assert(!m[fr + t] && !selected(m, n, fr + t));
                    }
                    lemma_selected_bytes_skip(src, starts, m, n, fr, k);
                }
                return None;
            }
            proof {
                lemma_line_end(src, self.reader_pos as int);
            }
            let slice = buf.as_slice();
            let is_ok = (self.filter)(slice);
            let new_pos = self.reader_pos + buf.len();
            self.reader_pos = new_pos;
            proof {
                self.starts@ = starts.push(new_pos as int);
                self.matches@ = m.push(is_ok);
            }
            let ghost m2 = self.matches@;
            let ghost starts2 = self.starts@;
            proof {
                assert(line_bytes(src, starts2, k) =~= buf@);
                assert forall|i: int| 0 <= i < k + 1 implies #[trigger] filter_gave(self.filter, line_bytes(src, starts2, i), m2[i]) by {
                    if i < k {
                        assert(line_bytes(src, starts2, i) == line_bytes(src, starts, i));
                        assert(filter_gave(self.filter, line_bytes(src, starts, i), m[i]));
                    } else {
                        assert(slice@ == line_bytes(src, starts2, i));
                        assert(self.filter.ensures((slice,), is_ok));
                    }
                }
                lemma_splits_push(src, starts, new_pos as int);
                // lines before the frontier keep their selection
                assert forall|i: int| 0 <= i < fr implies (selected(m2, n, i) <==> #[trigger] selected(m, n, i)) by {
                    if selected(m, n, i) {
                        let j = choose|j: int| 0 <= j < m.len() && m[j] && i - n <= j <= i + n;
                        assert(m2[j]);
                    }
                    if selected(m2, n, i) && !selected(m, n, i) {
                        let j = choose|j: int| 0 <= j < m2.len() && m2[j] && i - n <= j <= i + n;
                        if j < k {
                            assert(m[j]);
                        }
                    }
                }
                lemma_selected_bytes_stable(src, starts, starts2, m, m2, n, fr);
                if n >= 1 {
                    lemma_echo(m, n, 1);
                }
                lemma_echo_bound(m, n);
                assert(m2.drop_last() =~= m);
            }
            let item = CacheItem::new(offset, buf, is_ok);
            if !is_ok && self.echo > 0 {
                self.echo = self.echo - 1;
                proof {
                    let j = choose|j: int| 0 <= j && m.len() - 1 - (n - 1) <= j < m.len() && #[trigger] m[j];
                    assert(m2[j]);
                    assert(selected(m2, n, k));
                    assert(f == 0);
                    assert(selected_bytes(src, starts2, m2, n, k + 1) == selected_bytes(src, starts2, m2, n, k) + line_bytes(src, starts2, k));
                    lemma_selected_bytes_len(src, starts2, m2, n, k + 1);
                    assert forall|i: int| 0 <= i < k + 1 && !#[trigger] selected(m2, n, i) implies i + n < k + 1 by {
                        if i < k {
                            assert(!selected(m, n, i));
                        }
                    }
                }
                self.pos = self.pos + item.bytes.len() as u64;
                self.push_history(item.clone());
                proof {
                    self.can_restore@ = true;
                }
                return Some(item);
            }
            if is_ok {
                self.echo = self.neighbourhood;
                self.has_match = true;
            }
            let ghost evict = f == n + 1;
            if self.future.len() == self.neighbourhood + 1 {
                let evicted = self.future.remove(0);
                self.push_history(evicted);
            }
            self.future.push(item);
            proof {
                let fr2 = k + 1 - self.future@.len();
                if evict {
                    assert(fr2 == fr + 1);
                    assert(0 < f);
                    assert(!m[fr + 0]);
                    assert(!selected(m, n, fr + 0));
                    assert(!selected(m2, n, fr)) by {
                        if selected(m2, n, fr) {
                            let j = choose|j: int| 0 <= j < m2.len() && m2[j] && fr - n <= j <= fr + n;
                            if j < k {
                                assert(m[j]);
                            }
                        }
                    }
                    lemma_selected_bytes_skip(src, starts2, m2, n, fr, fr + 1);
                } else {
                    assert(fr2 == fr);
                }
                assert forall|t: int| 0 <= t < self.future@.len() implies #[trigger] item_is_line(self.future@[t], src, starts2, m2, fr2 + t) by {
                    if fr2 + t < k {
                        let t0 = if evict { t + 1 } else { t };
                        assert(item_is_line(fut[t0], src, starts, m, fr + t0)) by {
                            assert(self.future@[t] == fut[t0]);
                        }
                        assert(line_bytes(src, starts2, fr + t0) == line_bytes(src, starts, fr + t0));
                    }
                }
                assert forall|i: int| 0 <= i < fr2 && !#[trigger] selected(m2, n, i) implies i + n < k + 1 by {
                    if i < fr {
                        assert(!selected(m, n, i));
                    }
                }
                if is_ok {
                    assert(self.echo == echo_after(m2, n));
                    assert forall|t: int| 0 <= t < self.future@.len() - 1 implies !#[trigger] m2[fr2 + t] by {
                        let t0 = if evict { t + 1 } else { t };
                        assert(!m[fr + t0]);
                    }
                } else {
                    assert(!selected(m2, n, k)) by {
                        if selected(m2, n, k) {
                            let j = choose|j: int| 0 <= j < m2.len() && m2[j] && k - n <= j <= k + n;
                            assert(j < k);
                            assert(m[j]);
                        }
                    }
                    assert forall|t: int| 0 <= t < self.future@.len() implies !#[trigger] m2[fr2 + t] && !selected(m2, n, fr2 + t) by {
                        if fr2 + t < k {
                            let t0 = if evict { t + 1 } else { t };
                            assert(0 <= t0 < f);
                            assert(fr + t0 == fr2 + t);
                            assert(!m[fr + t0]);
                            assert(!selected(m, n, fr + t0));
                            if selected(m2, n, fr2 + t) {
                                let j = choose|j: int| 0 <= j < m2.len() && m2[j] && fr2 + t - n <= j <= fr2 + t + n;
                                if j < k {
                                    assert(m[j]);
                                }
                            }
                        }
                    }
                }
            }
            if is_ok {
                let ghost f3 = self.future@.len() as int;
                let ghost fr3 = k + 1 - f3;
                let first = self.future.remove(0);
                if first.is_ok {
                    self.has_match = false;
                }
                proof {
                    assert(item_is_line(first, src, starts2, m2, fr3 + 0));
                    assert(selected(m2, n, fr3)) by {
                        assert(m2[k]);
                    }
                    if first.is_ok && f3 > 1 {
                        assert(!m2[fr3 + 0]);
                    }
                    assert(selected_bytes(src, starts2, m2, n, fr3 + 1) == selected_bytes(src, starts2, m2, n, fr3) + line_bytes(src, starts2, fr3));
                    lemma_selected_bytes_len(src, starts2, m2, n, fr3 + 1);
                    lemma_split_step(src, starts2, fr3);
                    lemma_line_end(src, starts2[fr3]);
                    assert forall|t: int| 0 <= t < self.future@.len() implies #[trigger] item_is_line(self.future@[t], src, starts2, m2, fr3 + 1 + t) by {
                        assert(item_is_line(self.future@[t], src, starts2, m2, fr3 + (t + 1)));
                    }
                    if self.has_match {
                        assert forall|t: int| 0 <= t < self.future@.len() - 1 implies !#[trigger] m2[fr3 + 1 + t] by {
                            assert(!m2[fr3 + (t + 1)]);
                        }
                    }
                }
                self.pos = self.pos + first.bytes.len() as u64;
                self.push_history(first.clone());
                proof {
                    self.can_restore@ = true;
                }
                return Some(first);
            }
        }
    }

    /// Takes back the line handed out last: it becomes the next one again.
    fn restore(&mut self)
        requires
            old(self).wf(),
            old(self).can_restore@,
        ensures
            final(self).wf(),
            final(self).restored,
            final(self).future@.len() >= 1,
            old(self).emitted() == final(self).emitted() + final(self).future@[0].bytes@,
            final(self).future@[0] == old(self).history@.last(),
            final(self).neighbourhood == old(self).neighbourhood,
            final(self).filter == old(self).filter,
            final(self).source@ == old(self).source@,
    {
        let ghost src = self.source@;
        let ghost n = self.n();
        let ghost m = self.matches@;
        let ghost starts = self.starts@;
        let ghost k = m.len() as int;
        let ghost fr = k - self.future@.len();
        let item = match self.history.pop() {
            Some(item) => item,
            None => return,
        };
        if item.is_ok {
            self.has_match = true;
            self.echo = self.neighbourhood;
        }
        proof {
            assert(selected_bytes(src, starts, m, n, fr) == selected_bytes(src, starts, m, n, fr - 1) + line_bytes(src, starts, fr - 1));
            lemma_selected_bytes_len(src, starts, m, n, fr - 1);
        }
        self.pos = self.pos - item.bytes.len() as u64;
        self.future.insert(0, item);
        self.restored = true;
        proof {
            self.can_restore@ = false;
            assert forall|t: int| 0 <= t < self.future@.len() implies #[trigger] item_is_line(self.future@[t], src, starts, m, fr - 1 + t) by {
                if t > 0 {
                    assert(self.future@[t] == old(self).future@[t - 1]);
                    assert(item_is_line(old(self).future@[t - 1], src, starts, m, fr + (t - 1)));
                }
            }
            if self.has_match {
                assert forall|t: int| 0 <= t < self.future@.len() - 1 implies !#[trigger] m[fr - 1 + t] by {
                    if t > 0 {
                        assert(!m[fr + (t - 1)]);
                    }
                }
            }
        }
    }

    /// Back to the start of the source, with nothing read.
    fn reset(&mut self)
        requires
            old(self).wf(),
        ensures
            final(self).wf(),
            final(self).matches@.len() == 0,
            final(self).future@.len() == 0,
            !final(self).restored,
            final(self).neighbourhood == old(self).neighbourhood,
            final(self).filter == old(self).filter,
            final(self).source@ == old(self).source@,
    {
        self.future.clear();
        self.history.clear();
        self.echo = 0;
        self.has_match = false;
        self.restored = false;
        self.reader_pos = 0;
        self.pos = 0;
        proof {
            self.starts@ = Seq::empty().push(0int);
            self.matches@ = Seq::empty();
            self.can_restore@ = false;
        }
    }

    /// The number of bytes handed out.
    fn pos(&self) -> (r: u64)
        requires
            self.wf(),
        ensures
            r == self.emitted().len(),
    {
        self.pos
    }

    /// Keeps `item` as the last line handed out or passed over; at most
    /// `max(neighbourhood, 1)` lines are kept.
    fn push_history(&mut self, item: CacheItem)
        ensures
            final(self).history@.len() >= 1,
            final(self).history@.last() == item,
            final(self).future == old(self).future,
            final(self).neighbourhood == old(self).neighbourhood,
            final(self).echo == old(self).echo,
            final(self).has_match == old(self).has_match,
            final(self).restored == old(self).restored,
            final(self).filter == old(self).filter,
            final(self).source == old(self).source,
            final(self).reader_pos == old(self).reader_pos,
            final(self).pos == old(self).pos,
            final(self).starts == old(self).starts,
            final(self).matches == old(self).matches,
            final(self).can_restore == old(self).can_restore,
    {
        let capacity = if self.neighbourhood > 0 { self.neighbourhood } else { 1 };
        if self.history.len() >= capacity && self.history.len() > 0 {
            self.history.remove(0);
        }
        self.history.push(item);
    }
}

// ---------------------------------------------------------------------------
// The reader
// ---------------------------------------------------------------------------

/// `a` is a prefix of `b`.
pub open spec fn is_prefix(a: Seq<u8>, b: Seq<u8>) -> bool {
    a.len() <= b.len() && b.take(a.len() as int) == a
}

/// Selected bytes agree up to line `u` for two splittings and two lists of filter answers
/// that agree on those lines and on which of them are selected.
proof fn lemma_selected_bytes_agree(
    src: Seq<u8>,
    s1: Seq<int>,
    m1: Seq<bool>,
    s2: Seq<int>,
    m2: Seq<bool>,
    n: nat,
    u: int,
)
    requires
        forall|i: int| 0 <= i < u ==> #[trigger] line_bytes(src, s1, i) == line_bytes(src, s2, i),
        forall|i: int| 0 <= i < u ==> #[trigger] selected(m1, n, i) == selected(m2, n, i),
    ensures
        selected_bytes(src, s1, m1, n, u) == selected_bytes(src, s2, m2, n, u),
    decreases u,
{
    if u > 0 {
        lemma_selected_bytes_agree(src, s1, m1, s2, m2, n, u - 1);
        assert(line_bytes(src, s1, u - 1) == line_bytes(src, s2, u - 1));
        assert(selected(m1, n, u - 1) == selected(m2, n, u - 1));
    }
}

/// Selected bytes before a line are a prefix of those before any later line.
pub proof fn lemma_selected_bytes_prefix(src: Seq<u8>, starts: Seq<int>, matches: Seq<bool>, n: nat, a: int, b: int)
    requires
        0 <= a <= b,
    ensures
        is_prefix(selected_bytes(src, starts, matches, n, a), selected_bytes(src, starts, matches, n, b)),
    decreases b - a,
{
    let sa = selected_bytes(src, starts, matches, n, a);
    if b > a {
        lemma_selected_bytes_prefix(src, starts, matches, n, a, b - 1);
        let sb1 = selected_bytes(src, starts, matches, n, b - 1);
        let sb = selected_bytes(src, starts, matches, n, b);
        assert(sb.take(sa.len() as int) =~= sb1.take(sa.len() as int));
    } else {
        assert(sa.take(sa.len() as int) =~= sa);
    }
}

/// Reads, as one stream of bytes, the lines of a source that lie within `neighbourhood`
/// lines of a line that the filter accepts, in the order of the source.
pub struct FilteredReader<F: Fn(&[u8]) -> bool> {
    cache: Cache<F>,
    /// number of bytes already read from the next line of the cache
    p: usize,
    output: Ghost<Seq<u8>>,
}

impl<F: Fn(&[u8]) -> bool> FilteredReader<F> {
    pub closed spec fn wf(&self) -> bool {
        &&& self.cache.wf()
        &&& (self.cache.restored <==> self.p > 0)
        &&& self.p > 0 ==> self.p < self.cache.future@[0].bytes@.len()
        &&& self.output@ == self.cache.emitted() + if self.p > 0 {
            self.cache.future@[0].bytes@.take(self.p as int)
        } else {
            Seq::empty()
        }
    }

    /// All bytes read so far (since creation or the last seek to a position).
    pub closed spec fn output(&self) -> Seq<u8> {
        self.output@
    }

    pub closed spec fn source(&self) -> Seq<u8> {
        self.cache.source@
    }

    /// Where the lines read from the source start, then where reading stopped.
    pub closed spec fn line_starts(&self) -> Seq<int> {
        self.cache.starts@
    }

    /// What the filter said of each line read from the source.
    pub closed spec fn matches(&self) -> Seq<bool> {
        self.cache.matches@
    }

    pub closed spec fn neighbourhood(&self) -> nat {
        self.cache.neighbourhood as nat
    }

    pub closed spec fn filter(&self) -> F {
        self.cache.filter
    }

    /// The whole source has been read, and every line near a match handed out.
    pub closed spec fn exhausted(&self) -> bool {
        self.cache.exhausted() && self.p == 0
    }

    /// A reader of `source` that keeps the lines within `neighbourhood` lines of a line that
    /// `filter` accepts.
    pub fn new(source: Vec<u8>, filter: F, neighbourhood: u8) -> (r: Self)
        requires
            forall|b: &[u8]| #[trigger] filter.requires((b,)),
        ensures
            r.wf(),
            r.output().len() == 0,
            r.source() == source@,
            r.neighbourhood() == neighbourhood,
            r.filter() == filter,
            r.matches().len() == 0,
    {
        let r = FilteredReader {
            cache: Cache::new(neighbourhood as usize, filter, source),
            p: 0,
            output: Ghost(Seq::empty()),
        };
        assert(r.output@ =~= r.cache.emitted());
        r
    }

    /// Back to the start of the source, with nothing read.
    fn reset(&mut self)
        requires
            old(self).wf(),
        ensures
            final(self).wf(),
            final(self).output().len() == 0,
            final(self).matches().len() == 0,
            final(self).source() == old(self).source(),
            final(self).neighbourhood() == old(self).neighbourhood(),
            final(self).filter() == old(self).filter(),
    {
        self.cache.reset();
        self.p = 0;
        proof {
            self.output@ = Seq::empty();
            assert(self.output@ =~= self.cache.emitted());
        }
    }

    /// Reads at most `limit` bytes of the stream; fewer only at its end.
    fn do_read(&mut self, limit: usize) -> (r: Vec<u8>)
        requires
            old(self).wf(),
        ensures
            final(self).wf(),
            final(self).output() == old(self).output() + r@,
            r@.len() <= limit,
            r@.len() < limit ==> final(self).exhausted(),
            final(self).source() == old(self).source(),
            final(self).neighbourhood() == old(self).neighbourhood(),
            final(self).filter() == old(self).filter(),
    {
        let mut out: Vec<u8> = Vec::new();
        while out.len() < limit
            invariant
                self.wf(),
                out@.len() <= limit,
                self.output@ == old(self).output@ + out@,
                self.source() == old(self).source(),
                self.neighbourhood() == old(self).neighbourhood(),
                self.filter() == old(self).filter(),
            decreases limit - out@.len(),
        {
            let ghost out0 = out@;
            let ghost emitted0 = self.cache.emitted();
            let ghost p0 = self.p as int;
            let item = match self.cache.next() {
                Some(item) => item,
                None => {
                    return out;
                },
            };
            let len = item.bytes.len();
            let rest = len - self.p;
            let room = limit - out.len();
            let n = if room < rest { room } else { rest };
            let start = self.p;
            let mut i = start;
            while i < start + n
                invariant
                    start <= i <= start + n,
                    start + n <= len,
                    len == item.bytes@.len(),
                    out@ == out0 + item.bytes@.subrange(start as int, i as int),
                decreases start + n - i,
            {
                out.push(item.bytes[i]);
                i = i + 1;
                assert(out@ =~= out0 + item.bytes@.subrange(start as int, i as int));
            }
            proof {
                assert(item.bytes@.take(p0) + item.bytes@.subrange(p0, p0 + n) =~= item.bytes@.take(p0 + n));
                if p0 == 0 {
                    assert(item.bytes@.take(0) =~= Seq::<u8>::empty());
                }
                self.output@ = self.output@ + item.bytes@.subrange(p0, p0 + n);
                assert(self.output@ =~= old(self).output@ + out@);
                assert(self.output@ =~= emitted0 + item.bytes@.take(p0 + n));
            }
            if n < rest {
                self.cache.restore();
                self.p = self.p + n;
                proof {
                    let c = item.bytes@;
                    let e2 = self.cache.emitted();
                    assert(self.cache.future@[0].bytes@ == c);
                    assert(e2 + c == emitted0 + c);
                    assert(e2.len() == emitted0.len());
                    assert forall|j: int| 0 <= j < e2.len() implies e2[j] == emitted0[j] by {
                        assert((e2 + c)[j] == e2[j]);
                        assert((emitted0 + c)[j] == emitted0[j]);
                    }
                    assert(e2 =~= emitted0);
                }
            } else {
                self.p = 0;
                proof {
                    assert(item.bytes@.take(len as int) =~= item.bytes@);
                    assert(self.output@ =~= self.cache.emitted());
                }
            }
        }
        out
    }

    /// Reads at most `limit` bytes of the stream; fewer only at its end.
    pub fn read(&mut self, limit: usize) -> (r: Vec<u8>)
        requires
            old(self).wf(),
        ensures
            final(self).wf(),
            final(self).output() == old(self).output() + r@,
            r@.len() <= limit,
            r@.len() < limit ==> final(self).exhausted(),
            final(self).source() == old(self).source(),
            final(self).neighbourhood() == old(self).neighbourhood(),
            final(self).filter() == old(self).filter(),
    {
        self.do_read(limit)
    }

    /// The position in the stream: the number of bytes read so far.
    pub fn stream_position(&self) -> (r: u64)
        requires
            self.wf(),
        ensures
            r == self.output().len(),
    {
        proof {
            let c = &self.cache;
            lemma_selected_bytes_len(c.source@, c.starts@, c.matches@, c.n(), c.frontier());
            if self.p > 0 {
                lemma_split_step(c.source@, c.starts@, c.frontier());
                lemma_line_end(c.source@, c.starts@[c.frontier()]);
                assert(item_is_line(c.future@[0], c.source@, c.starts@, c.matches@, c.frontier() + 0));
            }
        }
        self.cache.pos() + self.p as u64
    }

    /// Reads the stream anew from its start, skipping `position` bytes; returns the number
    /// of bytes skipped, fewer only when the stream is shorter.
    pub fn seek_start(&mut self, position: usize) -> (r: usize)
        requires
            old(self).wf(),
        ensures
            final(self).wf(),
            final(self).output().len() == r,
            r <= position,
            r < position ==> final(self).exhausted(),
            final(self).matches().len() <= final(self).line_starts().len(),
            final(self).source() == old(self).source(),
            final(self).neighbourhood() == old(self).neighbourhood(),
            final(self).filter() == old(self).filter(),
    {
        self.reset();
        let skipped = self.do_read(position);
        skipped.len()
    }

    /// Skips `delta` bytes of the stream; returns the number of bytes skipped, fewer only at
    /// its end.
    pub fn seek_forward(&mut self, delta: usize) -> (r: usize)
        requires
            old(self).wf(),
        ensures
            final(self).wf(),
            final(self).output().len() == old(self).output().len() + r,
            r <= delta,
            r < delta ==> final(self).exhausted(),
            final(self).source() == old(self).source(),
            final(self).neighbourhood() == old(self).neighbourhood(),
            final(self).filter() == old(self).filter(),
    {
        let skipped = self.do_read(delta);
        skipped.len()
    }

    /// Nothing read is ever taken back: whatever the lines still to be read and whatever the
    /// filter says of them, what has been read so far is a prefix of the text of the lines
    /// within `neighbourhood` lines of an accepted line, over the whole source. Here
    /// `starts` splits the whole source into lines and `matches` gives the filter's answer for
    /// each, both extending what the reader has seen.
    pub proof fn lemma_output_never_retracted(&self, starts: Seq<int>, matches: Seq<bool>)
        requires
            self.wf(),
            splits_lines(self.source(), starts),
            starts.last() == self.source().len(),
            starts.len() == matches.len() + 1,
            self.line_starts().len() <= starts.len(),
            starts.take(self.line_starts().len() as int) == self.line_starts(),
            self.matches().len() <= matches.len(),
            matches.take(self.matches().len() as int) == self.matches(),
        ensures
            is_prefix(self.output(), selected_bytes(self.source(), starts, matches, self.neighbourhood(), matches.len() as int)),
    {
        let c = &self.cache;
        let src = c.source@;
        let l = c.starts@;
        let m = c.matches@;
        let n = c.n();
        let k = m.len() as int;
        let fr = c.frontier();
        assert forall|i: int| 0 <= i < k implies #[trigger] line_bytes(src, l, i) == line_bytes(src, starts, i) by {
            assert(l[i] == starts.take(l.len() as int)[i]);
            assert(l[i + 1] == starts.take(l.len() as int)[i + 1]);
        }
        assert forall|i: int| 0 <= i < fr implies #[trigger] selected(m, n, i) == selected(matches, n, i) by {
            if selected(m, n, i) {
                let j = choose|j: int| 0 <= j < m.len() && m[j] && i - n <= j <= i + n;
                assert(matches[j] == matches.take(k)[j]);
            } else {
                assert(i + n < k);
                if selected(matches, n, i) {
                    let j = choose|j: int| 0 <= j < matches.len() && matches[j] && i - n <= j <= i + n;
                    assert(matches[j] == matches.take(k)[j]);
                    assert(m[j]);
                }
            }
        }
        lemma_selected_bytes_agree(src, l, m, starts, matches, n, fr);
        let total = matches.len() as int;
        if self.p > 0 {
            assert(item_is_line(c.future@[0], src, l, m, fr + 0));
            if c.has_match {
                assert(selected(m, n, fr)) by {
                    assert(m[k - 1]);
                }
            }
            assert(selected(matches, n, fr)) by {
                let j = choose|j: int| 0 <= j < m.len() && m[j] && fr - n <= j <= fr + n;
                assert(matches[j] == matches.take(k)[j]);
            }
            let s1 = selected_bytes(src, starts, matches, n, fr + 1);
            assert(s1 == selected_bytes(src, starts, matches, n, fr) + line_bytes(src, starts, fr));
            lemma_selected_bytes_prefix(src, starts, matches, n, fr + 1, total);
            let st = selected_bytes(src, starts, matches, n, total);
            let e = c.emitted();
            let part = c.future@[0].bytes@.take(self.p as int);
            assert(st.take(self.output@.len() as int) =~= s1.take(self.output@.len() as int));
            assert(s1.take(self.output@.len() as int) =~= e + part);
        } else {
            lemma_selected_bytes_prefix(src, starts, matches, n, fr, total);
            assert(self.output@ =~= c.emitted());
        }
    }

    /// What a filtered reader has read is the text of the lines that lie within
    /// `neighbourhood` lines of a line the filter accepted, in the order of the source, up to
    /// some point; once the reader is exhausted, it is all of them. The lines are those of
    /// the source, each ending with its line break, and each was given to the filter.
    pub proof fn lemma_output_is_selection(&self)
        requires
            self.wf(),
        ensures
            splits_lines(self.source(), self.line_starts()),
            self.line_starts().len() == self.matches().len() + 1,
            forall|i: int| 0 <= i < self.matches().len() ==> #[trigger] filter_gave(
                self.filter(),
                line_bytes(self.source(), self.line_starts(), i),
                self.matches()[i],
            ),
            is_prefix(
                self.output(),
                selected_bytes(self.source(), self.line_starts(), self.matches(), self.neighbourhood(), self.matches().len() as int),
            ),
            self.exhausted() ==> self.line_starts().last() == self.source().len() && self.output() == selected_bytes(
                self.source(),
                self.line_starts(),
                self.matches(),
                self.neighbourhood(),
                self.matches().len() as int,
            ),
    {
        let c = &self.cache;
        let src = c.source@;
        let starts = c.starts@;
        let m = c.matches@;
        let n = c.n();
        let k = m.len() as int;
        let fr = c.frontier();
        if self.p > 0 {
            assert(item_is_line(c.future@[0], src, starts, m, fr + 0));
            if c.has_match {
                assert(selected(m, n, fr)) by {
                    assert(m[k - 1]);
                }
            }
            let s1 = selected_bytes(src, starts, m, n, fr + 1);
            assert(s1 == c.emitted() + line_bytes(src, starts, fr));
            lemma_selected_bytes_prefix(src, starts, m, n, fr + 1, k);
            let sk = selected_bytes(src, starts, m, n, k);
            let e = c.emitted();
            let part = c.future@[0].bytes@.take(self.p as int);
            assert(sk.take(self.output@.len() as int) =~= s1.take(self.output@.len() as int));
            assert(s1.take(self.output@.len() as int) =~= e + part);
        } else {
            lemma_selected_bytes_prefix(src, starts, m, n, fr, k);
            assert(self.output@ =~= c.emitted());
        }
    }
}

} // verus!
