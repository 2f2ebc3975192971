use vstd::prelude::*;
use vstd::string::StringExecFns;
use crate::interval::Integer;
use crate::search::searcher::Occurrence;

verus! {

/// Why a jump (to a line or a date) failed.
#[derive(PartialEq, Eq, Structural, Copy, Clone, Debug)]
pub enum GoToError {
    /// reading the source failed
    IO,
    NotReachable,
    Cancelled,
}

/// Why a jump to a line failed.
#[derive(PartialEq, Eq, Structural, Copy, Clone, Debug)]
pub enum GoToLineError {
    /// reading the source failed
    IO,
    NotReachable,
    Cancelled,
}

pub open spec fn go_to_line_error_message(e: GoToLineError) -> Seq<char> {
    match e {
        GoToLineError::IO => "IO error"@,
        GoToLineError::NotReachable => "Line not found, EOF reached"@,
        GoToLineError::Cancelled => "Operation is cancelled"@,
    }
}

pub open spec fn go_to_error_message(e: GoToError) -> Seq<char> {
    match e {
        GoToError::IO => "IO error"@,
        GoToError::NotReachable => "Line not found, EOF reached"@,
        GoToError::Cancelled => "Operation is cancelled"@,
    }
}

impl GoToError {
    /// The message shown to the user.
    pub fn to_string(&self) -> (r: String)
        ensures
            r@ == go_to_error_message(*self),
    {
        match self {
            GoToError::IO => String::from_str("IO error"),
            GoToError::NotReachable => String::from_str("Line not found, EOF reached"),
            GoToError::Cancelled => String::from_str("Operation is cancelled"),
        }
    }
}

impl GoToLineError {
    /// The message shown to the user.
    pub fn to_string(&self) -> (r: String)
        ensures
            r@ == go_to_line_error_message(*self),
    {
        match self {
            GoToLineError::IO => String::from_str("IO error"),
            GoToLineError::NotReachable => String::from_str("Line not found, EOF reached"),
            GoToLineError::Cancelled => String::from_str("Operation is cancelled"),
        }
    }
}

/// Why text is not a number.
#[derive(PartialEq, Eq, Structural, Copy, Clone, Debug)]
pub enum ParseNumberError {
    Empty,
    InvalidDigit,
    PosOverflow,
}

pub open spec fn is_digit(c: char) -> bool {
    '0' <= c <= '9'
}

pub open spec fn digit_value(c: char) -> int {
    c as int - '0' as int
}

/// Reading the decimal digits `s[k..]` after the value `acc` of those before: the value, or the
/// first problem met from left to right.
pub open spec fn read_digits(s: Seq<char>, k: int, acc: int) -> Result<u64, ParseNumberError>
    decreases s.len() - k,
{
    if k >= s.len() {
        Ok(acc as u64)
    } else if !is_digit(s[k]) {
        Err(ParseNumberError::InvalidDigit)
    } else if acc * 10 + digit_value(s[k]) > u64::MAX {
        Err(ParseNumberError::PosOverflow)
    } else {
        read_digits(s, k + 1, acc * 10 + digit_value(s[k]))
    }
}

/// A decimal number, as `str::parse::<u64>` reads it: an optional `+` and then digits.
pub open spec fn parse_u64_spec(s: Seq<char>) -> Result<u64, ParseNumberError> {
    if s.len() == 0 {
        Err(ParseNumberError::Empty)
    } else if s[0] == '+' {
        if s.len() == 1 {
            Err(ParseNumberError::InvalidDigit)
        } else {
            read_digits(s, 1, 0)
        }
    } else {
        read_digits(s, 0, 0)
    }
}

/// Reads a decimal number as `str::parse::<u64>` does.
pub fn parse_u64(s: &str) -> (r: Result<u64, ParseNumberError>)
    ensures
        r == parse_u64_spec(s@),
{
    let n = s.unicode_len();
    if n == 0 {
        return Err(ParseNumberError::Empty);
    }
    let mut k: usize = 0;
    if s.get_char(0) == '+' {
        if n == 1 {
            return Err(ParseNumberError::InvalidDigit);
        }
        k = 1;
    }
    let ghost k0 = k as int;
    let mut acc: u64 = 0;
    while k < n
        invariant
            n == s@.len(),
            k0 <= k <= n,
            k0 == (if s@[0] == '+' { 1int } else { 0int }),
            read_digits(s@, k0, 0) == read_digits(s@, k as int, acc as int),
        decreases n - k,
    {
        let c = s.get_char(k);
        if !('0' <= c && c <= '9') {
            return Err(ParseNumberError::InvalidDigit);
        }
        let d = (c as u32 - '0' as u32) as u64;
        if acc > (u64::MAX - d) / 10 {
            proof {
                assert(acc * 10 + d > u64::MAX) by (nonlinear_arith)
                    requires
                        acc > (u64::MAX - d) / 10,
                        d <= 9,
                ;
            }
            return Err(ParseNumberError::PosOverflow);
        }
        proof {
            assert(acc * 10 + d <= u64::MAX) by (nonlinear_arith)
                requires
                    acc <= (u64::MAX - d) / 10,
                    d <= 9,
            ;
        }
        acc = acc * 10 + d;
        k += 1;
    }
    Ok(acc)
}

pub open spec fn parse_error_message(e: ParseNumberError) -> Seq<char> {
    match e {
        ParseNumberError::Empty => "cannot parse integer from empty string"@,
        ParseNumberError::InvalidDigit => "invalid digit found in string"@,
        ParseNumberError::PosOverflow => "number too large to fit in target type"@,
    }
}

impl ParseNumberError {
    /// The message shown to the user.
    pub fn to_string(&self) -> (r: String)
        ensures
            r@ == parse_error_message(*self),
    {
        match self {
            ParseNumberError::Empty => String::from_str("cannot parse integer from empty string"),
            ParseNumberError::InvalidDigit => String::from_str("invalid digit found in string"),
            ParseNumberError::PosOverflow => String::from_str("number too large to fit in target type"),
        }
    }
}

/// What a finished, failed or progressing jump leads to.
#[derive(PartialEq, Eq, Structural, Copy, Clone, Debug)]
pub enum GoToOutcome {
    /// move the cursor to the found position
    Found(Occurrence),
    /// the jump was cancelled; nothing to show
    Cancelled,
    /// nothing to do
    Nothing,
}

/// The state of the "go to line" dialog and of the jump it started.
pub struct GoToLineModel {
    pub is_open: bool,
    pub value: String,
    /// the id of the background process that looks for the line
    pub current_process: Option<u128>,
}

pub open spec fn submitted_line(value: Seq<char>) -> Result<u64, Seq<char>> {
    match parse_u64_spec(value) {
        Err(e) => Err(parse_error_message(e)),
        Ok(n) => if n < 1 {
            Err("Line number must not be less than 1"@)
        } else {
            Ok((n - 1) as u64)
        },
    }
}

impl GoToLineModel {
    pub fn new() -> (r: Self)
        ensures
            !r.is_open,
            r.value@ == Seq::<char>::empty(),
            r.current_process is None,
    {
        GoToLineModel { is_open: false, value: String::new(), current_process: None }
    }

    /// Opens or closes the dialog; returns the new state to announce when it changed.
    pub fn set_is_open(&mut self, is_open: bool) -> (r: Option<bool>)
        ensures
            final(self).is_open == is_open,
            final(self).value == old(self).value,
            final(self).current_process == old(self).current_process,
            r == (if old(self).is_open != is_open { Some(is_open) } else { None }),
    {
        if self.is_open != is_open {
            self.is_open = is_open;
            Some(is_open)
        } else {
            None
        }
    }

    pub fn is_open(&self) -> (r: bool)
        ensures
            r == self.is_open,
    {
        self.is_open
    }

    pub fn get_value(&self) -> (r: &str)
        ensures
            r@ == self.value@,
    {
        self.value.as_str()
    }

    pub fn set_value(&mut self, value: &str)
        ensures
            final(self).value@ == value@,
            final(self).is_open == old(self).is_open,
            final(self).current_process == old(self).current_process,
    {
        self.value = String::from_str(value);
    }

    /// Accepts the typed line number (counted from 1): on success the dialog closes and the
    /// line to look for, counted from 0, is returned with the open state to announce; otherwise
    /// the message of the error, and nothing changes.
    pub fn submit(&mut self) -> (r: Result<(u64, Option<bool>), String>)
        ensures
            match submitted_line(old(self).value@) {
                Ok(line) => r matches Ok((l, e)) && l == line && e == (if old(self).is_open { Some(false) } else { None })
                    && !final(self).is_open && final(self).value == old(self).value
                    && final(self).current_process == old(self).current_process,
                Err(m) => r matches Err(s) && s@ == m && *final(self) == *old(self),
            },
    {
        let line = match parse_u64(self.value.as_str()) {
            Ok(n) => n,
            Err(e) => return Err(e.to_string()),
        };
        if line < 1 {
            return Err(String::from_str("Line number must not be less than 1"));
        }
        let e = self.set_is_open(false);
        Ok((line - 1, e))
    }

    /// Starts looking for line `line` (counted from 0) of a file of `total` bytes, as process
    /// `pid`: returns the search to feed with the file's chunks, and the process it replaces,
    /// which is to be interrupted. Fed with the chunks of the file one after the other
    /// (`LineSeek::feed`) and told of its end (`LineSeek::at_end`), the search follows
    /// `seek_run`, which gives `seek_result` of the whole file however it is cut into chunks
    /// (`lemma_seek_run`).
    pub fn go_to_line(&mut self, line: u64, total: u64, pid: u128) -> (r: (LineSeek, Option<u128>))
        ensures
            r.0 == (LineSeek { line, offset: 0, progress: 0, total }),
            r.1 == old(self).current_process,
            final(self).current_process == Some(pid),
            final(self).is_open == old(self).is_open,
            final(self).value == old(self).value,
    {
        let seek = LineSeek::new(line, total);
        let previous = self.start_process(pid);
        (seek, previous)
    }

    /// A new search for a line runs as process `pid`; returns the process it replaces, which
    /// is to be interrupted.
    pub fn start_process(&mut self, pid: u128) -> (r: Option<u128>)
        ensures
            r == old(self).current_process,
            final(self).current_process == Some(pid),
            final(self).is_open == old(self).is_open,
            final(self).value == old(self).value,
    {
        let previous = self.current_process;
        self.current_process = Some(pid);
        previous
    }

    /// A message from process `pid`: its result (`Some`) or a progress report (`None`). The
    /// current process is forgotten whatever the message. A result of another process than
    /// the current one is ignored; of the current one, a position is shown, a cancellation is
    /// ignored and any other error is returned.
    pub fn handle_result(&mut self, pid: u128, msg: Option<Result<Integer, GoToLineError>>) -> (r: Result<GoToOutcome, GoToLineError>)
        ensures
            final(self).current_process is None,
            final(self).is_open == old(self).is_open,
            final(self).value == old(self).value,
            r == (if old(self).current_process == Some(pid) {
                match msg {
                    Some(Ok(p)) => Ok(GoToOutcome::Found(Occurrence { start: p, end: p })),
                    Some(Err(GoToLineError::Cancelled)) => Ok(GoToOutcome::Cancelled),
                    Some(Err(e)) => Err(e),
                    None => Ok(GoToOutcome::Nothing),
                }
            } else {
                Ok(GoToOutcome::Nothing)
            }),
    {
        let h = self.current_process;
        self.current_process = None;
        match h {
            Some(h) => if h == pid {
                match msg {
                    Some(Ok(p)) => Ok(GoToOutcome::Found(Occurrence::new(p, p))),
                    Some(Err(GoToLineError::Cancelled)) => Ok(GoToOutcome::Cancelled),
                    Some(Err(e)) => Err(e),
                    None => Ok(GoToOutcome::Nothing),
                }
            } else {
                Ok(GoToOutcome::Nothing)
            },
            None => Ok(GoToOutcome::Nothing),
        }
    }
}

/// The number of line breaks in `s`.
pub open spec fn count_newlines(s: Seq<u8>) -> nat
    decreases s.len(),
{
    if s.len() == 0 {
        0
    } else {
        count_newlines(s.drop_last()) + (if s.last() == 10u8 { 1nat } else { 0nat })
    }
}

/// The offset just past the `k`-th line break of `s` (counted from 1), if `s` holds that many.
pub open spec fn break_end(s: Seq<u8>, k: nat) -> Option<int>
    decreases s.len(),
{
    if s.len() == 0 {
        None
    } else {
        match break_end(s.drop_last(), k) {
            Some(p) => Some(p),
            None => if s.last() == 10u8 && count_newlines(s.drop_last()) + 1 == k {
                Some(s.len() as int)
            } else {
                None
            },
        }
    }
}

/// Where line `line` (counted from 0) of a source holding `s` starts: at 0 for the first
/// line, else just past its `line`-th line break; `NotReachable` when it holds fewer.
pub open spec fn seek_result(line: nat, s: Seq<u8>) -> Result<int, GoToLineError> {
    if line == 0 {
        Ok(0)
    } else {
        match break_end(s, line) {
            Some(p) => Ok(p),
            None => Err(GoToLineError::NotReachable),
        }
    }
}

/// What a search for a line gives when it is fed `chunks` one after the other, `line` line
/// breaks being still to pass at byte `offset`, and ends at the end of the source (see
/// `LineSeek`): each chunk either holds the break sought, or is passed over.
pub open spec fn seek_run(line: nat, offset: int, chunks: Seq<Seq<u8>>) -> Result<int, GoToLineError>
    decreases chunks.len(),
{
    if line == 0 {
        Ok(offset)
    } else if chunks.len() == 0 {
        Err(GoToLineError::NotReachable)
    } else {
        let c = chunks[0];
        if count_newlines(c) < line {
            seek_run((line - count_newlines(c)) as nat, offset + c.len(), chunks.drop_first())
        } else {
            match break_end(c, line) {
                Some(p) => Ok(offset + p),
                None => Err(GoToLineError::NotReachable),
            }
        }
    }
}

proof fn lemma_count_newlines_add(a: Seq<u8>, b: Seq<u8>)
    ensures
        count_newlines(a + b) == count_newlines(a) + count_newlines(b),
    decreases b.len(),
{
    if b.len() == 0 {
        assert(a + b =~= a);
    } else {
        assert((a + b).drop_last() =~= a + b.drop_last());
        lemma_count_newlines_add(a, b.drop_last());
    }
}

/// The `k`-th line break exists exactly when there are at least `k`.
proof fn lemma_break_end_exists(s: Seq<u8>, k: nat)
    requires
        k >= 1,
    ensures
        break_end(s, k) is Some <==> count_newlines(s) >= k,
        break_end(s, k) matches Some(p) ==> 1 <= p <= s.len(),
    decreases s.len(),
{
    if s.len() > 0 {
        lemma_break_end_exists(s.drop_last(), k);
    }
}

/// The `k`-th line break of `c + r` is that of `c`, or else the one of `r` that follows the
/// breaks of `c`.
proof fn lemma_break_end_add(c: Seq<u8>, r: Seq<u8>, k: nat)
    requires
        k >= 1,
    ensures
        break_end(c + r, k) == if count_newlines(c) >= k {
            break_end(c, k)
        } else {
            match break_end(r, (k - count_newlines(c)) as nat) {
                Some(p) => Some(p + c.len()),
                None => None,
            }
        },
    decreases r.len(),
{
    lemma_break_end_exists(c, k);
    if r.len() == 0 {
        assert(c + r =~= c);
    } else {
        let r1 = r.drop_last();
        assert((c + r).drop_last() =~= c + r1);
        lemma_break_end_add(c, r1, k);
        lemma_count_newlines_add(c, r1);
        if count_newlines(c) < k {
            lemma_break_end_exists(r1, (k - count_newlines(c)) as nat);
        }
    }
}

/// A break found at index `j` of chunk `c` as the `k`-th one is the `k`-th line break of `c`.
proof fn lemma_found_break(c: Seq<u8>, k: nat, j: int)
    requires
        k >= 1,
        0 <= j < c.len(),
        c[j] == 10u8,
        count_newlines(c.take(j + 1)) == k,
        count_newlines(c.take(j)) < k,
    ensures
        break_end(c, k) == Some(j + 1),
{
    let t = c.take(j + 1);
    assert(t.drop_last() =~= c.take(j));
    lemma_break_end_exists(c.take(j), k);
    assert(break_end(t, k) == Some(j + 1));
    assert(c =~= t + c.skip(j + 1));
    lemma_break_end_add(t, c.skip(j + 1), k);
}

/// Feeding a search the chunks of a source, one after the other, finds what `seek_result`
/// says of the whole source: the offset just past the `line`-th line break, or
/// `NotReachable` when there are fewer; however the source is cut into chunks.
pub proof fn lemma_seek_run(line: nat, chunks: Seq<Seq<u8>>)
    ensures
        seek_run(line, 0, chunks) == seek_result(line, chunks.flatten()),
{
    lemma_seek_run_from(line, 0, chunks);
}

proof fn lemma_seek_run_from(line: nat, offset: int, chunks: Seq<Seq<u8>>)
    ensures
        seek_run(line, offset, chunks) == match seek_result(line, chunks.flatten()) {
            Ok(p) => Ok::<int, GoToLineError>(p + offset),
            Err(e) => Err(e),
        },
    decreases chunks.len(),
{
    if line > 0 && chunks.len() > 0 {
        let c = chunks[0];
        let rest = chunks.drop_first();
        assert(chunks.flatten() == c + rest.flatten());
        lemma_break_end_add(c, rest.flatten(), line);
        lemma_break_end_exists(c, line);
        if count_newlines(c) < line {
            lemma_seek_run_from((line - count_newlines(c)) as nat, offset + c.len(), rest);
        }
    }
}

/// The progress (in percent of `total`) after `k` more bytes were scanned from offset `o`,
/// starting from `p`: it grows to the share of each offset reached, and never falls.
pub open spec fn progress_after(p: u8, o: int, total: int, k: int) -> u8
    decreases k,
{
    if k <= 0 {
        p
    } else {
        let q = progress_after(p, o, total, k - 1);
        let np = (((o + k) * 100) / total) as u8;
        if np > q {
            np
        } else {
            q
        }
    }
}

/// What one chunk brought to the search for a line.
#[derive(PartialEq, Eq, Structural, Copy, Clone, Debug)]
pub enum LineSeekStep {
    /// the line starts at this offset
    Found(Integer),
    Cancelled,
    /// the line lies beyond the chunk
    Continue,
}

/// The search for the offset where a line starts, fed with the source chunk by chunk.
pub struct LineSeek {
    /// line breaks still to pass
    pub line: u64,
    /// bytes scanned so far
    pub offset: u64,
    /// the progress last reported, in percent
    pub progress: u8,
    /// the size of the source (never 0 while bytes are fed)
    pub total: u64,
}

/// The largest offset a search for a line may reach.
pub const SEEK_LIMIT: u64 = 100000000000000000;

impl LineSeek {
    /// A search for line `line` (counted from 0) in a source of `total` bytes.
    pub fn new(line: u64, total: u64) -> (r: Self)
        ensures
            r == (LineSeek { line, offset: 0, progress: 0, total }),
    {
        LineSeek { line, offset: 0, progress: 0, total }
    }

    /// Before a chunk is read: the result when the line has been reached or the search was
    /// interrupted, else `None` (read on).
    pub fn before_chunk<F: Fn() -> bool>(&self, is_interrupted: F) -> (r: Option<Result<Integer, GoToLineError>>)
        requires
            call_requires(is_interrupted, ()),
            self.offset <= SEEK_LIMIT,
        ensures
            self.line == 0 ==> r == Some(Ok::<Integer, GoToLineError>(self.offset as Integer)),
            self.line != 0 ==> (r is None || r == Some(Err::<Integer, GoToLineError>(GoToLineError::Cancelled))),
            r == Some(Err::<Integer, GoToLineError>(GoToLineError::Cancelled)) ==> call_ensures(is_interrupted, (), true),
    {
        if self.line == 0 {
            return Some(Ok(self.offset as Integer));
        }
        if is_interrupted() {
            return Some(Err(GoToLineError::Cancelled));
        }
        None
    }

    /// At the end of the source: the line's offset when it has been reached, else
    /// `NotReachable` (the source holds fewer line breaks than the line asked for).
    pub fn at_end(&self) -> (r: Result<Integer, GoToLineError>)
        requires
            self.offset <= SEEK_LIMIT,
        ensures
            self.line == 0 ==> r == Ok::<Integer, GoToLineError>(self.offset as Integer),
            self.line != 0 ==> r == Err::<Integer, GoToLineError>(GoToLineError::NotReachable),
            match r {
                Ok(o) => Ok::<int, GoToLineError>(o as int),
                Err(e) => Err(e),
            } == seek_run(self.line as nat, self.offset as int, Seq::empty()),
    {
        if self.line == 0 {
            Ok(self.offset as Integer)
        } else {
            Err(GoToLineError::NotReachable)
        }
    }

    /// Scans a chunk that follows the bytes scanned so far. Before each byte `is_interrupted`
    /// is asked; `update_progress` is told each time the share scanned grows.
    pub fn feed<F: Fn() -> bool, G: Fn(u8)>(&mut self, chunk: &[u8], is_interrupted: F, update_progress: G) -> (r: LineSeekStep)
        requires
            old(self).line > 0,
            old(self).total > 0,
            old(self).offset + chunk@.len() <= SEEK_LIMIT,
            call_requires(is_interrupted, ()),
            forall|p: u8| call_requires(update_progress, (p,)),
        ensures
            final(self).total == old(self).total,
            match r {
                LineSeekStep::Found(o) => {
                    let j = o - old(self).offset - 1;
                    &&& 0 <= j < chunk@.len()
                    &&& chunk@[j] == 10u8
                    &&& count_newlines(chunk@.take(j + 1)) == old(self).line
                    &&& count_newlines(chunk@.take(j)) < old(self).line
                    &&& final(self).line == 0
                    &&& final(self).offset == o
                    &&& final(self).progress == progress_after(old(self).progress, old(self).offset as int, old(self).total as int, j + 1)
                },
                LineSeekStep::Continue => {
                    &&& count_newlines(chunk@) < old(self).line
                    &&& final(self).line == old(self).line - count_newlines(chunk@)
                    &&& final(self).offset == old(self).offset + chunk@.len()
                    &&& final(self).progress == progress_after(old(self).progress, old(self).offset as int, old(self).total as int, chunk@.len() as int)
                },
                LineSeekStep::Cancelled => call_ensures(is_interrupted, (), true),
            },
            r matches LineSeekStep::Found(o) ==> forall|rest: Seq<Seq<u8>>|
                #[trigger] seek_run(old(self).line as nat, old(self).offset as int, seq![chunk@] + rest) == Ok::<int, GoToLineError>(o as int),
            r is Continue ==> forall|rest: Seq<Seq<u8>>|
                #[trigger] seek_run(old(self).line as nat, old(self).offset as int, seq![chunk@] + rest)
                    == seek_run(final(self).line as nat, final(self).offset as int, rest),
    {
        let ghost line0 = self.line;
        let ghost offset0 = self.offset;
        let ghost p0 = self.progress;
        let mut i: usize = 0;
        while i < chunk.len()
            invariant
                i <= chunk@.len(),
                self.total == old(self).total,
                self.total > 0,
                line0 == old(self).line,
                offset0 == old(self).offset,
                p0 == old(self).progress,
                offset0 + chunk@.len() <= SEEK_LIMIT,
                call_requires(is_interrupted, ()),
                forall|p: u8| call_requires(update_progress, (p,)),
                self.offset == offset0 + i,
                count_newlines(chunk@.take(i as int)) < line0,
                self.line == line0 - count_newlines(chunk@.take(i as int)),
                self.progress == progress_after(p0, offset0 as int, self.total as int, i as int),
            decreases chunk@.len() - i,
        {
            if is_interrupted() {
                return LineSeekStep::Cancelled;
            }
            proof {
                assert(chunk@.take(i + 1).drop_last() =~= chunk@.take(i as int));
                assert(chunk@.take(i + 1).last() == chunk@[i as int]);
            }
            if chunk[i] == 10u8 {
                self.line = self.line - 1;
            }
            self.offset = self.offset + 1;
            let new_progress = (self.offset * 100 / self.total) as u8;
            if new_progress > self.progress {
                update_progress(new_progress);
                self.progress = new_progress;
            }
            i += 1;
            if self.line == 0 {
                proof {
                    let j = i - 1;
                    lemma_found_break(chunk@, line0 as nat, j as int);
                    assert forall|rest: Seq<Seq<u8>>|
                        #[trigger] seek_run(line0 as nat, offset0 as int, seq![chunk@] + rest) == Ok::<int, GoToLineError>(self.offset as int) by {
                        let cs = seq![chunk@] + rest;
                        assert(cs[0] == chunk@);
                        lemma_break_end_exists(chunk@, line0 as nat);
                    }
                }
                return LineSeekStep::Found(self.offset as Integer);
            }
        }
        proof {
            assert(chunk@.take(i as int) =~= chunk@);
            assert forall|rest: Seq<Seq<u8>>|
                #[trigger] seek_run(line0 as nat, offset0 as int, seq![chunk@] + rest)
                    == seek_run(self.line as nat, self.offset as int, rest) by {
                let cs = seq![chunk@] + rest;
                assert(cs[0] == chunk@);
                assert(cs.drop_first() =~= rest);
            }
        }
        LineSeekStep::Continue
    }
}

} // verus!
