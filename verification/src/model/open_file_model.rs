use vstd::prelude::*;
use vstd::string::StringExecFns;
use std::cmp::Ordering;

verus! {

broadcast use vstd::seq_lib::to_multiset_insert;

/// What changed in the "open file" dialog.
#[derive(PartialEq, Eq, Clone, Debug)]
pub enum OpenFileModelEvent {
    LocationUpdated,
    FilesUpdated,
    EntryInfoUpdated,
    Error(String),
}

/// An entry of a folder listing.
#[derive(PartialEq, Eq, Clone, Debug)]
pub enum DirEntry0 {
    /// the parent folder, shown as `..`
    Up,
    Folder(String),
    File(String),
}

/// What is shown of the selected entry.
#[derive(PartialEq, Eq, Clone, Copy, Debug)]
pub struct EntryInfo {
    pub size: u64,
    /// nanoseconds since the Unix epoch, where known
    pub created_at: Option<u128>,
    /// nanoseconds since the Unix epoch, where known
    pub modified_at: Option<u128>,
}

/// Lexicographic comparison of byte strings: -1, 0 or 1.
pub open spec fn lex_order(a: Seq<u8>, b: Seq<u8>) -> int
    decreases a.len(),
{
    if a.len() == 0 {
        if b.len() == 0 {
            0
        } else {
            -1
        }
    } else if b.len() == 0 {
        1
    } else if a[0] < b[0] {
        -1
    } else if a[0] > b[0] {
        1
    } else {
        lex_order(a.drop_first(), b.drop_first())
    }
}

/// `..` first, then the folders, then the files; names of one kind in the order of their bytes.
pub open spec fn entry_rank(e: DirEntry0) -> int {
    match e {
        DirEntry0::Up => 0,
        DirEntry0::Folder(_) => 1,
        DirEntry0::File(_) => 2,
    }
}

pub open spec fn entry_name_bytes(e: DirEntry0) -> Seq<u8> {
    match e {
        DirEntry0::Up => Seq::empty(),
        DirEntry0::Folder(n) => vstd::utf8::encode_utf8(n@),
        DirEntry0::File(n) => vstd::utf8::encode_utf8(n@),
    }
}

/// The order of entries in a listing: -1, 0 or 1.
pub open spec fn entry_order(a: DirEntry0, b: DirEntry0) -> int {
    if entry_rank(a) < entry_rank(b) {
        -1
    } else if entry_rank(a) > entry_rank(b) {
        1
    } else {
        lex_order(entry_name_bytes(a), entry_name_bytes(b))
    }
}

pub proof fn lemma_lex_order_antisymmetric(a: Seq<u8>, b: Seq<u8>)
    ensures
        -1 <= lex_order(a, b) <= 1,
        lex_order(a, b) == -lex_order(b, a),
        lex_order(a, b) == 0 <==> a == b,
    decreases a.len(),
{
    if a.len() > 0 && b.len() > 0 && a[0] == b[0] {
        lemma_lex_order_antisymmetric(a.drop_first(), b.drop_first());
        if a.drop_first() == b.drop_first() {
            assert(a =~= seq![a[0]] + a.drop_first());
            assert(b =~= seq![b[0]] + b.drop_first());
        }
        if a == b {
            assert(a.drop_first() == b.drop_first());
        }
    } else if a.len() == 0 && b.len() != 0 {
        assert(a != b);
    } else if a.len() != 0 && b.len() == 0 {
        assert(a != b);
    } else if a.len() > 0 && b.len() > 0 {
        assert(a[0] != b[0]);
        assert(a != b);
    } else {
        assert(a =~= b);
    }
}

pub proof fn lemma_lex_order_transitive(a: Seq<u8>, b: Seq<u8>, c: Seq<u8>)
    requires
        lex_order(a, b) <= 0,
        lex_order(b, c) <= 0,
    ensures
        lex_order(a, c) <= 0,
    decreases a.len(),
{
    if a.len() > 0 && b.len() > 0 && c.len() > 0 {
        if a[0] == b[0] && b[0] == c[0] {
            lemma_lex_order_transitive(a.drop_first(), b.drop_first(), c.drop_first());
        }
    }
}

/// The order of entries is transitive.
pub proof fn lemma_entry_order_transitive(a: DirEntry0, b: DirEntry0, c: DirEntry0)
    requires
        entry_order(a, b) <= 0,
        entry_order(b, c) <= 0,
    ensures
        entry_order(a, c) <= 0,
{
    if entry_rank(a) == entry_rank(b) && entry_rank(b) == entry_rank(c) {
        lemma_lex_order_transitive(entry_name_bytes(a), entry_name_bytes(b), entry_name_bytes(c));
    }
}

/// The order of entries is antisymmetric.
pub proof fn lemma_entry_order_antisymmetric(a: DirEntry0, b: DirEntry0)
    ensures
        -1 <= entry_order(a, b) <= 1,
        entry_order(a, b) == -entry_order(b, a),
{
    lemma_lex_order_antisymmetric(entry_name_bytes(a), entry_name_bytes(b));
}

fn compare_bytes(a: &[u8], b: &[u8]) -> (r: i8)
    ensures
        r == lex_order(a@, b@),
        -1 <= r <= 1,
{
    proof {
        lemma_lex_order_antisymmetric(a@, b@);
        assert(a@.skip(0) =~= a@);
        assert(b@.skip(0) =~= b@);
    }
    let mut i: usize = 0;
    while i < a.len() && i < b.len() && a[i] == b[i]
        invariant
            i <= a@.len(),
            i <= b@.len(),
            lex_order(a@, b@) == lex_order(a@.skip(i as int), b@.skip(i as int)),
        decreases a@.len() - i,
    {
        proof {
            assert(a@.skip(i as int).drop_first() =~= a@.skip(i + 1));
            assert(b@.skip(i as int).drop_first() =~= b@.skip(i + 1));
        }
        i += 1;
    }
    if i == a.len() {
        if i == b.len() {
            0
        } else {
            -1
        }
    } else if i == b.len() {
        1
    } else if a[i] < b[i] {
        -1
    } else {
        1
    }
}

fn order_of(v: i8) -> (r: Ordering)
    requires
        -1 <= v <= 1,
    ensures
        (r == Ordering::Less) == (v == -1),
        (r == Ordering::Equal) == (v == 0),
        (r == Ordering::Greater) == (v == 1),
{
    if v < 0 {
        Ordering::Less
    } else if v == 0 {
        Ordering::Equal
    } else {
        Ordering::Greater
    }
}

impl DirEntry0 {
    /// How the entry compares with `other` in a listing.
    pub fn compare(&self, other: &DirEntry0) -> (r: Ordering)
        ensures
            (r == Ordering::Less) == (entry_order(*self, *other) == -1),
            (r == Ordering::Equal) == (entry_order(*self, *other) == 0),
            (r == Ordering::Greater) == (entry_order(*self, *other) == 1),
    {
        match self {
            DirEntry0::Up => match other {
                DirEntry0::Up => Ordering::Equal,
                _ => Ordering::Less,
            },
            DirEntry0::Folder(a) => match other {
                DirEntry0::Up => Ordering::Greater,
                DirEntry0::Folder(b) => order_of(compare_bytes(a.as_str().as_bytes(), b.as_str().as_bytes())),
                DirEntry0::File(_) => Ordering::Less,
            },
            DirEntry0::File(a) => match other {
                DirEntry0::File(b) => order_of(compare_bytes(a.as_str().as_bytes(), b.as_str().as_bytes())),
                _ => Ordering::Greater,
            },
        }
    }

    /// The name shown for the entry.
    pub fn to_string(&self) -> (r: String)
        ensures
            r@ == (match *self {
                DirEntry0::Up => ".."@,
                DirEntry0::Folder(n) => n@,
                DirEntry0::File(n) => n@,
            }),
    {
        match self {
            DirEntry0::Up => String::from_str(".."),
            DirEntry0::Folder(n) => String::from_str(n.as_str()),
            DirEntry0::File(n) => String::from_str(n.as_str()),
        }
    }
}

/// Whether `a` comes after `b` in a listing.
fn comes_after(a: &DirEntry0, b: &DirEntry0) -> (r: bool)
    ensures
        r == (entry_order(*a, *b) == 1),
        !r ==> entry_order(*a, *b) <= 0,
{
    proof {
        lemma_entry_order_antisymmetric(*a, *b);
    }
    match a.compare(b) {
        Ordering::Greater => true,
        _ => false,
    }
}

/// `s` is in listing order.
pub open spec fn is_listing_sorted(s: Seq<DirEntry0>) -> bool {
    forall|i: int, j: int| 0 <= i < j < s.len() ==> entry_order(s[i], s[j]) <= 0
}

/// The entries of a folder in listing order.
pub fn sort_entries(entries: Vec<DirEntry0>) -> (r: Vec<DirEntry0>)
    ensures
        r@.to_multiset() == entries@.to_multiset(),
        is_listing_sorted(r@),
{
    let mut r: Vec<DirEntry0> = Vec::new();
    let mut rest = entries;
    let ghost e0 = rest@;
    proof {
        assert(r@ + rest@ =~= e0);
    }
    while rest.len() > 0
        invariant
            (r@ + rest@).to_multiset() == e0.to_multiset(),
            is_listing_sorted(r@),
        decreases rest@.len(),
    {
        let ghost rest0 = rest@;
        let ghost r0 = r@;
        let x = rest.pop().unwrap();
        // the first position whose entry comes after `x`
        let mut p: usize = 0;
        while p < r.len() && !comes_after(&r[p], &x)
            invariant
                p <= r@.len(),
                forall|q: int| 0 <= q < p ==> entry_order(r@[q], x) <= 0,
            decreases r@.len() - p,
        {
            p += 1;
        }
        r.insert(p, x);
        proof {
            assert(rest0 =~= rest@.push(x));
            vstd::seq_lib::lemma_multiset_commutative(r0, rest0);
            vstd::seq_lib::lemma_multiset_commutative(r@, rest@);
            vstd::seq_lib::to_multiset_build(rest@, x);
            assert forall|i: int, j: int| 0 <= i < j < r@.len() implies entry_order(r@[i], r@[j]) <= 0 by {
                if j < p {
                } else if j == p {
                } else if i > p {
                    assert(r@[i] == r0[i - 1] && r@[j] == r0[j - 1]);
                } else if i == p {
                    // x precedes every later entry
                    assert(r@[j] == r0[j - 1]);
                    assert(entry_order(r0[p as int], x) == 1);
                    lemma_entry_order_antisymmetric(r0[p as int], x);
                    if j - 1 > p {
                        lemma_entry_order_transitive(x, r0[p as int], r0[j - 1]);
                    }
                } else {
                    assert(r@[j] == r0[j - 1]);
                }
            }
        }
    }
    proof {
        assert(r@ + rest@ =~= r@);
    }
    r
}

/// The listing of a folder: `..` first when the folder has a parent, then its entries in
/// listing order.
pub fn listing(has_parent: bool, entries: Vec<DirEntry0>) -> (r: Vec<DirEntry0>)
    ensures
        has_parent ==> r@.len() == entries@.len() + 1 && r@[0] == DirEntry0::Up,
        !has_parent ==> r@.len() == entries@.len(),
        ({
            let rest = if has_parent { r@.drop_first() } else { r@ };
            rest.to_multiset() == entries@.to_multiset() && is_listing_sorted(rest)
        }),
{
    let mut sorted = sort_entries(entries);
    let mut r: Vec<DirEntry0> = Vec::new();
    if has_parent {
        r.push(DirEntry0::Up);
    }
    let ghost r0 = r@;
    let ghost s0 = sorted@;
    r.append(&mut sorted);
    proof {
        vstd::seq_lib::to_multiset_len(s0);
        vstd::seq_lib::to_multiset_len(entries@);
        if has_parent {
            assert(r@.drop_first() =~= s0);
        } else {
            assert(r@ =~= s0);
        }
    }
    r
}

/// The name of the entry that leads to the parent folder.
pub const GO_UP: &'static str = "..";

/// What submitting the selected entry asks for.
#[derive(PartialEq, Eq, Clone, Debug)]
pub enum SubmitAction {
    /// nothing is selected: this message is shown
    NoFileChosen(String),
    /// go to the parent folder
    StepUp,
    /// look at the entry of this name in the current folder: enter it when it is a folder,
    /// open it when it is a file
    Enter(String),
}

/// The state of the "open file" dialog: the folder shown, its entries, the entry selected and
/// what is known of it.
pub struct OpenFileModel {
    pub is_open: bool,
    pub current_location: String,
    pub files: Vec<DirEntry0>,
    pub current_file: Option<String>,
    pub entry_info: Option<EntryInfo>,
}

impl OpenFileModel {
    pub fn new() -> (r: Self)
        ensures
            !r.is_open,
            r.current_location@ == Seq::<char>::empty(),
            r.files@.len() == 0,
            r.current_file is None,
            r.entry_info is None,
    {
        OpenFileModel {
            is_open: false,
            current_location: String::new(),
            files: Vec::new(),
            current_file: None,
            entry_info: None,
        }
    }

    /// Opens or closes the dialog; returns the new state to announce when it changed.
    pub fn set_open(&mut self, is_open: bool) -> (r: Option<bool>)
        ensures
            final(self).is_open == is_open,
            r == (if old(self).is_open != is_open { Some(is_open) } else { None }),
            final(self).current_location == old(self).current_location,
            final(self).files == old(self).files,
            final(self).current_file == old(self).current_file,
            final(self).entry_info == old(self).entry_info,
    {
        if self.is_open != is_open {
            self.is_open = is_open;
            Some(is_open)
        } else {
            None
        }
    }

    pub fn is_open(&self) -> (r: bool)
        ensures
            r == self.is_open,
    {
        self.is_open
    }

    pub fn get_current_location(&self) -> (r: &str)
        ensures
            r@ == self.current_location@,
    {
        self.current_location.as_str()
    }

    /// Goes to folder `location` (already made canonical), whose listing is `listing` or the
    /// message of the error that reading it gave. Nothing happens when the folder is the
    /// current one; on an error only the error is announced. Otherwise the folder becomes the
    /// current one, nothing is selected and the new entries are shown; the changes to announce
    /// are returned in order.
    pub fn set_canonical_current_location(
        &mut self,
        location: &str,
        listing: Result<Vec<DirEntry0>, String>,
    ) -> (r: Vec<OpenFileModelEvent>)
        ensures
            old(self).current_location@ == location@ ==> r@.len() == 0 && *final(self) == *old(self),
            old(self).current_location@ != location@ ==> match listing {
                Ok(files) => {
                    &&& final(self).current_location@ == location@
                    &&& final(self).files@ == files@
                    &&& final(self).current_file is None
                    &&& final(self).entry_info is None
                    &&& final(self).is_open == old(self).is_open
                    &&& r@ == seq![
                        OpenFileModelEvent::EntryInfoUpdated,
                        OpenFileModelEvent::LocationUpdated,
                        OpenFileModelEvent::FilesUpdated,
                    ]
                },
                Err(m) => {
                    &&& *final(self) == *old(self)
                    &&& r@.len() == 1
                    &&& r@[0] matches OpenFileModelEvent::Error(e) && e@ == m@
                },
            },
    {
        let mut events: Vec<OpenFileModelEvent> = Vec::new();
        if str_eq_location(self.current_location.as_str(), location) {
            return events;
        }
        match listing {
            Ok(files) => {
                self.current_location = String::from_str(location);
                let e = self.set_current_file(None, None);
                events.push(e);
                events.push(OpenFileModelEvent::LocationUpdated);
                self.files = files;
                events.push(OpenFileModelEvent::FilesUpdated);
            },
            Err(m) => {
                events.push(OpenFileModelEvent::Error(m));
            },
        }
        events
    }

    pub fn get_files(&self) -> (r: &[DirEntry0])
        ensures
            r@ == self.files@,
    {
        self.files.as_slice()
    }

    /// Selects the entry named `current_file` (or none); `entry_info` is what is known of it.
    /// Returns the change to announce.
    pub fn set_current_file(&mut self, current_file: Option<&str>, entry_info: Option<EntryInfo>) -> (r: OpenFileModelEvent)
        ensures
            r == OpenFileModelEvent::EntryInfoUpdated,
            match current_file {
                Some(f) => final(self).current_file matches Some(g) && g@ == f@,
                None => final(self).current_file is None,
            },
            final(self).entry_info == (if current_file is Some { entry_info } else { None }),
            final(self).is_open == old(self).is_open,
            final(self).current_location == old(self).current_location,
            final(self).files == old(self).files,
    {
        match current_file {
            Some(f) => {
                self.current_file = Some(String::from_str(f));
                self.entry_info = entry_info;
            },
            None => {
                self.current_file = None;
                self.entry_info = None;
            },
        }
        OpenFileModelEvent::EntryInfoUpdated
    }

    pub fn get_entry_info(&self) -> (r: Option<EntryInfo>)
        ensures
            r == self.entry_info,
    {
        self.entry_info
    }

    /// What submitting the selected entry asks for: with nothing selected, a message; for
    /// `..`, the parent folder; otherwise a look at the selected entry.
    pub fn submit_current_file(&self) -> (r: SubmitAction)
        ensures
            match self.current_file {
                None => r matches SubmitAction::NoFileChosen(m) && m@ == "No file chosen"@,
                Some(f) => if f@ == GO_UP@ {
                    r == SubmitAction::StepUp
                } else {
                    r matches SubmitAction::Enter(g) && g@ == f@
                },
            },
    {
        match &self.current_file {
            None => SubmitAction::NoFileChosen(String::from_str("No file chosen")),
            Some(f) => if str_eq_location(f.as_str(), GO_UP) {
                SubmitAction::StepUp
            } else {
                SubmitAction::Enter(String::from_str(f.as_str()))
            },
        }
    }
}

/// Whether two names are the same, char by char.
fn str_eq_location(a: &str, b: &str) -> (r: bool)
    ensures
        r == (a@ == b@),
{
    let n = a.unicode_len();
    if n != b.unicode_len() {
        return false;
    }
    let mut i: usize = 0;
    while i < n
        invariant
            n == a@.len(),
            n == b@.len(),
            i <= n,
            forall|k: int| 0 <= k < i ==> a@[k] == b@[k],
        decreases n - i,
    {
        if a.get_char(i) != b.get_char(i) {
            return false;
        }
        i += 1;
    }
    assert(a@ =~= b@);
    true
}

} // verus!
