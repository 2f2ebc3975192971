use vstd::prelude::*;
use vstd::string::StringExecFns;

verus! {

/// Calls `<str as PartialEq>::eq`, which compares the chars of both slices.
#[verifier::external_body]
pub(crate) fn str_eq(a: &str, b: &str) -> (r: bool)
    ensures
        r == (a@ == b@),
{
    a == b
}

/// A copy of a vector of strings.
pub fn clone_strings(v: &Vec<String>) -> (r: Vec<String>)
    ensures
        strings_view(r@) == strings_view(v@),
{
    let mut r: Vec<String> = Vec::new();
    let mut i: usize = 0;
    while i < v.len()
        invariant
            i <= v@.len(),
            r@.len() == i,
            forall|j: int| 0 <= j < i ==> r@[j]@ == v@[j]@,
        decreases v@.len() - i,
    {
        let s = v[i].clone();
        r.push(s);
        i += 1;
    }
    proof {
        assert(strings_view(r@) =~= strings_view(v@));
    }
    r
}

/// The chars of each string.
pub open spec fn strings_view(v: Seq<String>) -> Seq<Seq<char>> {
    v.map_values(|s: String| s@)
}

/// An action of the viewer, its description and its hotkeys.
#[derive(Debug, PartialEq, Eq)]
pub struct ActionDescription {
    id: String,
    description: Option<String>,
    hotkeys: Vec<String>,
}

/// The plain content of an action description.
pub struct ActionModel {
    pub id: Seq<char>,
    pub description: Option<Seq<char>>,
    pub hotkeys: Seq<Seq<char>>,
}

pub open spec fn opt_view(o: Option<String>) -> Option<Seq<char>> {
    match o {
        Some(s) => Some(s@),
        None => None,
    }
}

pub open spec fn opt_str_view(o: Option<&str>) -> Option<Seq<char>> {
    match o {
        Some(s) => Some(s@),
        None => None,
    }
}

/// What `a.combine(b)` gives: the id of `a`, the description of `b` or else of `a`, the hotkeys
/// of `b` unless it has none.
pub open spec fn combined(a: ActionModel, b: ActionModel) -> ActionModel {
    ActionModel {
        id: a.id,
        description: match b.description {
            Some(d) => Some(d),
            None => a.description,
        },
        hotkeys: if b.hotkeys.len() == 0 {
            a.hotkeys
        } else {
            b.hotkeys
        },
    }
}

impl Clone for ActionDescription {
    fn clone(&self) -> (r: Self)
        ensures
            r.view() == self.view(),
    {
        let description = match &self.description {
            Some(d) => Some(d.clone()),
            None => None,
        };
        ActionDescription { id: self.id.clone(), description, hotkeys: clone_strings(&self.hotkeys) }
    }
}

impl ActionDescription {
    pub closed spec fn view(self) -> ActionModel {
        ActionModel {
            id: self.id@,
            description: opt_view(self.description),
            hotkeys: strings_view(self.hotkeys@),
        }
    }

    pub fn new(id: &str, description: Option<&str>, hotkeys: Vec<&str>) -> (r: Self)
        ensures
            r.view().id == id@,
            r.view().description == opt_str_view(description),
            r.view().hotkeys == hotkeys@.map_values(|s: &str| s@),
    {
        let description = match description {
            Some(d) => Some(String::from_str(d)),
            None => None,
        };
        let mut keys: Vec<String> = Vec::new();
        let mut i: usize = 0;
        while i < hotkeys.len()
            invariant
                i <= hotkeys@.len(),
                keys@.len() == i,
                forall|j: int| 0 <= j < i ==> keys@[j]@ == hotkeys@[j]@,
            decreases hotkeys@.len() - i,
        {
            keys.push(String::from_str(hotkeys[i]));
            i += 1;
        }
        proof {
            assert(strings_view(keys@) =~= hotkeys@.map_values(|s: &str| s@));
        }
        ActionDescription { id: String::from_str(id), description, hotkeys: keys }
    }

    pub fn id(&self) -> (r: &str)
        ensures
            r@ == self.view().id,
    {
        self.id.as_str()
    }

    pub fn description(&self) -> (r: Option<&str>)
        ensures
            opt_str_view(r) == self.view().description,
    {
        match &self.description {
            Some(d) => Some(d.as_str()),
            None => None,
        }
    }

    pub fn hotkeys(&self) -> (r: &Vec<String>)
        ensures
            strings_view(r@) == self.view().hotkeys,
    {
        &self.hotkeys
    }

    /// Overrides this description with `rhs`: its description, if any, and its hotkeys, if any.
    /// Both must describe the same action.
    pub fn combine(&self, rhs: &ActionDescription) -> (r: ActionDescription)
        requires
            self.view().id == rhs.view().id,
        ensures
            r.view() == combined(self.view(), rhs.view()),
    {
        let hotkeys = if rhs.hotkeys.len() == 0 {
            clone_strings(&self.hotkeys)
        } else {
            clone_strings(&rhs.hotkeys)
        };
        let description = match &rhs.description {
            Some(d) => Some(d.clone()),
            None => match &self.description {
                Some(d) => Some(d.clone()),
                None => None,
            },
        };
        ActionDescription { id: self.id.clone(), description, hotkeys }
    }
}

/// The fields of an action description as a YAML mapping holds them: a string field when it
/// is there and is a string; the hotkeys when they are a list, item by item.
pub struct ActionEntry {
    pub id: Option<String>,
    pub description: Option<String>,
    pub hotkeys: Option<Vec<Option<String>>>,
}

/// The hotkeys an entry gives: none when the list is absent; `None` when an item is not a
/// string.
pub open spec fn entry_hotkeys(h: Option<Seq<Option<String>>>) -> Option<Seq<Seq<char>>> {
    match h {
        None => Some(Seq::empty()),
        Some(v) => if forall|i: int| 0 <= i < v.len() ==> #[trigger] v[i] is Some {
            Some(v.map_values(|o: Option<String>| o.unwrap()@))
        } else {
            None
        },
    }
}

pub open spec fn opt_vec_view<T>(o: Option<Vec<T>>) -> Option<Seq<T>> {
    match o {
        Some(v) => Some(v@),
        None => None,
    }
}

/// The action an entry describes: it needs an id, and hotkeys that are strings.
pub open spec fn entry_model(e: ActionEntry) -> Option<ActionModel> {
    match (e.id, entry_hotkeys(opt_vec_view(e.hotkeys))) {
        (Some(id), Some(hotkeys)) => Some(ActionModel { id: id@, description: opt_view(e.description), hotkeys }),
        _ => None,
    }
}

impl ActionDescription {
    /// The description an entry read from YAML gives; `None` when the entry lacks an id or
    /// holds a hotkey that is not a string.
    #[verifier::loop_isolation(false)]
    pub fn from_entry(entry: ActionEntry) -> (r: Option<ActionDescription>)
        ensures
            match entry_model(entry) {
                Some(m) => r matches Some(a) && a.view() == m,
                None => r is None,
            },
    {
        let ActionEntry { id, description, hotkeys } = entry;
        let ghost h0 = opt_vec_view(hotkeys);
        let id = match id {
            Some(id) => id,
            None => return None,
        };
        let mut keys: Vec<String> = Vec::new();
        match hotkeys {
            None => {},
            Some(v) => {
                let mut i: usize = 0;
                while i < v.len()
                    invariant
                        h0 == Some(v@),
                        i <= v@.len(),
                        keys@.len() == i,
                        forall|j: int| 0 <= j < i ==> #[trigger] v@[j] is Some && keys@[j]@ == v@[j].unwrap()@,
                    decreases v@.len() - i,
                {
                    match &v[i] {
                        Some(k) => keys.push(k.clone()),
                        None => {
                            assert(!(forall|j: int| 0 <= j < v@.len() ==> #[trigger] v@[j] is Some));
                            return None;
                        },
                    }
                    i += 1;
                }
                assert(strings_view(keys@) =~= v@.map_values(|o: Option<String>| o.unwrap()@));
            },
        }
        proof {
            if h0 is None {
                assert(strings_view(keys@) =~= Seq::<Seq<char>>::empty());
            }
        }
        Some(ActionDescription { id, description, hotkeys: keys })
    }
}

/// Combining an action with itself changes nothing.
pub proof fn lemma_combine_idempotent(a: ActionModel)
    ensures
        combined(a, a) == a,
{
}

/// Combining with an action that has neither a description nor hotkeys changes nothing.
pub proof fn lemma_combine_with_empty(a: ActionModel, b: ActionModel)
    requires
        b.description is None,
        b.hotkeys.len() == 0,
    ensures
        combined(a, b) == a,
{
}

/// Combining is associative.
pub proof fn lemma_combine_associative(a: ActionModel, b: ActionModel, c: ActionModel)
    ensures
        combined(combined(a, b), c) == combined(a, combined(b, c)),
{
}

} // verus!
