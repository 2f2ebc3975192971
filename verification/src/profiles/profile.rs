use vstd::prelude::*;
use vstd::string::StringExecFns;
use crate::profiles::action_description::{combined, entry_model, opt_vec_view, str_eq, ActionDescription, ActionEntry, ActionModel};

verus! {

/// A named set of action descriptions (hotkeys for one platform, for instance).
#[derive(Debug)]
pub struct Profile {
    name: String,
    actions: Vec<ActionDescription>,
}

pub open spec fn actions_view(v: Seq<ActionDescription>) -> Seq<ActionModel> {
    v.map_values(|a: ActionDescription| a.view())
}

/// Index of the first action with the given id, if any.
pub open spec fn first_with_id(v: Seq<ActionModel>, id: Seq<char>) -> Option<int>
    decreases v.len(),
{
    if v.len() == 0 {
        None
    } else if v[0].id == id {
        Some(0)
    } else {
        match first_with_id(v.drop_first(), id) {
            Some(i) => Some(i + 1),
            None => None,
        }
    }
}

/// Index of the last action with the given id, if any.
pub open spec fn last_with_id(v: Seq<ActionModel>, id: Seq<char>) -> Option<int>
    decreases v.len(),
{
    if v.len() == 0 {
        None
    } else if v.last().id == id {
        Some(v.len() - 1)
    } else {
        last_with_id(v.drop_last(), id)
    }
}

/// Each action of `base`, combined with the last action of `over` that has its id.
pub open spec fn combined_actions(base: Seq<ActionModel>, over: Seq<ActionModel>) -> Seq<ActionModel> {
    base.map_values(
        |x: ActionModel|
            match last_with_id(over, x.id) {
                Some(k) => combined(x, over[k]),
                None => x,
            },
    )
}

proof fn lemma_last_with_id(v: Seq<ActionModel>, id: Seq<char>)
    ensures
        match last_with_id(v, id) {
            Some(k) => 0 <= k < v.len() && v[k].id == id && forall|j: int| k < j < v.len() ==> v[j].id != id,
            None => forall|j: int| 0 <= j < v.len() ==> v[j].id != id,
        },
    decreases v.len(),
{
    if v.len() > 0 {
        lemma_last_with_id(v.drop_last(), id);
        assert forall|j: int| 0 <= j < v.len() - 1 implies v.drop_last()[j] == v[j] by {}
    }
}

proof fn lemma_first_with_id(v: Seq<ActionModel>, id: Seq<char>)
    ensures
        match first_with_id(v, id) {
            Some(k) => 0 <= k < v.len() && v[k].id == id && forall|j: int| 0 <= j < k ==> v[j].id != id,
            None => forall|j: int| 0 <= j < v.len() ==> v[j].id != id,
        },
    decreases v.len(),
{
    if v.len() > 0 {
        lemma_first_with_id(v.drop_first(), id);
        if v[0].id != id {
            match first_with_id(v.drop_first(), id) {
                Some(i) => {
                    assert forall|j: int| 0 <= j < i + 1 implies v[j].id != id by {
                        if j > 0 {
                            assert(v[j] == v.drop_first()[j - 1]);
                        }
                    }
                },
                None => {
                    assert forall|j: int| 0 <= j < v.len() implies v[j].id != id by {
                        if j > 0 {
                            assert(v[j] == v.drop_first()[j - 1]);
                        }
                    }
                },
            }
        }
    }
}

impl Clone for Profile {
    fn clone(&self) -> (r: Self)
        ensures
            r.spec_name() == self.spec_name(),
            r.spec_actions() == self.spec_actions(),
    {
        let mut actions: Vec<ActionDescription> = Vec::new();
        let mut i: usize = 0;
        while i < self.actions.len()
            invariant
                i <= self.actions@.len(),
                actions_view(actions@) == actions_view(self.actions@.take(i as int)),
            decreases self.actions@.len() - i,
        {
            let a = self.actions[i].clone();
            proof {
                assert(actions_view(actions@.push(a)) =~= actions_view(actions@).push(a.view()));
                assert(actions_view(self.actions@.take(i + 1)) =~= actions_view(self.actions@.take(i as int)).push(self.actions@[i as int].view()));
            }
            actions.push(a);
            i += 1;
        }
        proof {
            assert(self.actions@.take(i as int) =~= self.actions@);
        }
        Profile { name: self.name.clone(), actions }
    }
}

impl Profile {
    pub closed spec fn spec_name(self) -> Seq<char> {
        self.name@
    }

    pub closed spec fn spec_actions(self) -> Seq<ActionModel> {
        actions_view(self.actions@)
    }

    pub fn new(name: &str, actions: Vec<ActionDescription>) -> (r: Self)
        ensures
            r.spec_name() == name@,
            r.spec_actions() == actions_view(actions@),
    {
        Profile { name: String::from_str(name), actions }
    }

    pub fn name(&self) -> (r: &str)
        ensures
            r@ == self.spec_name(),
    {
        self.name.as_str()
    }

    pub fn actions(&self) -> (r: &[ActionDescription])
        ensures
            actions_view(r@) == self.spec_actions(),
    {
        self.actions.as_slice()
    }

    /// The first action with the given id.
    pub fn lookup(&self, id: &str) -> (r: Option<&ActionDescription>)
        ensures
            match first_with_id(self.spec_actions(), id@) {
                Some(k) => r is Some && r.unwrap().view() == self.spec_actions()[k],
                None => r is None,
            },
    {
        let ghost v = self.spec_actions();
        proof {
            lemma_first_with_id(v, id@);
        }
        let mut i: usize = 0;
        while i < self.actions.len()
            invariant
                v == actions_view(self.actions@),
                i <= self.actions@.len(),
                forall|j: int| 0 <= j < i ==> v[j].id != id@,
            decreases self.actions@.len() - i,
        {
            if str_eq(self.actions[i].id(), id) {
                proof {
                    assert(v[i as int] == self.actions@[i as int].view());
                    assert(v[i as int].id == id@);
                    match first_with_id(v, id@) {
                        Some(k) => {
                            if k < i {
                            } else if k > i {
                            }
                        },
                        None => {},
                    }
                }
                let r = &self.actions[i];
                proof {
                    lemma_first_with_id(v, id@);
                    assert(r.view() == v[i as int]);
                    assert(first_with_id(v, id@) == Some(i as int)) by {
                        match first_with_id(v, id@) {
                            Some(k) => {
                                assert(!(k < i));
                                assert(!(k > i));
                            },
                            None => {
                                assert(false);
                            },
                        }
                    }
                }
                return Some(r);
            }
            i += 1;
        }
        None
    }

    /// This profile overridden by `rhs`: every action of this profile is combined with the
    /// action of `rhs` that has its id (the last one, if there are several). The name is that of
    /// `rhs`.
    pub fn combine(&self, rhs: &Profile) -> (r: Profile)
        ensures
            r.spec_name() == rhs.spec_name(),
            r.spec_actions() == combined_actions(self.spec_actions(), rhs.spec_actions()),
    {
        let ghost base = self.spec_actions();
        let ghost over = rhs.spec_actions();
        let mut actions: Vec<ActionDescription> = Vec::new();
        let mut i: usize = 0;
        while i < self.actions.len()
            invariant
                base == actions_view(self.actions@),
                over == actions_view(rhs.actions@),
                i <= self.actions@.len(),
                actions@.len() == i,
                forall|j: int| 0 <= j < i ==> actions@[j].view() == combined_actions(base, over)[j],
            decreases self.actions@.len() - i,
        {
            let x = &self.actions[i];
            // the last action of rhs with this id
            let mut found: Option<usize> = None;
            let mut k: usize = rhs.actions.len();
            proof {
                lemma_last_with_id(over, x.view().id);
            }
            while k > 0 && !str_eq(rhs.actions[k - 1].id(), x.id())
                invariant
                    over == actions_view(rhs.actions@),
                    k <= rhs.actions@.len(),
                    forall|j: int| k <= j < over.len() ==> over[j].id != x.view().id,
                decreases k,
            {
                proof {
                    assert(over[k - 1] == rhs.actions@[k - 1].view());
                }
                k -= 1;
            }
            if k > 0 {
                proof {
                    assert(over[k - 1] == rhs.actions@[k - 1].view());
                }
                found = Some(k - 1);
            }
            let item = match found {
                Some(j) => {
                    proof {
                        lemma_last_with_id(over, x.view().id);
                        assert(over[j as int].id == x.view().id);
                        assert(last_with_id(over, x.view().id) == Some(j as int)) by {
                            match last_with_id(over, x.view().id) {
                                Some(m) => {
                                    if m < j {
                                    } else if m > j {
                                    }
                                },
                                None => {},
                            }
                        }
                    }
                    assert(over[j as int] == rhs.actions@[j as int].view());
                    x.combine(&rhs.actions[j])
                },
                None => {
                    proof {
                        lemma_last_with_id(over, x.view().id);
                        assert(last_with_id(over, x.view().id) is None) by {
                            match last_with_id(over, x.view().id) {
                                Some(m) => {},
                                None => {},
                            }
                        }
                    }
                    x.clone()
                },
            };
            proof {
                assert(base[i as int] == x.view());
                assert(item.view() == combined_actions(base, over)[i as int]);
            }
            actions.push(item);
            i += 1;
        }
        proof {
            assert(actions_view(actions@) =~= combined_actions(base, over));
        }
        Profile { name: rhs.name.clone(), actions }
    }
}

/// Combining keeps the actions of the base profile, in their order and with their ids.
pub proof fn lemma_combine_keeps_ids(base: Seq<ActionModel>, over: Seq<ActionModel>)
    ensures
        combined_actions(base, over).len() == base.len(),
        forall|i: int| 0 <= i < base.len() ==> #[trigger] combined_actions(base, over)[i].id == base[i].id,
{
}

/// An action whose id the overriding profile does not know is kept as it is.
pub proof fn lemma_combine_unknown_id(base: Seq<ActionModel>, over: Seq<ActionModel>, i: int)
    requires
        0 <= i < base.len(),
        forall|j: int| 0 <= j < over.len() ==> over[j].id != base[i].id,
    ensures
        combined_actions(base, over)[i] == base[i],
{
    lemma_last_with_id(over, base[i].id);
    match last_with_id(over, base[i].id) {
        Some(k) => { assert(false); },
        None => {},
    }
}

/// A profile whose ids are distinct, combined with itself, is unchanged.
pub proof fn lemma_combine_self(base: Seq<ActionModel>)
    requires
        forall|i: int, j: int| 0 <= i < j < base.len() ==> base[i].id != base[j].id,
    ensures
        combined_actions(base, base) == base,
{
    assert forall|i: int| 0 <= i < base.len() implies #[trigger] combined_actions(base, base)[i] == base[i] by {
        lemma_last_with_id(base, base[i].id);
        match last_with_id(base, base[i].id) {
            Some(k) => {
                if k != i {
                    if k < i {
                        assert(base[k].id != base[i].id);
                    }
                }
            },
            None => {},
        }
    }
    assert(combined_actions(base, base) =~= base);
}

/// The fields of a profile as a YAML document holds them under `profile`: the name when it is
/// a string; the actions when they are a list.
pub struct ProfileEntry {
    pub name: Option<String>,
    pub actions: Option<Vec<ActionEntry>>,
}

/// The actions the entries describe, when each describes one.
pub open spec fn entries_model(v: Seq<ActionEntry>) -> Option<Seq<ActionModel>> {
    if forall|i: int| 0 <= i < v.len() ==> #[trigger] entry_model(v[i]) is Some {
        Some(v.map_values(|e: ActionEntry| entry_model(e).unwrap()))
    } else {
        None
    }
}

/// The name and actions of the profile an entry gives, if it gives one.
pub open spec fn profile_entry_model(e: ProfileEntry) -> Option<(Seq<char>, Seq<ActionModel>)> {
    match (e.name, match opt_vec_view(e.actions) { Some(v) => entries_model(v), None => Some(Seq::empty()) }) {
        (Some(n), Some(actions)) => Some((n@, actions)),
        _ => None,
    }
}

impl Profile {
    /// The profile an entry read from YAML gives; `None` when the entry lacks a name or an
    /// action entry lacks what it needs.
    #[verifier::loop_isolation(false)]
    pub fn from_entry(entry: ProfileEntry) -> (r: Option<Profile>)
        ensures
            profile_entry_model(entry) == match r {
                Some(p) => Some((p.spec_name(), p.spec_actions())),
                None => None,
            },
    {
        let ProfileEntry { name, actions } = entry;
        let name = match name {
            Some(n) => n,
            None => return None,
        };
        let mut out: Vec<ActionDescription> = Vec::new();
        match actions {
            None => {
                assert(actions_view(out@) =~= Seq::<ActionModel>::empty());
            },
            Some(v) => {
                let ghost v0 = v@;
                let mut rest = v;
                let mut tmp: Vec<ActionEntry> = Vec::new();
                while rest.len() > 0
                    invariant
                        tmp@.len() + rest@.len() == v0.len(),
                        forall|i: int| 0 <= i < rest@.len() ==> #[trigger] rest@[i] == v0[i],
                        forall|i: int| 0 <= i < tmp@.len() ==> #[trigger] tmp@[i] == v0[v0.len() - 1 - i],
                    decreases rest@.len(),
                {
                    let x = rest.pop().unwrap();
                    tmp.push(x);
                }
                while tmp.len() > 0
                    invariant
                        tmp@.len() + out@.len() == v0.len(),
                        forall|i: int| 0 <= i < tmp@.len() ==> #[trigger] tmp@[i] == v0[v0.len() - 1 - i],
                        forall|i: int| 0 <= i < out@.len() ==> entry_model(#[trigger] v0[i]) == Some(out@[i].view()),
                    decreases tmp@.len(),
                {
                    let ghost k = out@.len() as int;
                    let e = tmp.pop().unwrap();
                    assert(e == v0[k]);
                    match ActionDescription::from_entry(e) {
                        Some(a) => out.push(a),
                        None => {
                            assert(entry_model(v0[k]) is None);
                            return None;
                        },
                    }
                }
                assert(actions_view(out@) =~= v0.map_values(|e: ActionEntry| entry_model(e).unwrap()));
            },
        }
        Some(Profile { name, actions: out })
    }
}

} // verus!
