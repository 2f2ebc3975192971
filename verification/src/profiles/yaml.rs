use vstd::prelude::*;
use yaml_rust2::{Yaml, YamlLoader};
use crate::profiles::action_description::{entry_hotkeys, entry_model, opt_vec_view, opt_view, ActionDescription, ActionEntry, ActionModel};
use crate::profiles::profile::{entries_model, profile_entry_model, Profile, ProfileEntry};

verus! {

#[verifier::external_type_specification]
#[verifier::external_body]
pub struct ExYaml(Yaml);

/// What `value[key]` (`Yaml`'s index by key) gives: the value under `key` of a mapping, or
/// `Yaml::BadValue` when there is none or `value` is not a mapping.
pub uninterp spec fn yaml_index(value: Yaml, key: Seq<char>) -> Yaml;

/// What `Yaml::as_str` gives: the string a `Yaml::String` holds, else nothing.
pub uninterp spec fn yaml_as_str(value: Yaml) -> Option<Seq<char>>;

/// What `Yaml::as_vec` gives: the items a `Yaml::Array` holds, else nothing.
pub uninterp spec fn yaml_as_vec(value: Yaml) -> Option<Seq<Yaml>>;

/// The hotkeys listed under `hotkeys` of an action: none when the list is absent; `None`
/// when an item is not a string.
pub open spec fn yaml_hotkeys(value: Yaml) -> Option<Seq<Seq<char>>> {
    match yaml_as_vec(yaml_index(value, "hotkeys"@)) {
        None => Some(Seq::empty()),
        Some(items) => if forall|i: int| 0 <= i < items.len() ==> #[trigger] yaml_as_str(items[i]) is Some {
            Some(items.map_values(|y: Yaml| yaml_as_str(y).unwrap()))
        } else {
            None
        },
    }
}

/// The action a YAML mapping describes with its fields `id`, `description` and `hotkeys`:
/// none when `id` is not a string or a hotkey is not a string.
pub open spec fn yaml_action_model(value: Yaml) -> Option<ActionModel> {
    match (yaml_as_str(yaml_index(value, "id"@)), yaml_hotkeys(value)) {
        (Some(id), Some(hotkeys)) => Some(ActionModel {
            id,
            description: yaml_as_str(yaml_index(value, "description"@)),
            hotkeys,
        }),
        _ => None,
    }
}

/// The actions a list of YAML mappings describes: none when the list is absent; `None`
/// when one of them is not described.
pub open spec fn yaml_actions(list: Option<Seq<Yaml>>) -> Option<Seq<ActionModel>> {
    match list {
        None => Some(Seq::empty()),
        Some(items) => if forall|i: int| 0 <= i < items.len() ==> #[trigger] yaml_action_model(items[i]) is Some {
            Some(items.map_values(|y: Yaml| yaml_action_model(y).unwrap()))
        } else {
            None
        },
    }
}

/// The name and actions of the profile a YAML document describes under `profile`: none when
/// the name is not a string or an action is not described.
pub open spec fn yaml_profile_model(value: Yaml) -> Option<(Seq<char>, Seq<ActionModel>)> {
    let profile = yaml_index(value, "profile"@);
    match (yaml_as_str(yaml_index(profile, "name"@)), yaml_actions(yaml_as_vec(yaml_index(profile, "actions"@)))) {
        (Some(n), Some(a)) => Some((n, a)),
        _ => None,
    }
}

/// Reads the fields `id`, `description` and `hotkeys` of a YAML mapping with `Yaml`'s index by
/// key, `as_str` and `as_vec`. The contract claims that each field read is what those three
/// functions give, as the names above call them.
#[verifier::external_body]
fn read_action_entry(value: &Yaml) -> (r: ActionEntry)
    ensures
        opt_view(r.id) == yaml_as_str(yaml_index(*value, "id"@)),
        opt_view(r.description) == yaml_as_str(yaml_index(*value, "description"@)),
        match yaml_as_vec(yaml_index(*value, "hotkeys"@)) {
            None => r.hotkeys is None,
            Some(items) => r.hotkeys matches Some(h) && h@.len() == items.len()
                && forall|i: int| 0 <= i < items.len() ==> opt_view(#[trigger] h@[i]) == yaml_as_str(items[i]),
        },
{
    ActionEntry {
        id: value["id"].as_str().map(String::from),
        description: value["description"].as_str().map(String::from),
        hotkeys: value["hotkeys"].as_vec().map(|h| h.iter().map(|k| k.as_str().map(String::from)).collect()),
    }
}

/// Reads the field `name` and the field `actions` of the mapping under `profile` of a YAML
/// document, with `Yaml`'s index by key, `as_str` and `as_vec`. The contract claims that the
/// name and the list are what those functions give.
#[verifier::external_body]
fn read_profile_fields(value: &Yaml) -> (r: (Option<String>, Option<&Vec<Yaml>>))
    ensures
        opt_view(r.0) == yaml_as_str(yaml_index(yaml_index(*value, "profile"@), "name"@)),
        match yaml_as_vec(yaml_index(yaml_index(*value, "profile"@), "actions"@)) {
            None => r.1 is None,
            Some(items) => r.1 matches Some(l) && l@ == items,
        },
{
    let profile = &value["profile"];
    (profile["name"].as_str().map(String::from), profile["actions"].as_vec())
}

/// The entry read from a YAML mapping describes the action that the mapping describes.
proof fn lemma_action_entry(value: Yaml, e: ActionEntry)
    requires
        opt_view(e.id) == yaml_as_str(yaml_index(value, "id"@)),
        opt_view(e.description) == yaml_as_str(yaml_index(value, "description"@)),
        match yaml_as_vec(yaml_index(value, "hotkeys"@)) {
            None => e.hotkeys is None,
            Some(items) => e.hotkeys matches Some(h) && h@.len() == items.len()
                && forall|i: int| 0 <= i < items.len() ==> opt_view(#[trigger] h@[i]) == yaml_as_str(items[i]),
        },
    ensures
        entry_model(e) == yaml_action_model(value),
{
    match yaml_as_vec(yaml_index(value, "hotkeys"@)) {
        None => {},
        Some(items) => {
            let h = e.hotkeys.unwrap()@;
            assert forall|i: int| 0 <= i < items.len() implies (#[trigger] h[i] is Some <==> yaml_as_str(items[i]) is Some) by {
                assert(opt_view(h[i]) == yaml_as_str(items[i]));
            }
            if forall|i: int| 0 <= i < items.len() ==> #[trigger] yaml_as_str(items[i]) is Some {
                let a = h.map_values(|o: Option<String>| o.unwrap()@);
                let b = items.map_values(|y: Yaml| yaml_as_str(y).unwrap());
                assert forall|i: int| 0 <= i < items.len() implies #[trigger] a[i] == b[i] by {
                    assert(opt_view(h[i]) == yaml_as_str(items[i]));
                }
                assert(a =~= b);
            } else {
                let k = choose|i: int| 0 <= i < items.len() && !(#[trigger] yaml_as_str(items[i]) is Some);
                assert(!(h[k] is Some));
            }
            assert(entry_hotkeys(opt_vec_view(e.hotkeys)) == yaml_hotkeys(value));
        },
    }
    if e.id is Some {
        assert(e.id.unwrap()@ == yaml_as_str(yaml_index(value, "id"@)).unwrap());
    }
}

impl ActionDescription {
    /// The description a YAML fragment gives, such as
    /// `{id: open_file, description: Open file, hotkeys: [Ctrl+O]}`; `None` when it has no
    /// string `id` or a hotkey that is not a string.
    pub fn from_yaml(value: &Yaml) -> (r: Option<ActionDescription>)
        ensures
            match yaml_action_model(*value) {
                Some(m) => r matches Some(a) && a.view() == m,
                None => r is None,
            },
    {
        let entry = read_action_entry(value);
        proof {
            lemma_action_entry(*value, entry);
        }
        ActionDescription::from_entry(entry)
    }
}

impl Profile {
    /// The profile a YAML document gives under `profile`: its `name` and its `actions`;
    /// `None` when the name is missing or an action lacks what it needs.
    pub fn from_yaml(value: &Yaml) -> (r: Option<Profile>)
        ensures
            yaml_profile_model(*value) == match r {
                Some(p) => Some((p.spec_name(), p.spec_actions())),
                None => None,
            },
    {
        let (name, actions) = read_profile_fields(value);
        let ghost items = yaml_as_vec(yaml_index(yaml_index(*value, "profile"@), "actions"@));
        let actions = match actions {
            Some(list) => {
                let mut entries: Vec<ActionEntry> = Vec::new();
                let mut i: usize = 0;
                while i < list.len()
                    invariant
                        i <= list@.len(),
                        entries@.len() == i,
                        forall|j: int| 0 <= j < i ==> entry_model(#[trigger] entries@[j]) == yaml_action_model(list@[j]),
                    decreases list.len() - i,
                {
                    let e = read_action_entry(&list[i]);
                    proof {
                        lemma_action_entry(list@[i as int], e);
                    }
                    entries.push(e);
                    i += 1;
                }
                proof {
                    let v = entries@;
                    let its = list@;
                    assert(v.len() == its.len());
                    assert forall|j: int| 0 <= j < v.len() implies (#[trigger] entry_model(v[j]) is Some <==> yaml_action_model(its[j]) is Some) by {
                        assert(entry_model(v[j]) == yaml_action_model(its[j]));
                    }
                    if forall|j: int| 0 <= j < v.len() ==> #[trigger] entry_model(v[j]) is Some {
                        let a = v.map_values(|e: ActionEntry| entry_model(e).unwrap());
                        let b = its.map_values(|y: Yaml| yaml_action_model(y).unwrap());
                        assert forall|j: int| 0 <= j < v.len() implies #[trigger] a[j] == b[j] by {
                            assert(entry_model(v[j]) == yaml_action_model(its[j]));
                        }
                        assert(a =~= b);
                        assert forall|j: int| 0 <= j < its.len() implies #[trigger] yaml_action_model(its[j]) is Some by {
                            assert(entry_model(v[j]) == yaml_action_model(its[j]));
                        }
                        assert(entries_model(v) == yaml_actions(Some(its)));
                    } else {
                        let k = choose|j: int| 0 <= j < v.len() && !(#[trigger] entry_model(v[j]) is Some);
                        assert(!(yaml_action_model(its[k]) is Some));
                        assert(entries_model(v) == yaml_actions(Some(its)));
                    }
                }
                Some(entries)
            },
            None => None,
        };
        let entry = ProfileEntry { name, actions };
        proof {
            assert(match opt_vec_view(entry.actions) {
                Some(v) => entries_model(v),
                None => Some(Seq::empty()),
            } == yaml_actions(items));
            if entry.name is Some {
                assert(entry.name.unwrap()@ == yaml_as_str(yaml_index(yaml_index(*value, "profile"@), "name"@)).unwrap());
            }
        }
        Profile::from_entry(entry)
    }
}

/// What `YamlLoader::load_from_str` gives for `text`: its documents, or nothing when it is
/// not valid YAML.
pub uninterp spec fn yaml_documents(text: Seq<char>) -> Option<Seq<Yaml>>;

/// Parses `text` with `yaml_rust2::YamlLoader::load_from_str`. The contract claims that the
/// documents returned are those the parser gives, named `yaml_documents`, and nothing when it
/// reports an error.
#[verifier::external_body]
fn load_yaml(text: &str) -> (r: Option<Vec<Yaml>>)
    ensures
        match yaml_documents(text@) {
            Some(docs) => r matches Some(v) && v@ == docs,
            None => r is None,
        },
{
    match YamlLoader::load_from_str(text) {
        Ok(docs) => Some(docs),
        Err(_) => None,
    }
}

/// The profiles that YAML documents describe, one per document; `None` when one of them
/// does not describe a profile.
pub fn profiles_from_yaml(docs: &Vec<Yaml>) -> (r: Option<Vec<Profile>>)
    ensures
        r is Some <==> forall|i: int| 0 <= i < docs@.len() ==> #[trigger] yaml_profile_model(docs@[i]) is Some,
        r matches Some(v) ==> v@.len() == docs@.len() && forall|i: int| 0 <= i < docs@.len()
            ==> Some((#[trigger] v@[i].spec_name(), v@[i].spec_actions())) == yaml_profile_model(docs@[i]),
{
    let mut out: Vec<Profile> = Vec::new();
    let mut i: usize = 0;
    while i < docs.len()
        invariant
            i <= docs@.len(),
            out@.len() == i,
            forall|j: int| 0 <= j < i ==> Some((#[trigger] out@[j].spec_name(), out@[j].spec_actions())) == yaml_profile_model(docs@[j]),
        decreases docs@.len() - i,
    {
        match Profile::from_yaml(&docs[i]) {
            Some(p) => out.push(p),
            None => return None,
        }
        i += 1;
    }
    proof {
        assert forall|j: int| 0 <= j < docs@.len() implies #[trigger] yaml_profile_model(docs@[j]) is Some by {
            assert(Some((out@[j].spec_name(), out@[j].spec_actions())) == yaml_profile_model(docs@[j]));
        }
    }
    Some(out)
}

/// The profiles built into the viewer, read from their YAML text; `None` when the text does
/// not parse or a document does not describe a profile.
pub fn load_builtin_profiles(text: &str) -> (r: Option<Vec<Profile>>)
    ensures
        match yaml_documents(text@) {
            Some(docs) => {
                &&& r is Some <==> forall|i: int| 0 <= i < docs.len() ==> #[trigger] yaml_profile_model(docs[i]) is Some
                &&& r matches Some(v) ==> v@.len() == docs.len() && forall|i: int| 0 <= i < docs.len()
                    ==> Some((#[trigger] v@[i].spec_name(), v@[i].spec_actions())) == yaml_profile_model(docs[i])
            },
            None => r is None,
        },
{
    match load_yaml(text) {
        Some(docs) => profiles_from_yaml(&docs),
        None => None,
    }
}

} // verus!
