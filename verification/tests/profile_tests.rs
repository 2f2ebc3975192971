use logv::profiles::os_profile;
use logv::profiles::yaml::load_builtin_profiles;
use logv::profiles::action_description::ActionDescription;
use logv::profiles::profile::Profile;

#[test]
fn test_combine_full() {
    let left = ActionDescription::new("foo", Some("Basic description"), vec!["Ctrl+o"]);
    let right = ActionDescription::new("foo", Some("Overridden description"), vec!["pgdown"]);
    let sum = left.combine(&right);
    assert_eq!(sum.id(), "foo");
    assert_eq!(sum.description(), Some("Overridden description"));
    assert_eq!(sum.hotkeys(), &vec!["pgdown".to_string()]);
}

#[test]
fn test_combine_fallback_description() {
    let left = ActionDescription::new("foo", Some("Basic description"), vec!["Ctrl+o"]);
    let right = ActionDescription::new("foo", None, vec!["pgdown"]);
    let sum = left.combine(&right);
    assert_eq!(sum.id(), "foo");
    assert_eq!(sum.description(), Some("Basic description"));
    assert_eq!(sum.hotkeys(), &vec!["pgdown".to_string()]);
}

#[test]
fn test_combine_fallback_hotkeys() {
    let left = ActionDescription::new("foo", Some("Basic description"), vec!["Ctrl+o"]);
    let right = ActionDescription::new("foo", Some("Overridden description"), Vec::<&str>::new());
    let sum = left.combine(&right);
    assert_eq!(sum.id(), "foo");
    assert_eq!(sum.description(), Some("Overridden description"));
    assert_eq!(sum.hotkeys(), &vec!["Ctrl+o".to_string()]);
}

#[test]
fn test_combine() {
    let base = Profile::new(
        "base",
        vec![
            ActionDescription::new("foo", Some("Basic description"), vec!["Ctrl+o"]),
            ActionDescription::new("bar", Some("Bar description"), vec!["Shift+pgdown"]),
        ],
    );
    let specific = Profile::new(
        "specific",
        vec![ActionDescription::new("foo", Some("Overridden description"), vec!["Shift+LEFT"])],
    );
    let composition = base.combine(&specific);

    let expected: [ActionDescription; 2] = [
        ActionDescription::new("foo", Some("Overridden description"), vec!["Shift+LEFT"]),
        ActionDescription::new("bar", Some("Bar description"), vec!["Shift+pgdown"]),
    ];

    assert_eq!(composition.name(), "specific");
    assert_eq!(composition.actions(), &expected[..]);
}

#[test]
fn lookup_finds_the_action_by_id() {
    let profile = Profile::new(
        "p",
        vec![
            ActionDescription::new("foo", Some("Foo"), vec!["f"]),
            ActionDescription::new("bar", None, vec!["b", "B"]),
        ],
    );
    assert_eq!(profile.lookup("bar").map(|a| a.hotkeys().clone()), Some(vec!["b".to_string(), "B".to_string()]));
    assert!(profile.lookup("baz").is_none());
}

#[test]
fn action_description_test_parsing() {
    let s = "id: word_forward\ndescription: Move cursor one word forward\nhotkeys: [Ctrl+RIGHT]\n";
    let docs = yaml_rust2::YamlLoader::load_from_str(s).unwrap();
    let doc = &docs[0];
    let actual = ActionDescription::from_yaml(doc).unwrap();
    assert_eq!(actual.id(), "word_forward");
    assert_eq!(actual.description(), Some("Move cursor one word forward"));
    assert_eq!(actual.hotkeys(), &vec!["Ctrl+RIGHT".to_string()]);
}

#[test]
fn profile_test_parsing() {
    let s = "profile:\n  name: Test Profile\n  actions:\n    - id: open_file\n      description: Some action\n      hotkeys: [Ctrl+o]\n    - id: quit\n      description: Quit\n      hotkeys: [q]\n";
    let docs = yaml_rust2::YamlLoader::load_from_str(s).unwrap();
    let doc = &docs[0];
    let actual = Profile::from_yaml(doc).unwrap();
    assert_eq!(actual.name(), "Test Profile");
    assert_eq!(actual.actions().len(), 2);
}

#[test]
fn yaml_without_id_gives_no_action() {
    let docs = yaml_rust2::YamlLoader::load_from_str("description: nothing\n").unwrap();
    assert!(ActionDescription::from_yaml(&docs[0]).is_none());
    let docs = yaml_rust2::YamlLoader::load_from_str("id: a\nhotkeys: [1, b]\n").unwrap();
    assert!(ActionDescription::from_yaml(&docs[0]).is_none());
    let docs = yaml_rust2::YamlLoader::load_from_str("id: a\n").unwrap();
    let a = ActionDescription::from_yaml(&docs[0]).unwrap();
    assert_eq!(a.description(), None);
    assert!(a.hotkeys().is_empty());
}

const BUILTIN: &str = "profile:\n  name: default\n  actions:\n    - id: open_file\n      description: Open file\n      hotkeys: [Ctrl+O]\n    - id: quit\n      hotkeys: [q]\n---\nprofile:\n  name: macos\n  actions:\n    - id: open_file\n      hotkeys: [Cmd+O]\n";

#[test]
fn builtin_profiles_give_the_os_profile() {
    let profiles = load_builtin_profiles(BUILTIN).unwrap();
    assert_eq!(profiles.len(), 2);
    let mac = os_profile(&profiles, "macos");
    assert_eq!(mac.name(), "macos");
    assert_eq!(mac.lookup("open_file").unwrap().hotkeys(), &vec!["Cmd+O".to_string()]);
    assert_eq!(mac.lookup("open_file").unwrap().description(), Some("Open file"));
    assert_eq!(mac.lookup("quit").unwrap().hotkeys(), &vec!["q".to_string()]);
    let linux = os_profile(&profiles, "linux");
    assert_eq!(linux.name(), "default");
    assert_eq!(linux.actions().len(), 2);
}

#[test]
fn builtin_profiles_refuse_bad_yaml() {
    assert!(load_builtin_profiles("profile: [").is_none());
    assert!(load_builtin_profiles("profile:\n  actions: []\n").is_none());
}
