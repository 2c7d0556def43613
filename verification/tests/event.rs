use mdev::event::{Action, Env, Event};

#[test]
fn env_holds_each_key_once() {
    let mut env = Env::new();
    assert_eq!(env.len(), 0);
    assert_eq!(env.get("A"), None);
    env.insert(String::from("A"), String::from("1"));
    env.insert(String::from("B"), String::from("2"));
    env.insert(String::from("A"), String::from("3"));
    assert_eq!(env.len(), 2);
    assert_eq!(env.get("A"), Some(&String::from("3")));
    assert_eq!(env.get("B"), Some(&String::from("2")));
    assert_eq!(env.get("C"), None);
    assert_eq!(env.get(""), None);
    assert_eq!(env.entry(0), (&String::from("A"), &String::from("3")));
    assert_eq!(env.entry(1), (&String::from("B"), &String::from("2")));
}

#[test]
fn env_from_pairs_lets_the_later_pair_count() {
    let env = Env::from_pairs(vec![
        (String::from("A"), String::from("1")),
        (String::from("B"), String::from("2")),
        (String::from("A"), String::from("3")),
    ]);
    assert_eq!(env.len(), 2);
    assert_eq!(env.get("A"), Some(&String::from("3")));
    assert_eq!(env.get("B"), Some(&String::from("2")));
}

#[test]
fn env_equality_ignores_order() {
    let one = Env::from_pairs(vec![
        (String::from("A"), String::from("1")),
        (String::from("B"), String::from("2")),
    ]);
    let other = Env::from_pairs(vec![
        (String::from("B"), String::from("2")),
        (String::from("A"), String::from("1")),
    ]);
    let different = Env::from_pairs(vec![
        (String::from("A"), String::from("1")),
        (String::from("B"), String::from("3")),
    ]);
    let smaller = Env::from_pairs(vec![(String::from("A"), String::from("1"))]);
    assert!(one == other);
    assert!(one != different);
    assert!(one != smaller);
    assert!(smaller != one);
    assert!(one.clone() == one);
    assert!(Env::new() == Env::new());
}

#[test]
fn events_compare_by_their_fields() {
    let event = Event {
        action: Action::Add,
        device_path: String::from("/dev/path"),
        subsystem: String::from("subsystem"),
        env: Env::from_pairs(vec![(String::from("ACTION"), String::from("add"))]),
        sequence: 1234,
    };
    assert!(event.clone() == event);
    let mut later = event.clone();
    later.sequence = 1235;
    assert!(later != event);
    let mut other = event.clone();
    other.action = Action::Other(String::from("bind"));
    assert!(other != event);
}
