use mdev::engine::{
    evaluate, node_kind, parse_device_number, react_to_event, resolve_device_name,
    ActionDescriptor, Disposition, InvalidDeviceNumber, NodeKind,
};
use mdev::event::{Action, Env};
use mdev::rule::{Filter, OnCreation, Rule};

fn env_of(pairs: &[(&str, &str)]) -> Env {
    let mut env = Env::new();
    for (key, value) in pairs {
        env.insert(key.to_string(), value.to_string());
    }
    env
}

fn any_device(on_creation: Option<OnCreation>, stop: bool) -> Rule {
    Rule {
        stop,
        env_matches: vec![],
        filter: Filter::DeviceRegex { regex: String::from(".*"), source_variable: None },
        owner: String::from("root"),
        group: String::from("disk"),
        mode: 0o660,
        on_creation,
    }
}

fn only(name: &str, on_creation: Option<OnCreation>, stop: bool) -> Rule {
    Rule {
        filter: Filter::DeviceRegex { regex: format!("^{}$", name), source_variable: None },
        ..any_device(on_creation, stop)
    }
}

fn node(device_name: &str, final_device_name: &str, disposition: Disposition) -> ActionDescriptor {
    ActionDescriptor::Node {
        device_name: String::from(device_name),
        final_device_name: String::from(final_device_name),
        disposition,
        owner: String::from("root"),
        group: String::from("disk"),
        mode: 0o660,
    }
}

fn relocate(directory: &str, target: &str) -> Disposition {
    Disposition::Relocate { directory: String::from(directory), target: String::from(target) }
}

fn move_to(path: &str) -> Option<OnCreation> {
    Some(OnCreation::MoveTo(String::from(path)))
}

#[test]
fn device_name_comes_from_the_environment_first() {
    let env = env_of(&[("DEVNAME", "foo")]);
    assert_eq!(resolve_device_name(&env, Some("DEVNAME=bar\n"), "/devices/x/baz"), "foo");
}

#[test]
fn device_name_comes_from_the_last_line_of_the_attributes() {
    let env = env_of(&[("SUBSYSTEM", "tty")]);
    let attributes = "MAJOR=4\nDEVNAME=first\nMINOR=1\nDEVNAME=second\nXDEVNAME=third\n";
    assert_eq!(resolve_device_name(&env, Some(attributes), "/devices/x/baz"), "second");
    assert_eq!(resolve_device_name(&env, Some("DEVNAME=bus/usb/001"), "/devices/x"), "bus/usb/001");
    assert_eq!(resolve_device_name(&env, Some("DEVNAME="), "/devices/x"), "");
}

#[test]
fn device_name_falls_back_to_the_final_path_segment() {
    let env = Env::new();
    assert_eq!(resolve_device_name(&env, None, "/devices/platform/tty/ttyS6"), "ttyS6");
    assert_eq!(resolve_device_name(&env, Some("MAJOR=4\nDEVNAMES=x\n"), "/devices/ttyS6"), "ttyS6");
    assert_eq!(resolve_device_name(&env, Some("  DEVNAME=x\n"), "/devices/ttyS6/"), "ttyS6");
    assert_eq!(resolve_device_name(&env, None, "ttyS6"), "ttyS6");
    assert_eq!(resolve_device_name(&env, None, "/"), "");
    assert_eq!(resolve_device_name(&env, None, ""), "");
}

#[test]
fn device_number_is_major_colon_minor() {
    assert_eq!(parse_device_number("8:1\n"), Ok(Some((8, 1))));
    assert_eq!(parse_device_number("  254:4294967295 "), Ok(Some((254, u32::MAX))));
    assert_eq!(parse_device_number("+8:+1"), Ok(Some((8, 1))));
    assert_eq!(parse_device_number("8"), Ok(None));
    assert_eq!(parse_device_number(""), Ok(None));
    assert_eq!(parse_device_number("\n"), Ok(None));
}

#[test]
fn device_number_that_is_no_number_is_refused() {
    assert_eq!(parse_device_number("8:x"), Err(InvalidDeviceNumber));
    assert_eq!(parse_device_number("x:1"), Err(InvalidDeviceNumber));
    assert_eq!(parse_device_number(":"), Err(InvalidDeviceNumber));
    assert_eq!(parse_device_number("8:"), Err(InvalidDeviceNumber));
    assert_eq!(parse_device_number("8:1:2"), Err(InvalidDeviceNumber));
    assert_eq!(parse_device_number("8: 1"), Err(InvalidDeviceNumber));
    assert_eq!(parse_device_number("8:4294967296"), Err(InvalidDeviceNumber));
}

#[test]
fn block_devices_have_a_block_segment() {
    assert_eq!(node_kind("/devices/pci0000:00/ata1/host0/block/sda/sda1"), NodeKind::Block);
    assert_eq!(node_kind("/block/loop0"), NodeKind::Block);
    assert_eq!(node_kind("block"), NodeKind::Block);
    assert_eq!(node_kind("/devices/virtual/blockade/x"), NodeKind::Character);
    assert_eq!(node_kind("/devices/virtual/tty/tty1"), NodeKind::Character);
    assert_eq!(node_kind(""), NodeKind::Character);
}

#[test]
fn no_rule_applies_means_suppressed() {
    let env = Env::new();
    let rules = vec![only("sda", None, false), only("sdb", None, true)];
    let decision = evaluate(&rules, &env, Some((8, 1)), &Action::Add, NodeKind::Block, "sdc");
    assert_eq!(decision, ActionDescriptor::Suppressed);
    let decision = evaluate(&vec![], &env, Some((8, 1)), &Action::Add, NodeKind::Block, "sdc");
    assert_eq!(decision, ActionDescriptor::Suppressed);
}

#[test]
fn later_rule_overrides_without_stop() {
    let env = Env::new();
    let rules = vec![any_device(move_to("first/"), false), any_device(move_to("second/"), false)];
    let decision = evaluate(&rules, &env, Some((8, 1)), &Action::Add, NodeKind::Block, "sda");
    assert_eq!(decision, node("sda", "second/sda", relocate("second/", "second/sda")));
}

#[test]
fn stop_halts_evaluation() {
    let env = Env::new();
    let rules = vec![
        only("sdb", move_to("other/"), true),
        any_device(move_to("first/"), true),
        any_device(move_to("second/"), false),
    ];
    let decision = evaluate(&rules, &env, Some((8, 1)), &Action::Add, NodeKind::Block, "sda");
    assert_eq!(decision, node("sda", "first/sda", relocate("first/", "first/sda")));
}

#[test]
fn prevent_suppresses_with_and_without_stop() {
    let env = Env::new();
    for stop in [false, true] {
        let rules = vec![
            any_device(move_to("first/"), false),
            any_device(Some(OnCreation::Prevent), stop),
            any_device(None, false),
        ];
        let decision = evaluate(&rules, &env, Some((8, 1)), &Action::Add, NodeKind::Block, "sda");
        assert_eq!(decision, ActionDescriptor::Suppressed);
    }
}

#[test]
fn prevent_behind_a_stopping_rule_is_not_reached() {
    let env = Env::new();
    let rules = vec![any_device(None, true), any_device(Some(OnCreation::Prevent), true)];
    let decision = evaluate(&rules, &env, None, &Action::Change, NodeKind::Character, "tty1");
    assert_eq!(decision, node("tty1", "tty1", Disposition::Retain));
}

#[test]
fn node_in_place_follows_the_action() {
    let env = Env::new();
    let rules = vec![any_device(None, true)];
    let added = evaluate(&rules, &env, Some((4, 70)), &Action::Add, NodeKind::Character, "ttyS6");
    assert_eq!(
        added,
        node(
            "ttyS6",
            "ttyS6",
            Disposition::Create { major: 4, minor: 70, kind: NodeKind::Character }
        )
    );
    let unnumbered = evaluate(&rules, &env, None, &Action::Add, NodeKind::Character, "ttyS6");
    assert_eq!(unnumbered, node("ttyS6", "ttyS6", Disposition::Retain));
    let removed = evaluate(&rules, &env, Some((4, 70)), &Action::Remove, NodeKind::Block, "ttyS6");
    assert_eq!(removed, node("ttyS6", "ttyS6", Disposition::Remove));
    for action in [
        Action::Change,
        Action::Move,
        Action::Online,
        Action::Offline,
        Action::Other(String::from("bind")),
    ] {
        let other = evaluate(&rules, &env, Some((4, 70)), &action, NodeKind::Character, "ttyS6");
        assert_eq!(other, node("ttyS6", "ttyS6", Disposition::Retain));
    }
}

#[test]
fn symlink_rule_gives_link_at() {
    let env = Env::new();
    let rules = vec![any_device(Some(OnCreation::SymlinkTo(String::from("loop/0"))), true)];
    let decision = evaluate(&rules, &env, Some((7, 0)), &Action::Add, NodeKind::Block, "loop0");
    assert_eq!(
        decision,
        node(
            "loop0",
            "loop0",
            Disposition::LinkAt { directory: String::from("loop"), target: String::from("loop/0") }
        )
    );
}

#[test]
fn end_to_end_without_device_number() {
    let env = env_of(&[("DEVNAME", "foo")]);
    let rules = vec![Rule {
        stop: false,
        env_matches: vec![],
        filter: Filter::MajorMinor { major: 0, min: 1, max_minor: None },
        owner: String::from("root"),
        group: String::from("root"),
        mode: 0o700,
        on_creation: None,
    }];
    let decision = react_to_event("/devices/virtual/foo", &env, &Action::Add, &rules, None, None);
    assert_eq!(
        decision,
        Ok(ActionDescriptor::Node {
            device_name: String::from("foo"),
            final_device_name: String::from("foo"),
            disposition: Disposition::Retain,
            owner: String::from("root"),
            group: String::from("root"),
            mode: 0o700,
        })
    );
}

#[test]
fn react_reads_number_name_and_kind() {
    let env = env_of(&[("SUBSYSTEM", "block")]);
    let rules = vec![
        Rule {
            filter: Filter::MajorMinor { major: 8, min: 0, max_minor: Some(15) },
            ..any_device(None, true)
        },
        any_device(move_to("other/"), true),
    ];
    let decision = react_to_event(
        "/devices/pci0000:00/host0/block/sda/sda1",
        &env,
        &Action::Add,
        &rules,
        Some("8:1\n"),
        Some("MAJOR=8\nMINOR=1\nDEVNAME=sda1\nDEVTYPE=partition\n"),
    );
    assert_eq!(
        decision,
        Ok(node("sda1", "sda1", Disposition::Create { major: 8, minor: 1, kind: NodeKind::Block }))
    );
    let decision = react_to_event(
        "/devices/pci0000:00/host0/block/sda/sda1",
        &env,
        &Action::Add,
        &rules,
        Some("8:16\n"),
        None,
    );
    assert_eq!(decision, Ok(node("sda1", "other/sda1", relocate("other/", "other/sda1"))));
}

#[test]
fn react_refuses_a_bad_device_number() {
    let env = Env::new();
    let rules = vec![any_device(None, true)];
    let decision =
        react_to_event("/devices/x", &env, &Action::Add, &rules, Some("eight:one\n"), None);
    assert_eq!(decision, Err(InvalidDeviceNumber));
}
