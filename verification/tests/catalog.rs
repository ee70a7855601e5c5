use systemd_manager::catalog::{
    collect_togglable_services, collect_togglable_sockets, collect_togglable_timers,
    is_togglable, list_unit_files, sort_units, togglable, SystemdUnit,
};
use systemd_manager::classify::{ParseFailure, UnitState, UnitType};
use systemd_manager::control::Argument;
use systemd_manager::reply::{is_disabled, is_enabled, parse_message};
use systemd_manager::scope::Kind;

fn reply_of(entries: &[(&str, &str)]) -> String {
    let mut text = String::from("[Array([");
    for (i, (path, state)) in entries.iter().enumerate() {
        if i > 0 {
            text.push_str(", ");
        }
        text.push_str(&format!("Struct([Str(\"{}\"), Str(\"{}\")])", path, state));
    }
    text.push_str("], \"a(ss)\")]");
    text
}

fn unit(name: &str, path: &str, state: UnitState, utype: UnitType) -> SystemdUnit {
    SystemdUnit {
        name: String::from(name),
        path: String::from(path),
        state,
        utype,
        bustype: Kind::System,
    }
}

#[test]
fn test_is_togglable() {
    let static_state = &UnitState::Static;
    let enabled_state = &UnitState::Enabled;
    let disabled_state = &UnitState::Disabled;
    let service_type = &UnitType::Service;
    let socket_type = &UnitType::Socket;
    let timer_type = &UnitType::Timer;
    assert_eq!(is_togglable(service_type, static_state, &UnitType::Service), false);
    assert_eq!(is_togglable(service_type, enabled_state, &UnitType::Service), true);
    assert_eq!(is_togglable(socket_type, disabled_state, &UnitType::Socket), true);
    assert_eq!(is_togglable(timer_type, disabled_state, &UnitType::Timer), true);
}

#[test]
fn is_togglable_wants_the_same_kind() {
    assert_eq!(is_togglable(&UnitType::Socket, &UnitState::Enabled, &UnitType::Service), false);
    assert_eq!(is_togglable(&UnitType::Service, &UnitState::Masked, &UnitType::Service), false);
}

#[test]
fn unit_type_by_suffix() {
    assert_eq!(UnitType::new("/a/b.automount"), Ok(UnitType::Automount));
    assert_eq!(UnitType::new("/a/b.busname"), Ok(UnitType::Busname));
    assert_eq!(UnitType::new("/a/b.mount"), Ok(UnitType::Mount));
    assert_eq!(UnitType::new("/a/b.path"), Ok(UnitType::Path));
    assert_eq!(UnitType::new("/a/b.scope"), Ok(UnitType::Scope));
    assert_eq!(UnitType::new("/a/b.service"), Ok(UnitType::Service));
    assert_eq!(UnitType::new("/a/b.slice"), Ok(UnitType::Slice));
    assert_eq!(UnitType::new("/a/b.socket"), Ok(UnitType::Socket));
    assert_eq!(UnitType::new("/a/b.swap"), Ok(UnitType::Swap));
    assert_eq!(UnitType::new("/a/b.target"), Ok(UnitType::Target));
    assert_eq!(UnitType::new("/a/b.timer"), Ok(UnitType::Timer));
}

#[test]
fn unit_type_does_not_depend_on_the_directory() {
    for dir in ["", "/", "/usr/lib/systemd/system/", "relative/dir.d/", "/etc/systemd/user/"] {
        let path = format!("{}dbus-org.freedesktop.resolve1.service", dir);
        assert_eq!(UnitType::new(&path), Ok(UnitType::Service));
        let path = format!("{}sshd@.socket", dir);
        assert_eq!(UnitType::new(&path), Ok(UnitType::Socket));
    }
}

#[test]
fn unit_type_refuses_unknown_suffixes() {
    assert_eq!(UnitType::new("/a/b.device"), Err(ParseFailure::UnrecognizedExtension));
    assert_eq!(UnitType::new("/a/b"), Err(ParseFailure::UnrecognizedExtension));
    assert_eq!(UnitType::new("/a.service/b"), Err(ParseFailure::UnrecognizedExtension));
    assert_eq!(UnitType::new("/a/.service"), Err(ParseFailure::UnrecognizedExtension));
    assert_eq!(UnitType::new("/a/b.Service"), Err(ParseFailure::UnrecognizedExtension));
    assert_eq!(UnitType::new("/a/b.service."), Err(ParseFailure::UnrecognizedExtension));
    assert_eq!(UnitType::new(""), Err(ParseFailure::UnrecognizedExtension));
    assert_eq!(UnitType::new("/a/..service"), Ok(UnitType::Service));
}

#[test]
fn unit_type_goes_by_the_last_component() {
    assert_eq!(UnitType::new("/a/b.service/"), Ok(UnitType::Service));
    assert_eq!(UnitType::new("/a/b.service//"), Ok(UnitType::Service));
    assert_eq!(UnitType::new("/a/b.service/."), Ok(UnitType::Service));
    assert_eq!(UnitType::new("/a/b.service/./"), Ok(UnitType::Service));
    assert_eq!(UnitType::new("a//b.timer"), Ok(UnitType::Timer));
    assert_eq!(UnitType::new("./b.socket"), Ok(UnitType::Socket));
    assert_eq!(UnitType::new("b.mount"), Ok(UnitType::Mount));
    assert_eq!(UnitType::new("/a/b.service/.."), Err(ParseFailure::UnrecognizedExtension));
    assert_eq!(UnitType::new("/a/b.service/c"), Err(ParseFailure::UnrecognizedExtension));
    assert_eq!(UnitType::new("/"), Err(ParseFailure::UnrecognizedExtension));
    assert_eq!(UnitType::new("."), Err(ParseFailure::UnrecognizedExtension));
    assert_eq!(UnitType::new(".."), Err(ParseFailure::UnrecognizedExtension));
    assert_eq!(UnitType::new("..."), Err(ParseFailure::UnrecognizedExtension));
}

#[test]
fn unit_type_agrees_with_the_extension_of_a_path() {
    let suffixes = [
        ("automount", UnitType::Automount),
        ("busname", UnitType::Busname),
        ("mount", UnitType::Mount),
        ("path", UnitType::Path),
        ("scope", UnitType::Scope),
        ("service", UnitType::Service),
        ("slice", UnitType::Slice),
        ("socket", UnitType::Socket),
        ("swap", UnitType::Swap),
        ("target", UnitType::Target),
        ("timer", UnitType::Timer),
    ];
    let heads = ["", "/", "//", "a/", "/a/b/", "./", "../", "/a/./", "/a/../", "a.service/"];
    let names = [
        "x.service", "x", ".service", "..service", "x.", "service", "x.y.timer", ".x.mount",
        ".", "..", "...", "", "x.target.", "sshd@.socket", "\u{e9}.swap", "x.device",
    ];
    let tails = ["", "/", "//", "/.", "/./", "/..", "/./.", "/.//"];
    for head in heads {
        for name in names {
            for tail in tails {
                let path = format!("{}{}{}", head, name, tail);
                let expected = std::path::Path::new(&path)
                    .extension()
                    .and_then(|e| e.to_str())
                    .and_then(|e| suffixes.iter().find(|(s, _)| *s == e))
                    .map(|(_, t)| *t);
                assert_eq!(UnitType::new(&path).ok(), expected, "{}", path);
            }
        }
    }
}

#[test]
fn unit_names_agree_with_the_file_name_of_a_path() {
    for path in ["/a/b.service/", "/a//c.timer//", "d.socket/.", "/x/./e.mount/./"] {
        let text = reply_of(&[(path, "enabled")]);
        let units = list_unit_files(&text, Kind::System).unwrap();
        let expected = std::path::Path::new(path).file_name().unwrap().to_str().unwrap();
        assert_eq!(units[0].name, expected);
        assert_eq!(units[0].path, path);
    }
}

#[test]
fn unit_state_by_lead_character() {
    assert_eq!(UnitState::new(" Str(\"static\")])"), Ok(UnitState::Static));
    assert_eq!(UnitState::new(" Str(\"disabled\")])"), Ok(UnitState::Disabled));
    assert_eq!(UnitState::new(" Str(\"enabled\")])"), Ok(UnitState::Enabled));
    assert_eq!(UnitState::new(" Str(\"indirect\")])"), Ok(UnitState::Indirect));
    assert_eq!(UnitState::new(" Str(\"linked\")])"), Ok(UnitState::Linked));
    assert_eq!(UnitState::new(" Str(\"masked\")])"), Ok(UnitState::Masked));
    assert_eq!(UnitState::new(" Str(\"bad\")])"), Ok(UnitState::Bad));
    assert_eq!(UnitState::new(" Str(\"generated\")])"), Ok(UnitState::Generated));
    assert_eq!(UnitState::new(" Str(\"transient\")])"), Ok(UnitState::Transient));
    assert_eq!(UnitState::new(" Str(\"alias\")])"), Ok(UnitState::Alias));
}

#[test]
fn unit_state_refuses_other_characters() {
    assert_eq!(UnitState::new(" Str(\"unknown\")])"), Err(ParseFailure::UnrecognizedStateChar));
    assert_eq!(UnitState::new(" Str(\"Enabled\")])"), Err(ParseFailure::UnrecognizedStateChar));
    assert_eq!(UnitState::new(" Str(\"\")])"), Err(ParseFailure::UnrecognizedStateChar));
    assert_eq!(UnitState::new(" Str(\""), Err(ParseFailure::UnrecognizedStateChar));
    assert_eq!(UnitState::new(""), Err(ParseFailure::UnrecognizedStateChar));
    assert_eq!(UnitState::new("enable"), Err(ParseFailure::UnrecognizedStateChar));
    assert_eq!(UnitState::new(" Str(\"\u{e9}nabled\")])"), Err(ParseFailure::UnrecognizedStateChar));
}

#[test]
fn unit_state_reads_the_seventh_character() {
    assert_eq!(UnitState::new("enabled"), Ok(UnitState::Disabled));
    assert_eq!(UnitState::new("......m"), Ok(UnitState::Masked));
    assert_eq!(UnitState::new("\u{e9}\u{e9}\u{e9}\u{e9}\u{e9}\u{e9}static"), Ok(UnitState::Static));
}

#[test]
fn parse_message_recovers_the_entries_in_order() {
    let entries = [
        ("/usr/lib/systemd/system/zram.service", "enabled"),
        ("/usr/lib/systemd/system/cups.socket", "disabled"),
        ("/etc/systemd/system/backup.timer", "static"),
        ("/usr/lib/systemd/system/getty@.service", "masked"),
        ("/run/systemd/generator/boot.mount", "generated"),
    ];
    let expected = [
        UnitState::Enabled,
        UnitState::Disabled,
        UnitState::Static,
        UnitState::Masked,
        UnitState::Generated,
    ];
    let files = parse_message(&reply_of(&entries)).unwrap();
    assert_eq!(files.len(), entries.len());
    for i in 0..entries.len() {
        assert_eq!(files[i].path, entries[i].0);
        assert_eq!(files[i].state, expected[i]);
    }
}

#[test]
fn parse_message_of_one_entry() {
    let files = parse_message(&reply_of(&[("/a/only.service", "alias")])).unwrap();
    assert_eq!(files.len(), 1);
    assert_eq!(files[0].path, "/a/only.service");
    assert_eq!(files[0].state, UnitState::Alias);
}

#[test]
fn parse_message_of_an_empty_reply() {
    assert_eq!(parse_message("").unwrap().len(), 0);
    assert_eq!(parse_message("[Array([], \"a(ss)\")]").unwrap().len(), 0);
    assert_eq!(parse_message(&reply_of(&[])).unwrap().len(), 0);
    assert_eq!(parse_message("0123456789abcdefg").unwrap().len(), 0);
}

#[test]
fn parse_message_refuses_a_reply_too_short_for_its_wrapper() {
    assert_eq!(parse_message("short").err(), Some(ParseFailure::TruncatedReply));
    assert_eq!(parse_message("[").err(), Some(ParseFailure::TruncatedReply));
    assert_eq!(parse_message("[Array([Struct([").err(), Some(ParseFailure::TruncatedReply));
}

#[test]
fn parse_message_refuses_a_reply_cut_off_inside_a_path() {
    assert_eq!(
        parse_message("[Array([Struct([Str(\"/a").err(),
        Some(ParseFailure::UnterminatedPath)
    );
    let whole = reply_of(&[("/l/one.service", "enabled"), ("/l/two.service", "disabled")]);
    let cut = whole.find("two").unwrap();
    // ten characters more than are left of the second path, for the width
    // of the closing characters that are taken off
    let text = format!("{}0123456789", &whole[..cut + 2]);
    assert_eq!(parse_message(&text).err(), Some(ParseFailure::UnterminatedPath));
    let text = format!("{}0123456789", &whole[..whole.find(", Struct").unwrap() + 4]);
    assert_eq!(parse_message(&text).err(), Some(ParseFailure::UnterminatedPath));
    let entry = whole.find(", Struct").unwrap();
    let text = format!("{},0123456789", &whole[..entry]);
    assert_eq!(parse_message(&text).unwrap().len(), 1);
    assert_eq!(
        list_unit_files("[Array([Struct([Str(\"/a", Kind::System).err(),
        Some(ParseFailure::UnterminatedPath)
    );
}

#[test]
fn parse_message_refuses_an_open_path() {
    let text = "[Array([Struct([Str(\"/a/b.service), Str(\"enabled\")])], \"a(ss)\")]";
    assert_eq!(parse_message(text).err(), Some(ParseFailure::UnterminatedPath));
    let text = "[Array([garbage, more], \"a(ss)\")]";
    assert_eq!(parse_message(text).err(), Some(ParseFailure::UnterminatedPath));
}

#[test]
fn parse_message_refuses_an_unknown_state() {
    let text = reply_of(&[("/a/a.service", "enabled"), ("/a/b.service", "wrong")]);
    assert_eq!(parse_message(&text).err(), Some(ParseFailure::UnrecognizedStateChar));
}

#[test]
fn list_unit_files_refuses_an_unknown_kind() {
    let text = reply_of(&[("/a/a.service", "enabled"), ("/a/b.device", "enabled")]);
    assert_eq!(
        list_unit_files(&text, Kind::System).err(),
        Some(ParseFailure::UnrecognizedExtension)
    );
}

#[test]
fn list_unit_files_names_classifies_and_sorts() {
    let text = reply_of(&[
        ("/usr/lib/systemd/system/zram.service", "enabled"),
        ("/usr/lib/systemd/system/Cups.socket", "disabled"),
        ("/etc/systemd/system/backup.timer", "static"),
        ("/usr/lib/systemd/system/NetworkManager.service", "masked"),
    ]);
    let units = list_unit_files(&text, Kind::User).unwrap();
    let names: Vec<&str> = units.iter().map(|u| u.name.as_str()).collect();
    assert_eq!(names, vec!["backup.timer", "Cups.socket", "NetworkManager.service", "zram.service"]);
    assert_eq!(units[0].path, "/etc/systemd/system/backup.timer");
    assert_eq!(units[0].utype, UnitType::Timer);
    assert_eq!(units[0].state, UnitState::Static);
    assert_eq!(units[0].bustype, Kind::User);
    assert_eq!(units[1].utype, UnitType::Socket);
    assert_eq!(units[1].state, UnitState::Disabled);
    assert_eq!(units[2].utype, UnitType::Service);
    assert_eq!(units[2].state, UnitState::Masked);
    assert_eq!(units[3].state, UnitState::Enabled);
}

#[test]
fn sorting_sets_case_aside_and_keeps_equal_names_in_place() {
    let units = vec![
        unit("b.service", "/2/b.service", UnitState::Enabled, UnitType::Service),
        unit("B.service", "/1/B.service", UnitState::Enabled, UnitType::Service),
        unit("a.service", "/0/a.service", UnitState::Enabled, UnitType::Service),
        unit("B.SERVICE", "/3/B.SERVICE", UnitState::Enabled, UnitType::Service),
    ];
    let sorted = sort_units(units);
    let paths: Vec<&str> = sorted.iter().map(|u| u.path.as_str()).collect();
    assert_eq!(paths, vec!["/0/a.service", "/2/b.service", "/1/B.service", "/3/B.SERVICE"]);
}

#[test]
fn listing_twice_gives_the_same_catalog() {
    let text = reply_of(&[
        ("/usr/lib/systemd/system/zram.service", "enabled"),
        ("/usr/lib/systemd/system/Cups.socket", "disabled"),
        ("/usr/lib/systemd/system/cups.socket", "disabled"),
        ("/etc/systemd/system/backup.timer", "static"),
    ]);
    let first = list_unit_files(&text, Kind::System).unwrap();
    let second = list_unit_files(&text, Kind::System).unwrap();
    assert_eq!(first.len(), second.len());
    for (a, b) in first.iter().zip(second.iter()) {
        assert_eq!(a.name, b.name);
        assert_eq!(a.path, b.path);
        assert_eq!(a.state, b.state);
        assert_eq!(a.utype, b.utype);
    }
    let again = sort_units(first.iter().map(|u| u.duplicate()).collect());
    for (a, b) in first.iter().zip(again.iter()) {
        assert_eq!(a.path, b.path);
    }
}

#[test]
fn togglable_services_of_a_reply() {
    let text = reply_of(&[
        ("/usr/lib/systemd/system/sshd.service", "enabled"),
        ("/usr/lib/systemd/system/sshd@.service", "static"),
    ]);
    let units = list_unit_files(&text, Kind::System).unwrap();
    assert_eq!(units.len(), 2);
    let services = collect_togglable_services(&units);
    assert_eq!(services.len(), 1);
    assert_eq!(services[0].name, "sshd.service");
    assert_eq!(services[0].path, "/usr/lib/systemd/system/sshd.service");
    assert_eq!(services[0].state, UnitState::Enabled);
}

#[test]
fn togglable_leaves_out_masked_static_and_templates() {
    let units = vec![
        unit("a.service", "/l/a.service", UnitState::Enabled, UnitType::Service),
        unit("b.service", "/l/b.service", UnitState::Masked, UnitType::Service),
        unit("c.service", "/l/c.service", UnitState::Static, UnitType::Service),
        unit("d@.service", "/l/d@.service", UnitState::Enabled, UnitType::Service),
        unit("e.service", "/l/e.service", UnitState::Disabled, UnitType::Service),
        unit("f.socket", "/l/f.socket", UnitState::Enabled, UnitType::Socket),
        unit("g@.socket", "/l/g@.socket", UnitState::Disabled, UnitType::Socket),
        unit("h.timer", "/l/h.timer", UnitState::Disabled, UnitType::Timer),
        unit("i@.timer", "/l/i@.timer", UnitState::Enabled, UnitType::Timer),
        unit("j.timer", "/l/j.timer", UnitState::Indirect, UnitType::Timer),
        unit("k@.service", "/l/elsewhere", UnitState::Enabled, UnitType::Service),
    ];
    let names = |list: Vec<SystemdUnit>| -> Vec<String> {
        list.into_iter().map(|u| u.name).collect()
    };
    assert_eq!(names(collect_togglable_services(&units)), vec!["a.service", "e.service"]);
    assert_eq!(names(collect_togglable_sockets(&units)), vec!["f.socket"]);
    assert_eq!(names(collect_togglable_timers(&units)), vec!["h.timer"]);
    assert_eq!(names(togglable(&units, UnitType::Mount, false)).len(), 0);
}

#[test]
fn togglable_can_leave_out_what_lies_under_etc() {
    let units = vec![
        unit("a.service", "/etc/systemd/system/a.service", UnitState::Enabled, UnitType::Service),
        unit("b.service", "/usr/lib/systemd/system/b.service", UnitState::Enabled, UnitType::Service),
        unit("c.service", "/etcetera/c.service", UnitState::Disabled, UnitType::Service),
    ];
    assert_eq!(togglable(&units, UnitType::Service, false).len(), 3);
    let kept = togglable(&units, UnitType::Service, true);
    assert_eq!(kept.len(), 2);
    assert_eq!(kept[0].name, "b.service");
    assert_eq!(kept[1].name, "c.service");
}

#[test]
fn unit_requests_and_their_outcomes() {
    let mut sshd = unit("sshd.service", "/l/sshd.service", UnitState::Disabled, UnitType::Service);
    let call = sshd.enable();
    assert_eq!(call.bus, Kind::System);
    assert_eq!(call.member, "EnableUnitFiles");
    assert_eq!(call.arguments.len(), 3);
    assert!(matches!(&call.arguments[0], Argument::Texts(v) if v == &vec![String::from("sshd.service")]));
    assert_eq!(sshd.disable().member, "DisableUnitFiles");
    assert_eq!(sshd.start().member, "StartUnit");
    assert_eq!(sshd.stop().member, "StopUnit");

    assert_eq!(sshd.enabled(Err(String::from("no bus"))), Err(String::from("no bus")));
    assert_eq!(sshd.state, UnitState::Disabled);
    assert_eq!(sshd.enabled(Ok("[Bool(true), Array([Struct([])], \"(sss)\")]")), Ok(false));
    assert_eq!(sshd.state, UnitState::Enabled);
    assert_eq!(sshd.enabled(Ok("[Bool(true), Array([], \"(sss)\")]")), Ok(true));
    assert_eq!(sshd.state, UnitState::Enabled);
    assert_eq!(sshd.disabled(Err(String::from("timeout"))), Err(String::from("timeout")));
    assert_eq!(sshd.state, UnitState::Enabled);
    assert_eq!(sshd.disabled(Ok("[Array([Struct([])], \"(sss)\")]")), Ok(false));
    assert_eq!(sshd.state, UnitState::Disabled);
    assert_eq!(sshd.disabled(Ok("[Array([], \"(sss)\")]")), Ok(true));
    assert_eq!(sshd.name, "sshd.service");
    assert_eq!(sshd.path, "/l/sshd.service");
}

#[test]
fn is_enabled_goes_by_the_first_unit_of_the_same_path() {
    let sshd = unit("sshd.service", "/l/sshd.service", UnitState::Disabled, UnitType::Service);
    let listing = vec![
        unit("a.service", "/l/a.service", UnitState::Enabled, UnitType::Service),
        unit("sshd.service", "/l/sshd.service", UnitState::Enabled, UnitType::Service),
        unit("sshd.service", "/l/sshd.service", UnitState::Disabled, UnitType::Service),
    ];
    assert!(sshd.is_enabled(&listing));
    assert!(!sshd.is_enabled(&listing[..1]));
    assert!(!sshd.is_enabled(&listing[2..]));
    assert!(!sshd.is_enabled(&[]));
}

#[test]
fn answers_that_tell_nothing_changed() {
    assert!(is_enabled("[Bool(true), Array([], \"(sss)\")]"));
    assert!(!is_enabled("[Bool(false), Array([], \"(sss)\")]"));
    assert!(!is_enabled("[Bool(true), Array([Struct([Str(\"symlink\")])], \"(sss)\")]"));
    assert!(!is_enabled(""));
    assert!(is_disabled("[Array([], \"(sss)\")]"));
    assert!(!is_disabled("[Array([Struct([Str(\"unlink\")])], \"(sss)\")]"));
    assert!(!is_disabled("[Bool(true), Array([], \"(sss)\")]"));
}
