use systemd_manager::classify::ParseFailure;
use systemd_manager::control::DbusError;
use systemd_manager::registry::Registry;
use systemd_manager::scope::{Kind, Location};
use systemd_manager::unit::{
    read_listing, sort_by_name, unit_names, Failure, Unit, UnitError, UnitStatus, Units,
};

fn unit(name: &str, active: bool, status: UnitStatus) -> Unit {
    Unit { name: String::from(name), active, status }
}

fn names(units: &Units) -> Vec<String> {
    (0..units.len()).map(|i| units.get(i).unwrap().name.clone()).collect()
}

fn flags(units: &Units) -> Vec<bool> {
    (0..units.len()).map(|i| units.get(i).unwrap().active).collect()
}

#[test]
fn unit_from_a_row() {
    let unit = Unit::from_str("sshd.service                enabled").unwrap();
    assert_eq!(unit.name, "sshd.service");
    assert_eq!(unit.active, false);
    assert_eq!(unit.status, UnitStatus::Enabled);
    assert_eq!(Unit::from_str("a.timer disabled extra").unwrap().status, UnitStatus::Disabled);
    assert_eq!(Unit::from_str("\ta.mount\u{a0}masked\n").unwrap().status, UnitStatus::Masked);
    assert_eq!(Unit::from_str("\ta.mount\u{a0}masked\n").unwrap().name, "a.mount");
}

#[test]
fn unit_from_a_row_that_gives_none() {
    assert_eq!(Unit::from_str("sshd.service static").err(), Some(UnitError::InvalidStatus));
    assert_eq!(Unit::from_str("sshd.service Enabled").err(), Some(UnitError::InvalidStatus));
    assert_eq!(Unit::from_str("sshd.service").err(), Some(UnitError::MissingInformation));
    assert_eq!(Unit::from_str("   ").err(), Some(UnitError::MissingInformation));
    assert_eq!(Unit::from_str("").err(), Some(UnitError::MissingInformation));
}

#[test]
fn listing_skips_the_heading_and_ends_at_the_empty_line() {
    let output = "UNIT FILE                 STATE\nzram.service              enabled\nbroken\ncups.socket               disabled\nodd.service               static\ngetty@.service            masked\n\n5 unit files listed.\n";
    let units = read_listing(output);
    let seen: Vec<(&str, UnitStatus, bool)> =
        units.iter().map(|u| (u.name.as_str(), u.status, u.active)).collect();
    assert_eq!(
        seen,
        vec![
            ("zram.service", UnitStatus::Enabled, false),
            ("cups.socket", UnitStatus::Disabled, false),
            ("getty@.service", UnitStatus::Masked, false),
        ]
    );
    assert_eq!(unit_names(&units), vec!["zram.service", "cups.socket", "getty@.service"]);
}

#[test]
fn listing_of_nothing() {
    assert_eq!(read_listing("").len(), 0);
    assert_eq!(read_listing("UNIT FILE STATE\n").len(), 0);
    assert_eq!(read_listing("UNIT FILE STATE\n\na.service enabled\n").len(), 0);
    assert_eq!(read_listing("a.service enabled").len(), 0);
    assert_eq!(read_listing("head\na.service enabled").len(), 1);
}

#[test]
fn answers_are_laid_on_the_units_in_the_order_of_the_question() {
    let listed = vec![
        unit("zram.service", false, UnitStatus::Enabled),
        unit("cups.socket", false, UnitStatus::Disabled),
    ];
    assert_eq!(unit_names(&listed), vec!["zram.service", "cups.socket"]);
    let units = Units::new(listed, "active\ninactive\n").unwrap();
    assert_eq!(names(&units), vec!["cups.socket", "zram.service"]);
    assert_eq!(flags(&units), vec![false, true]);
}

#[test]
fn units_come_in_the_order_of_their_names_whatever_the_case() {
    let listing = "UNIT FILE STATE\nalpha.service enabled\nZeta.service disabled\n";
    let units = Units::new(read_listing(listing), "inactive\ninactive\n").unwrap();
    assert_eq!(names(&units), vec!["alpha.service", "Zeta.service"]);
    let listing = "UNIT FILE STATE\nZeta.service disabled\nalpha.service enabled\n";
    let units = Units::new(read_listing(listing), "active\ninactive\n").unwrap();
    assert_eq!(names(&units), vec!["alpha.service", "Zeta.service"]);
    assert_eq!(flags(&units), vec![false, true]);
}

#[test]
fn an_answer_that_is_too_short_is_laid_on_no_unit() {
    let listed = || {
        vec![
            unit("c", true, UnitStatus::Enabled),
            unit("b", true, UnitStatus::Enabled),
            unit("a", true, UnitStatus::Enabled),
        ]
    };
    assert_eq!(Units::new(listed(), "active").err(), Some(ParseFailure::ShortAnswer));
    assert_eq!(Units::new(listed(), "").err(), Some(ParseFailure::ShortAnswer));
    assert_eq!(Units::new(listed(), "active\nactive\n").err(), Some(ParseFailure::ShortAnswer));
    assert_eq!(Units::new(listed(), "\n\n").err(), Some(ParseFailure::ShortAnswer));
    let mut registry = Registry::new();
    assert!(registry.refresh(Units::new(listed(), "inactive\nactive\ninactive")).is_ok());
    let short = Units::new(vec![unit("z", false, UnitStatus::Enabled)], "");
    assert_eq!(registry.refresh(short), Err(ParseFailure::ShortAnswer));
    let kept = registry.units().unwrap();
    assert_eq!(names(kept), vec!["a", "b", "c"]);
    assert_eq!(flags(kept), vec![false, true, false]);
}

#[test]
fn answers_of_full_length_or_more() {
    let listed = || {
        vec![
            unit("c", true, UnitStatus::Enabled),
            unit("b", true, UnitStatus::Enabled),
            unit("a", true, UnitStatus::Enabled),
        ]
    };
    let units = Units::new(listed(), "inactive\nactivating\nfailed\nactive\nactive\n").unwrap();
    assert_eq!(names(&units), vec!["a", "b", "c"]);
    assert_eq!(flags(&units), vec![false, true, false]);
    let units = Units::new(listed(), "\n\nactive").unwrap();
    assert_eq!(flags(&units), vec![true, false, false]);
    let units = Units::new(listed(), "active\r\n\r\nunknown\r\n").unwrap();
    assert_eq!(flags(&units), vec![false, false, true]);
    assert_eq!(Units::new(vec![], "active\n").unwrap().len(), 0);
    assert_eq!(Units::new(vec![], "").unwrap().len(), 0);
}

#[test]
fn names_are_sorted_without_regard_to_case() {
    let sorted = sort_by_name(vec![
        unit("b.service", false, UnitStatus::Enabled),
        unit("B.service", false, UnitStatus::Enabled),
        unit("a.service", true, UnitStatus::Masked),
        unit("a", false, UnitStatus::Enabled),
        unit("A.service", false, UnitStatus::Enabled),
        unit("\u{c9}.service", false, UnitStatus::Enabled),
        unit("\u{e9}.service", true, UnitStatus::Enabled),
    ]);
    let seen: Vec<(&str, bool)> = sorted.iter().map(|u| (u.name.as_str(), u.active)).collect();
    assert_eq!(
        seen,
        vec![
            ("a", false),
            ("a.service", true),
            ("A.service", false),
            ("b.service", false),
            ("B.service", false),
            ("\u{c9}.service", false),
            ("\u{e9}.service", true),
        ]
    );
}

#[test]
fn refreshing_twice_gives_the_same_units() {
    let listing = "UNIT FILE STATE\nzram.service enabled\ncups.socket disabled\nbackup.timer masked\n";
    let answer = "active\ninactive\nactive\n";
    let first = Units::new(read_listing(listing), answer).unwrap();
    let second = Units::new(read_listing(listing), answer).unwrap();
    assert_eq!(names(&first), names(&second));
    assert_eq!(flags(&first), flags(&second));
    assert_eq!(names(&first), vec!["backup.timer", "cups.socket", "zram.service"]);
    let mut registry = Registry::new();
    assert!(registry.units().is_none());
    assert_eq!(registry.refresh::<String>(Ok(first)), Ok(()));
    let once = names(registry.units().unwrap());
    assert_eq!(registry.refresh::<String>(Ok(second)), Ok(()));
    assert_eq!(names(registry.units().unwrap()), once);
}

#[test]
fn enabling_leaves_the_running_state_alone() {
    let mut sshd = unit("sshd.service", true, UnitStatus::Enabled);
    assert!(sshd.toggle_enablement(false, Ok(())).is_ok());
    assert_eq!(sshd.status, UnitStatus::Enabled);
    assert_eq!(sshd.active, true);
    assert!(systemd_manager::reply::is_enabled("[Bool(true), Array([], \"(sss)\")]"));
    let mut idle = unit("idle.service", false, UnitStatus::Disabled);
    assert!(idle.toggle_enablement(false, Ok(())).is_ok());
    assert_eq!(idle.status, UnitStatus::Enabled);
    assert_eq!(idle.active, false);
}

#[test]
fn toggles_change_one_field_after_success_only() {
    let mut sshd = unit("sshd.service", false, UnitStatus::Enabled);
    assert!(sshd.toggle_enablement(true, Ok(())).is_ok());
    assert_eq!((sshd.status, sshd.active), (UnitStatus::Disabled, false));
    assert!(sshd.toggle_activeness(false, Ok(())).is_ok());
    assert_eq!((sshd.status, sshd.active), (UnitStatus::Disabled, true));
    assert!(sshd.toggle_activeness(true, Ok(())).is_ok());
    assert_eq!((sshd.status, sshd.active), (UnitStatus::Disabled, false));
    let failed = sshd.toggle_activeness(false, Err(DbusError::SendErr { why: String::from("late") }));
    assert!(matches!(failed, Err(DbusError::SendErr { why }) if why == "late"));
    assert_eq!((sshd.status, sshd.active), (UnitStatus::Disabled, false));
    let failed =
        sshd.toggle_enablement(false, Err(DbusError::Connection { why: String::from("none") }));
    assert!(matches!(failed, Err(DbusError::Connection { why }) if why == "none"));
    assert_eq!((sshd.status, sshd.active), (UnitStatus::Disabled, false));
    let mut masked = unit("m.service", false, UnitStatus::Masked);
    assert!(masked.toggle_enablement(false, Ok(())).is_ok());
    assert_eq!(masked.status, UnitStatus::Enabled);
}

#[test]
fn toggle_requests() {
    let sshd = unit("sshd.service", false, UnitStatus::Enabled);
    let here = Location::Localhost;
    assert!(here.is_localhost());
    assert!(!Location::External(String::from("host")).is_localhost());
    assert_eq!(sshd.enablement_call(Kind::System, &here, true).unwrap().member, "DisableUnitFiles");
    assert_eq!(sshd.enablement_call(Kind::User, &here, false).unwrap().member, "EnableUnitFiles");
    assert_eq!(sshd.enablement_call(Kind::User, &here, false).unwrap().bus, Kind::User);
    assert_eq!(sshd.activeness_call(Kind::System, &here, true).unwrap().member, "StopUnit");
    assert_eq!(sshd.activeness_call(Kind::System, &here, false).unwrap().member, "StartUnit");
}

#[test]
fn a_unit_of_another_machine_gets_no_call() {
    let sshd = unit("sshd.service", true, UnitStatus::Enabled);
    let there = Location::External(String::from("host"));
    assert!(matches!(sshd.enablement_call(Kind::System, &there, true), Err(Failure::Remote)));
    assert!(matches!(sshd.enablement_call(Kind::User, &there, false), Err(Failure::Remote)));
    assert!(matches!(sshd.activeness_call(Kind::System, &there, true), Err(Failure::Remote)));
    assert!(matches!(sshd.activeness_call(Kind::User, &there, false), Err(Failure::Remote)));
    assert_eq!((sshd.status, sshd.active), (UnitStatus::Enabled, true));
}

#[test]
fn registry_changes_one_unit_by_name() {
    let listed = vec![
        unit("zram.service", false, UnitStatus::Enabled),
        unit("cups.socket", false, UnitStatus::Disabled),
    ];
    let mut registry = Registry::new();
    assert!(matches!(
        registry.toggle_enablement("cups.socket", false, Ok(())),
        Err(Failure::NotFound)
    ));
    assert_eq!(registry.refresh(Units::new(listed, "inactive\nactive\n")), Ok(()));
    assert!(registry.toggle_enablement("cups.socket", false, Ok(())).is_ok());
    assert!(registry.toggle_activeness("zram.service", false, Ok(())).is_ok());
    {
        let units = registry.units().unwrap();
        assert_eq!(names(units), vec!["cups.socket", "zram.service"]);
        assert_eq!(units.get(0).unwrap().status, UnitStatus::Enabled);
        assert_eq!(units.get(0).unwrap().active, true);
        assert_eq!(units.get(1).unwrap().status, UnitStatus::Enabled);
        assert_eq!(units.get(1).unwrap().active, true);
        assert_eq!(units.position("zram.service"), Some(1));
        assert_eq!(units.position("none"), None);
        assert!(units.get(2).is_none());
    }
    assert!(matches!(
        registry.toggle_activeness("gone.service", true, Ok(())),
        Err(Failure::NotFound)
    ));
    let failed = registry.toggle_activeness(
        "zram.service",
        true,
        Err(DbusError::MethodCallError { why: String::from("bad") }),
    );
    assert!(matches!(failed, Err(Failure::Transport(DbusError::MethodCallError { why })) if why == "bad"));
    assert_eq!(registry.units().unwrap().get(1).unwrap().active, true);
}

#[test]
fn a_failed_listing_leaves_the_registry_as_it_was() {
    let mut registry = Registry::new();
    assert_eq!(registry.refresh(Err(String::from("no systemctl"))), Err(String::from("no systemctl")));
    assert!(registry.units().is_none());
    let listed = vec![unit("a.service", false, UnitStatus::Enabled)];
    assert_eq!(registry.refresh(Units::new(listed, "active\n")), Ok(()));
    assert_eq!(registry.refresh(Err(String::from("bus down"))), Err(String::from("bus down")));
    let units = registry.units().unwrap();
    assert_eq!(names(units), vec!["a.service"]);
    assert_eq!(flags(units), vec![true]);
}

#[test]
fn units_toggle_by_place() {
    let listed = vec![
        unit("b", false, UnitStatus::Enabled),
        unit("a", false, UnitStatus::Masked),
    ];
    let mut units = Units::new(listed, "inactive\ninactive\n").unwrap();
    assert!(units.toggle_enablement(1, true, Ok(())).is_ok());
    assert!(units.toggle_activeness(0, false, Ok(())).is_ok());
    assert!(matches!(units.toggle_activeness(2, false, Ok(())), Err(Failure::NotFound)));
    assert!(matches!(units.toggle_enablement(9, false, Ok(())), Err(Failure::NotFound)));
    assert_eq!(names(&units), vec!["a", "b"]);
    assert_eq!(flags(&units), vec![true, false]);
    assert_eq!(units.get(0).unwrap().status, UnitStatus::Masked);
    assert_eq!(units.get(1).unwrap().status, UnitStatus::Disabled);
}

#[test]
fn a_row_can_be_parsed_as_a_unit() {
    let unit: Unit = "cups.socket disabled".parse().unwrap();
    assert_eq!(unit.name, "cups.socket");
    assert_eq!(unit.status, UnitStatus::Disabled);
    assert_eq!("cups.socket".parse::<Unit>().err(), Some(UnitError::MissingInformation));
    assert_eq!("cups.socket bad".parse::<Unit>().err(), Some(UnitError::InvalidStatus));
}
