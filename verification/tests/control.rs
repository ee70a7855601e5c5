use systemd_manager::control::{
    cat_command, concatenate, disable, enable, is_active_command, journal_command, list_call,
    list_dependencies_command, list_unit_files_command, show_command, start, status_command, stop,
    Argument, DbusError, DESTINATION, INTERFACE, NODE,
};
use systemd_manager::scope::Kind;

fn texts(arguments: &[Argument]) -> Vec<String> {
    arguments
        .iter()
        .map(|a| match a {
            Argument::Text(s) => format!("s:{}", s),
            Argument::Flag(b) => format!("b:{}", b),
            Argument::Texts(v) => format!("as:{}", v.join("|")),
        })
        .collect()
}

#[test]
fn where_the_manager_is_found() {
    assert_eq!(DESTINATION, "org.freedesktop.systemd1");
    assert_eq!(NODE, "/org/freedesktop/systemd1");
    assert_eq!(INTERFACE, "org.freedesktop.systemd1.Manager");
}

#[test]
fn method_calls() {
    let call = enable(Kind::System, "sshd.service");
    assert_eq!(call.bus, Kind::System);
    assert_eq!(call.member, "EnableUnitFiles");
    assert_eq!(texts(&call.arguments), vec!["as:sshd.service", "b:false", "b:true"]);
    let call = disable(Kind::User, "sshd.service");
    assert_eq!(call.bus, Kind::User);
    assert_eq!(call.member, "DisableUnitFiles");
    assert_eq!(texts(&call.arguments), vec!["as:sshd.service", "b:false"]);
    let call = start(Kind::System, "sshd.service");
    assert_eq!(call.member, "StartUnit");
    assert_eq!(texts(&call.arguments), vec!["s:sshd.service", "s:fail"]);
    let call = stop(Kind::User, "cups.socket");
    assert_eq!(call.bus, Kind::User);
    assert_eq!(call.member, "StopUnit");
    assert_eq!(texts(&call.arguments), vec!["s:cups.socket", "s:fail"]);
    let call = list_call(Kind::System);
    assert_eq!(call.member, "ListUnitFiles");
    assert_eq!(call.arguments.len(), 0);
}

#[test]
fn command_lines_of_the_system() {
    let line = list_unit_files_command(Kind::System);
    assert_eq!(line.program, "systemctl");
    assert_eq!(line.arguments, vec!["list-unit-files", "--state", "enabled,disabled,masked"]);
    let line = is_active_command(Kind::System, vec![String::from("b"), String::from("a")]);
    assert_eq!(line.program, "systemctl");
    assert_eq!(line.arguments, vec!["is-active", "b", "a"]);
    assert_eq!(status_command(Kind::System, "u").arguments, vec!["status", "u"]);
    assert_eq!(
        list_dependencies_command(Kind::System, "u").arguments,
        vec!["list-dependencies", "u"]
    );
    assert_eq!(show_command(Kind::System, "u").arguments, vec!["show", "--no-pager", "u"]);
    assert_eq!(cat_command(Kind::System, "u").arguments, vec!["cat", "u"]);
    let line = journal_command(Kind::System, "u");
    assert_eq!(line.program, "journalctl");
    assert_eq!(line.arguments, vec!["-b", "-r", "-u", "u"]);
}

#[test]
fn command_lines_of_the_user() {
    assert_eq!(
        list_unit_files_command(Kind::User).arguments,
        vec!["list-unit-files", "--user", "--state", "enabled,disabled,masked"]
    );
    assert_eq!(
        is_active_command(Kind::User, vec![String::from("b"), String::from("a")]).arguments,
        vec!["is-active", "--user", "b", "a"]
    );
    assert_eq!(is_active_command(Kind::User, vec![]).arguments, vec!["is-active", "--user"]);
    assert_eq!(status_command(Kind::User, "u").arguments, vec!["status", "--user", "u"]);
    assert_eq!(
        list_dependencies_command(Kind::User, "u").arguments,
        vec!["list-dependencies", "--user", "u"]
    );
    assert_eq!(show_command(Kind::User, "u").arguments, vec!["show", "--no-pager", "--user", "u"]);
    assert_eq!(cat_command(Kind::User, "u").arguments, vec!["cat", "--user", "u"]);
    assert_eq!(journal_command(Kind::User, "u").arguments, vec!["--user", "-b", "-r", "-u", "u"]);
}

#[test]
fn what_an_error_says() {
    let e = DbusError::MethodCallError { why: String::from("bad name") };
    assert_eq!(e.message(), "method call error: bad name");
    let e = DbusError::Connection { why: String::from("refused") };
    assert_eq!(e.message(), "dbus connection error: refused");
    let e = DbusError::SendErr { why: String::from("timeout") };
    assert_eq!(e.message(), "dbus send error: timeout");
    assert_eq!(concatenate("a", "b"), "ab");
    assert_eq!(concatenate("", ""), "");
}
