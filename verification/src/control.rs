//! The requests that change or query a unit: the method calls that go to
//! the manager over the message bus, and the command lines of the tools
//! that are run. A request is built here as plain data; sending it is the
//! caller's part.

use crate::scope::Kind;
use vstd::prelude::*;

verus! {

/// The bus name of the service manager.
pub const DESTINATION: &'static str = "org.freedesktop.systemd1";

/// The object of the service manager on the bus.
pub const NODE: &'static str = "/org/freedesktop/systemd1";

/// The interface through which units are managed.
pub const INTERFACE: &'static str = "org.freedesktop.systemd1.Manager";

/// Why a method call on the message bus failed.
#[derive(Debug)]
pub enum DbusError {
    /// The method call could not be put together.
    MethodCallError { why: String },
    /// No connection to the bus could be made.
    Connection { why: String },
    /// The call was sent, and no reply came in time or an error came back.
    SendErr { why: String },
}

impl DbusError {
    /// What the error says, for display.
    pub open spec fn text(&self) -> Seq<char> {
        match self {
            DbusError::MethodCallError { why } => "method call error: "@ + why@,
            DbusError::Connection { why } => "dbus connection error: "@ + why@,
            DbusError::SendErr { why } => "dbus send error: "@ + why@,
        }
    }

    /// What the error says, for display.
    pub fn message(&self) -> (text: String)
        ensures
            text@ == self.text(),
    {
        match self {
            DbusError::MethodCallError { why } => concatenate("method call error: ", why.as_str()),
            DbusError::Connection { why } => concatenate("dbus connection error: ", why.as_str()),
            DbusError::SendErr { why } => concatenate("dbus send error: ", why.as_str()),
        }
    }
}

/// The text `head` followed by the text `tail`.
pub fn concatenate(head: &str, tail: &str) -> (text: String)
    ensures
        text@ == head@ + tail@,
{
    let mut text = head.to_owned();
    text.append(tail);
    text
}

/// One argument of a method call.
#[derive(Debug)]
pub enum Argument {
    /// A string.
    Text(String),
    /// A boolean.
    Flag(bool),
    /// An array of strings.
    Texts(Vec<String>),
}

/// What an argument holds.
pub enum ArgumentView {
    Text(Seq<char>),
    Flag(bool),
    Texts(Seq<Seq<char>>),
}

impl View for Argument {
    type V = ArgumentView;

    open spec fn view(&self) -> ArgumentView {
        match self {
            Argument::Text(s) => ArgumentView::Text(s@),
            Argument::Flag(b) => ArgumentView::Flag(*b),
            Argument::Texts(v) => ArgumentView::Texts(Seq::new(v@.len(), |i: int| v@[i]@)),
        }
    }
}

/// A method call to the manager interface of the service manager.
#[derive(Debug)]
pub struct MethodCall {
    /// The bus on which the call goes: that of the system or of the session.
    pub bus: Kind,
    /// The method that is called.
    pub member: String,
    /// The arguments of the call, in order.
    pub arguments: Vec<Argument>,
}

/// What a method call holds.
pub struct MethodCallView {
    pub bus: Kind,
    pub member: Seq<char>,
    pub arguments: Seq<ArgumentView>,
}

impl View for MethodCall {
    type V = MethodCallView;

    open spec fn view(&self) -> MethodCallView {
        MethodCallView {
            bus: self.bus,
            member: self.member@,
            arguments: Seq::new(self.arguments@.len(), |i: int| self.arguments@[i]@),
        }
    }
}

/// The call that installs the links of one unit file: not for this boot
/// only, and replacing links that are in the way.
pub open spec fn enable_call(kind: Kind, unit: Seq<char>) -> MethodCallView {
    MethodCallView {
        bus: kind,
        member: "EnableUnitFiles"@,
        arguments: seq![
            ArgumentView::Texts(seq![unit]),
            ArgumentView::Flag(false),
            ArgumentView::Flag(true),
        ],
    }
}

/// The call that removes the links of one unit file, not for this boot only.
pub open spec fn disable_call(kind: Kind, unit: Seq<char>) -> MethodCallView {
    MethodCallView {
        bus: kind,
        member: "DisableUnitFiles"@,
        arguments: seq![ArgumentView::Texts(seq![unit]), ArgumentView::Flag(false)],
    }
}

/// The call that starts a unit; it fails where a pending job is in the way.
pub open spec fn start_call(kind: Kind, unit: Seq<char>) -> MethodCallView {
    MethodCallView {
        bus: kind,
        member: "StartUnit"@,
        arguments: seq![ArgumentView::Text(unit), ArgumentView::Text("fail"@)],
    }
}

/// The call that stops a unit; it fails where a pending job is in the way.
pub open spec fn stop_call(kind: Kind, unit: Seq<char>) -> MethodCallView {
    MethodCallView {
        bus: kind,
        member: "StopUnit"@,
        arguments: seq![ArgumentView::Text(unit), ArgumentView::Text("fail"@)],
    }
}

/// The method call that enables the unit file `unit`.
pub fn enable(kind: Kind, unit: &str) -> (call: MethodCall)
    ensures
        call@ == enable_call(kind, unit@),
{
    let mut files: Vec<String> = Vec::new();
    files.push(unit.to_owned());
    let mut arguments: Vec<Argument> = Vec::new();
    arguments.push(Argument::Texts(files));
    arguments.push(Argument::Flag(false));
    arguments.push(Argument::Flag(true));
    let call = MethodCall { bus: kind, member: "EnableUnitFiles".to_owned(), arguments };
    assert(call@.arguments[0]->Texts_0 =~= seq![unit@]);
    assert(call@.arguments =~= enable_call(kind, unit@).arguments);
    call
}

/// The method call that disables the unit file `unit`.
pub fn disable(kind: Kind, unit: &str) -> (call: MethodCall)
    ensures
        call@ == disable_call(kind, unit@),
{
    let mut files: Vec<String> = Vec::new();
    files.push(unit.to_owned());
    let mut arguments: Vec<Argument> = Vec::new();
    arguments.push(Argument::Texts(files));
    arguments.push(Argument::Flag(false));
    let call = MethodCall { bus: kind, member: "DisableUnitFiles".to_owned(), arguments };
    assert(call@.arguments[0]->Texts_0 =~= seq![unit@]);
    assert(call@.arguments =~= disable_call(kind, unit@).arguments);
    call
}

/// The method call that starts the unit `unit`.
pub fn start(kind: Kind, unit: &str) -> (call: MethodCall)
    ensures
        call@ == start_call(kind, unit@),
{
    let mut arguments: Vec<Argument> = Vec::new();
    arguments.push(Argument::Text(unit.to_owned()));
    arguments.push(Argument::Text("fail".to_owned()));
    let call = MethodCall { bus: kind, member: "StartUnit".to_owned(), arguments };
    assert(call@.arguments =~= start_call(kind, unit@).arguments);
    call
}

/// The method call that stops the unit `unit`.
pub fn stop(kind: Kind, unit: &str) -> (call: MethodCall)
    ensures
        call@ == stop_call(kind, unit@),
{
    let mut arguments: Vec<Argument> = Vec::new();
    arguments.push(Argument::Text(unit.to_owned()));
    arguments.push(Argument::Text("fail".to_owned()));
    let call = MethodCall { bus: kind, member: "StopUnit".to_owned(), arguments };
    assert(call@.arguments =~= stop_call(kind, unit@).arguments);
    call
}

/// The method call that asks for the list of unit files.
pub fn list_call(kind: Kind) -> (call: MethodCall)
    ensures
        call@ == (MethodCallView {
            bus: kind,
            member: "ListUnitFiles"@,
            arguments: Seq::empty(),
        }),
{
    let call = MethodCall { bus: kind, member: "ListUnitFiles".to_owned(), arguments: Vec::new() };
    assert(call@.arguments =~= Seq::empty());
    call
}

/// A command line: the program to run and its arguments.
#[derive(Debug)]
pub struct Invocation {
    pub program: String,
    pub arguments: Vec<String>,
}

/// What a command line holds.
pub struct InvocationView {
    pub program: Seq<char>,
    pub arguments: Seq<Seq<char>>,
}

impl View for Invocation {
    type V = InvocationView;

    open spec fn view(&self) -> InvocationView {
        InvocationView {
            program: self.program@,
            arguments: Seq::new(self.arguments@.len(), |i: int| self.arguments@[i]@),
        }
    }
}

/// The flag that turns a tool to the manager of the user's session; the
/// manager of the system takes none.
pub open spec fn user_flag(kind: Kind) -> Seq<Seq<char>> {
    match kind {
        Kind::User => seq!["--user"@],
        Kind::System => Seq::empty(),
    }
}

/// The command line `program verb [--user] options.. operands..`.
pub open spec fn command_line(
    program: Seq<char>,
    verb: Seq<Seq<char>>,
    kind: Kind,
    operands: Seq<Seq<char>>,
) -> InvocationView {
    InvocationView { program, arguments: verb + user_flag(kind) + operands }
}

/// Builds the command line `program verb.. [--user] operands..`.
fn build(program: &str, verb: &[&str], kind: Kind, operands: Vec<String>) -> (line: Invocation)
    ensures
        line@ == command_line(
            program@,
            Seq::new(verb@.len(), |i: int| verb@[i]@),
            kind,
            Seq::new(operands@.len(), |i: int| operands@[i]@),
        ),
{
    let ghost head = Seq::new(verb@.len(), |i: int| verb@[i]@);
    let ghost tail = Seq::new(operands@.len(), |i: int| operands@[i]@);
    let mut arguments: Vec<String> = Vec::new();
    let mut i: usize = 0;
    while i < verb.len()
        invariant
            i <= verb@.len(),
            head == Seq::new(verb@.len(), |i: int| verb@[i]@),
            Seq::new(arguments@.len(), |k: int| arguments@[k]@) == head.take(i as int),
        decreases verb@.len() - i,
    {
        let ghost before = Seq::new(arguments@.len(), |k: int| arguments@[k]@);
        arguments.push(verb[i].to_owned());
        assert(Seq::new(arguments@.len(), |k: int| arguments@[k]@) =~= before.push(verb@[i as int]@));
        assert(head.take(i + 1) =~= head.take(i as int).push(head[i as int]));
        i += 1;
    }
    assert(head.take(i as int) =~= head);
    match kind {
        Kind::User => {
            arguments.push("--user".to_owned());
        },
        Kind::System => {},
    }
    assert(Seq::new(arguments@.len(), |k: int| arguments@[k]@) =~= head + user_flag(kind));
    let mut j: usize = 0;
    while j < operands.len()
        invariant
            j <= operands@.len(),
            tail == Seq::new(operands@.len(), |i: int| operands@[i]@),
            Seq::new(arguments@.len(), |k: int| arguments@[k]@) == head + user_flag(kind)
                + tail.take(j as int),
        decreases operands@.len() - j,
    {
        let ghost before = Seq::new(arguments@.len(), |k: int| arguments@[k]@);
        arguments.push(operands[j].clone());
        assert(Seq::new(arguments@.len(), |k: int| arguments@[k]@) =~= before.push(
            operands@[j as int]@,
        ));
        assert(tail.take(j + 1) =~= tail.take(j as int).push(tail[j as int]));
        j += 1;
    }
    assert(tail.take(j as int) =~= tail);
    Invocation { program: program.to_owned(), arguments }
}

/// The one operand `unit`.
fn one(unit: &str) -> (operands: Vec<String>)
    ensures
        Seq::new(operands@.len(), |i: int| operands@[i]@) == seq![unit@],
{
    let mut operands: Vec<String> = Vec::new();
    operands.push(unit.to_owned());
    assert(Seq::new(operands@.len(), |i: int| operands@[i]@) =~= seq![unit@]);
    operands
}

/// The command that lists the unit files which are enabled, disabled or
/// masked.
pub fn list_unit_files_command(kind: Kind) -> (line: Invocation)
    ensures
        line@ == command_line(
            "systemctl"@,
            seq!["list-unit-files"@],
            kind,
            seq!["--state"@, "enabled,disabled,masked"@],
        ),
{
    let mut operands: Vec<String> = Vec::new();
    operands.push("--state".to_owned());
    operands.push("enabled,disabled,masked".to_owned());
    assert(Seq::new(operands@.len(), |i: int| operands@[i]@) =~= seq![
        "--state"@,
        "enabled,disabled,masked"@,
    ]);
    let verb = ["list-unit-files"];
    assert(Seq::new(verb@.len(), |i: int| verb@[i]@) =~= seq!["list-unit-files"@]);
    build("systemctl", &verb, kind, operands)
}

/// The command that asks of each of `names`, in their order, whether the
/// unit runs; its answer holds one line for each name, in the same order.
pub fn is_active_command(kind: Kind, names: Vec<String>) -> (line: Invocation)
    ensures
        line@ == command_line(
            "systemctl"@,
            seq!["is-active"@],
            kind,
            Seq::new(names@.len(), |i: int| names@[i]@),
        ),
{
    let verb = ["is-active"];
    assert(Seq::new(verb@.len(), |i: int| verb@[i]@) =~= seq!["is-active"@]);
    build("systemctl", &verb, kind, names)
}

/// The command that reports the status of `unit`.
pub fn status_command(kind: Kind, unit: &str) -> (line: Invocation)
    ensures
        line@ == command_line("systemctl"@, seq!["status"@], kind, seq![unit@]),
{
    let verb = ["status"];
    assert(Seq::new(verb@.len(), |i: int| verb@[i]@) =~= seq!["status"@]);
    build("systemctl", &verb, kind, one(unit))
}

/// The command that lists what `unit` depends on.
pub fn list_dependencies_command(kind: Kind, unit: &str) -> (line: Invocation)
    ensures
        line@ == command_line("systemctl"@, seq!["list-dependencies"@], kind, seq![unit@]),
{
    let verb = ["list-dependencies"];
    assert(Seq::new(verb@.len(), |i: int| verb@[i]@) =~= seq!["list-dependencies"@]);
    build("systemctl", &verb, kind, one(unit))
}

/// The command that shows the properties of `unit`, without a pager.
pub fn show_command(kind: Kind, unit: &str) -> (line: Invocation)
    ensures
        line@ == command_line("systemctl"@, seq!["show"@, "--no-pager"@], kind, seq![unit@]),
{
    let verb = ["show", "--no-pager"];
    assert(Seq::new(verb@.len(), |i: int| verb@[i]@) =~= seq!["show"@, "--no-pager"@]);
    build("systemctl", &verb, kind, one(unit))
}

/// The command that prints the file of `unit`.
pub fn cat_command(kind: Kind, unit: &str) -> (line: Invocation)
    ensures
        line@ == command_line("systemctl"@, seq!["cat"@], kind, seq![unit@]),
{
    let verb = ["cat"];
    assert(Seq::new(verb@.len(), |i: int| verb@[i]@) =~= seq!["cat"@]);
    build("systemctl", &verb, kind, one(unit))
}

/// The command that prints the journal of `unit` for the current boot,
/// newest entry first.
pub fn journal_command(kind: Kind, unit: &str) -> (line: Invocation)
    ensures
        line@ == command_line(
            "journalctl"@,
            Seq::empty(),
            kind,
            seq!["-b"@, "-r"@, "-u"@, unit@],
        ),
{
    let mut operands: Vec<String> = Vec::new();
    operands.push("-b".to_owned());
    operands.push("-r".to_owned());
    operands.push("-u".to_owned());
    operands.push(unit.to_owned());
    assert(Seq::new(operands@.len(), |i: int| operands@[i]@) =~= seq![
        "-b"@,
        "-r"@,
        "-u"@,
        unit@,
    ]);
    let verb: [&str; 0] = [];
    assert(Seq::new(verb@.len(), |i: int| verb@[i]@) =~= Seq::<Seq<char>>::empty());
    build("journalctl", &verb, kind, operands)
}

} // verus!
