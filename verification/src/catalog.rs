//! The catalog of unit files that the manager knows: built from the
//! manager's reply, put in order by name, and narrowed to the units that a
//! user may enable and disable.

use crate::classify::{file_name, file_name_span, unit_type_of, ParseFailure, UnitState, UnitType};
use crate::control::{
    disable, disable_call, enable, enable_call, start, start_call, stop, stop_call, MethodCall,
};
use crate::order::{
    arrange, is_arrangement, lemma_sort_idempotent, lemma_sort_order, sort_order, sorted_by_key,
    views, Keyed,
};
use crate::reply::{file_views, is_disabled, is_enabled, parse_message, parse_reply, UnitFileView};
use crate::scope::Kind;
use crate::text::{
    ends_with, lowercase, precedes, same_text, span_ends_with, span_starts_with, starts_with,
    string_of, to_chars, to_lowercase, whole,
};
use vstd::prelude::*;

verus! {

/// A unit file that the manager knows.
#[derive(Clone, Debug)]
pub struct SystemdUnit {
    /// The name of the file, suffix included.
    pub name: String,
    /// The path of the file.
    pub path: String,
    /// Whether the unit is enabled, disabled, masked and so on.
    pub state: UnitState,
    /// The kind of unit.
    pub utype: UnitType,
    /// The instance of the manager that the unit belongs to.
    pub bustype: Kind,
}

/// What a unit of the catalog holds.
pub struct UnitRecord {
    pub name: Seq<char>,
    pub path: Seq<char>,
    pub state: UnitState,
    pub utype: UnitType,
    pub bustype: Kind,
}

impl View for SystemdUnit {
    type V = UnitRecord;

    open spec fn view(&self) -> UnitRecord {
        UnitRecord {
            name: self.name@,
            path: self.path@,
            state: self.state,
            utype: self.utype,
            bustype: self.bustype,
        }
    }
}

impl SystemdUnit {
    /// A unit that holds what this one holds.
    pub fn duplicate(&self) -> (copy: SystemdUnit)
        ensures
            copy@ == self@,
    {
        SystemdUnit {
            name: self.name.clone(),
            path: self.path.clone(),
            state: self.state,
            utype: self.utype,
            bustype: self.bustype,
        }
    }
}

/// What the units of `units` hold, in order.
pub open spec fn records(units: Seq<SystemdUnit>) -> Seq<UnitRecord> {
    Seq::new(units.len(), |i: int| units[i]@)
}

/// The unit that stands for an entry of the manager's list.
pub open spec fn record_of(file: UnitFileView, scope: Kind) -> UnitRecord {
    UnitRecord {
        name: file_name(file.path)->0,
        path: file.path,
        state: file.state,
        utype: unit_type_of(file.path)->0,
        bustype: scope,
    }
}

/// The suffix of every path in `files` names a kind of unit.
pub open spec fn all_typed(files: Seq<UnitFileView>) -> bool {
    forall|k: int| 0 <= k < files.len() ==> unit_type_of((#[trigger] files[k]).path) is Some
}

/// The keys by which a catalog is put in order: the names in lower case.
pub open spec fn sort_keys(units: Seq<UnitRecord>) -> Seq<Seq<char>> {
    Seq::new(units.len(), |i: int| lowercase(units[i].name))
}

/// `units` in the order of the catalog: by name without regard to case,
/// units whose names fold to the same text staying as they stood.
pub open spec fn in_catalog_order(units: Seq<UnitRecord>) -> Seq<UnitRecord> {
    arrange(units, sort_order(sort_keys(units)))
}

/// The catalog that a printed reply of the manager gives for the instance
/// `scope`: one unit for each entry, in catalog order.
pub open spec fn catalog_of(reply: Seq<char>, scope: Kind) -> Result<
    Seq<UnitRecord>,
    ParseFailure,
> {
    match parse_reply(reply) {
        Err(e) => Err(e),
        Ok(files) => if all_typed(files) {
            Ok(in_catalog_order(Seq::new(files.len(), |k: int| record_of(files[k], scope))))
        } else {
            Err(ParseFailure::UnrecognizedExtension)
        },
    }
}

/// The unit's state is one that a user may change: enabled or disabled.
pub open spec fn togglable_state(state: UnitState) -> bool {
    state == UnitState::Enabled || state == UnitState::Disabled
}

/// How the file name of a template of the kind `utype` ends.
pub open spec fn template_ending(utype: UnitType) -> Seq<char> {
    "@."@ + utype.suffix()
}

/// The unit is a template of the kind `utype`: its name or its path ends as
/// a template's does.
pub open spec fn is_template(unit: UnitRecord, utype: UnitType) -> bool {
    ends_with(unit.path, template_ending(utype)) || ends_with(unit.name, template_ending(utype))
}

/// The unit file lies under `/etc/`, where the administrator's and the
/// vendor's presets are kept.
pub open spec fn is_preset(unit: UnitRecord) -> bool {
    starts_with(unit.path, "/etc/"@)
}

/// A user may toggle the unit as one of the kind `wanted`: it is of that
/// kind, enabled or disabled, and no template; where `skip_presets` is set,
/// it does not lie under `/etc/` either.
pub open spec fn may_toggle(unit: UnitRecord, wanted: UnitType, skip_presets: bool) -> bool {
    &&& unit.utype == wanted
    &&& togglable_state(unit.state)
    &&& !is_template(unit, wanted)
    &&& !(skip_presets && is_preset(unit))
}

/// The units of `units` that a user may toggle as one of the kind `wanted`,
/// in the order in which they stand.
pub open spec fn togglable_of(units: Seq<UnitRecord>, wanted: UnitType, skip_presets: bool) -> Seq<
    UnitRecord,
>
    decreases units.len(),
{
    if units.len() == 0 {
        Seq::empty()
    } else {
        let before = togglable_of(units.drop_last(), wanted, skip_presets);
        if may_toggle(units.last(), wanted, skip_presets) {
            before.push(units.last())
        } else {
            before
        }
    }
}

/// Returns true if the kind and the state of a unit say that the unit can be
/// toggled as one of the wanted kind.
pub fn is_togglable(utype: &UnitType, ustate: &UnitState, wanted_type: &UnitType) -> (b: bool)
    ensures
        b == (*utype == *wanted_type && togglable_state(*ustate)),
{
    *utype == *wanted_type && (*ustate == UnitState::Enabled || *ustate == UnitState::Disabled)
}

/// Tells whether `text` ends as the name of a template of the kind `utype`.
fn ends_as_template(text: &str, utype: &UnitType) -> (b: bool)
    ensures
        b == ends_with(text@, template_ending(*utype)),
{
    let chars = to_chars(text);
    let mut ending = to_chars("@.");
    let suffix = to_chars(utype.suffix_str());
    let mut i: usize = 0;
    while i < suffix.len()
        invariant
            i <= suffix@.len(),
            ending@ == "@."@ + suffix@.take(i as int),
        decreases suffix@.len() - i,
    {
        ending.push(suffix[i]);
        assert(suffix@.take(i + 1) =~= suffix@.take(i as int).push(suffix@[i as int]));
        i += 1;
    }
    assert(suffix@.take(i as int) =~= suffix@);
    let all = whole(chars.as_slice());
    span_ends_with(chars.as_slice(), all, ending.as_slice())
}

/// Tells whether a user may toggle `unit` as one of the kind `wanted`.
pub fn unit_may_toggle(unit: &SystemdUnit, wanted: &UnitType, skip_presets: bool) -> (b: bool)
    ensures
        b == may_toggle(unit@, *wanted, skip_presets),
{
    if !is_togglable(&unit.utype, &unit.state, wanted) {
        return false;
    }
    if ends_as_template(unit.path.as_str(), wanted) || ends_as_template(
        unit.name.as_str(),
        wanted,
    ) {
        return false;
    }
    if skip_presets {
        let chars = to_chars(unit.path.as_str());
        let lead = to_chars("/etc/");
        let all = whole(chars.as_slice());
        if span_starts_with(chars.as_slice(), all, lead.as_slice()) {
            return false;
        }
    }
    true
}

/// The units of `units` that a user may toggle as one of the kind `wanted`,
/// in the order in which they stand. With `skip_presets` the units whose
/// files lie under `/etc/` are left out too.
pub fn togglable(units: &[SystemdUnit], wanted: UnitType, skip_presets: bool) -> (chosen: Vec<
    SystemdUnit,
>)
    ensures
        records(chosen@) == togglable_of(records(units@), wanted, skip_presets),
{
    let ghost all = records(units@);
    let mut chosen: Vec<SystemdUnit> = Vec::new();
    let mut i: usize = 0;
    assert(all.take(0) =~= Seq::empty());
    assert(records(chosen@) =~= Seq::empty());
    while i < units.len()
        invariant
            all == records(units@),
            i <= units@.len(),
            records(chosen@) == togglable_of(all.take(i as int), wanted, skip_presets),
        decreases units@.len() - i,
    {
        let ghost before = records(chosen@);
        assert(all.take(i + 1).drop_last() =~= all.take(i as int));
        assert(all.take(i + 1).last() == units@[i as int]@);
        if unit_may_toggle(&units[i], &wanted, skip_presets) {
            chosen.push(units[i].duplicate());
            assert(records(chosen@) =~= before.push(units@[i as int]@));
        }
        i += 1;
    }
    assert(all.take(i as int) =~= all);
    chosen
}

/// The services of `units` which can be enabled and disabled, and which are
/// not templates.
pub fn collect_togglable_services(units: &[SystemdUnit]) -> (chosen: Vec<SystemdUnit>)
    ensures
        records(chosen@) == togglable_of(records(units@), UnitType::Service, false),
{
    togglable(units, UnitType::Service, false)
}

/// The sockets of `units` which can be enabled and disabled, and which are
/// not templates.
pub fn collect_togglable_sockets(units: &[SystemdUnit]) -> (chosen: Vec<SystemdUnit>)
    ensures
        records(chosen@) == togglable_of(records(units@), UnitType::Socket, false),
{
    togglable(units, UnitType::Socket, false)
}

/// The timers of `units` which can be enabled and disabled, and which are
/// not templates.
pub fn collect_togglable_timers(units: &[SystemdUnit]) -> (chosen: Vec<SystemdUnit>)
    ensures
        records(chosen@) == togglable_of(records(units@), UnitType::Timer, false),
{
    togglable(units, UnitType::Timer, false)
}

/// Every unit among the togglable ones is of the wanted kind, enabled or
/// disabled (so neither masked nor static), and no template; and every
/// one of them is a unit of the catalog it was chosen from.
pub proof fn lemma_togglable_units(units: Seq<UnitRecord>, wanted: UnitType, skip_presets: bool)
    ensures
        forall|i: int|
            0 <= i < togglable_of(units, wanted, skip_presets).len() ==> {
                let unit = #[trigger] togglable_of(units, wanted, skip_presets)[i];
                &&& units.contains(unit)
                &&& unit.utype == wanted
                &&& unit.state != UnitState::Masked
                &&& unit.state != UnitState::Static
                &&& togglable_state(unit.state)
                &&& !ends_with(unit.name, template_ending(wanted))
                &&& !ends_with(unit.path, template_ending(wanted))
                &&& (skip_presets ==> !is_preset(unit))
            },
    decreases units.len(),
{
    if units.len() > 0 {
        let chosen = togglable_of(units, wanted, skip_presets);
        let before = togglable_of(units.drop_last(), wanted, skip_presets);
        lemma_togglable_units(units.drop_last(), wanted, skip_presets);
        assert forall|i: int| 0 <= i < chosen.len() implies units.contains(
            #[trigger] chosen[i],
        ) by {
            if i < before.len() {
                assert(units.drop_last().contains(before[i]));
                let w = choose|w: int|
                    0 <= w < units.drop_last().len() && units.drop_last()[w] == before[i];
                assert(units[w] == before[i]);
            } else {
                assert(units[units.len() - 1] == chosen[i]);
            }
        }
    }
}

/// Every unit that a user may toggle is among the togglable ones.
pub proof fn lemma_togglable_complete(
    units: Seq<UnitRecord>,
    wanted: UnitType,
    skip_presets: bool,
    k: int,
)
    requires
        0 <= k < units.len(),
        may_toggle(units[k], wanted, skip_presets),
    ensures
        togglable_of(units, wanted, skip_presets).contains(units[k]),
    decreases units.len(),
{
    let chosen = togglable_of(units, wanted, skip_presets);
    let before = togglable_of(units.drop_last(), wanted, skip_presets);
    if k == units.len() - 1 {
        assert(chosen[chosen.len() - 1] == units[k]);
    } else {
        lemma_togglable_complete(units.drop_last(), wanted, skip_presets, k);
        let w = choose|w: int| 0 <= w < before.len() && before[w] == units.drop_last()[k];
        assert(chosen[w] == units[k]);
    }
}

impl Keyed for SystemdUnit {
    open spec fn sort_key(&self) -> Seq<char> {
        lowercase(self.name@)
    }

    fn sort_key_chars(&self) -> (key: Vec<char>) {
        let lower = to_lowercase(self.name.as_str());
        to_chars(lower.as_str())
    }

    fn replica(&self) -> (copy: SystemdUnit) {
        self.duplicate()
    }
}

/// Puts `units` in the order of the catalog: by name without regard to
/// case, units whose names fold to the same text staying as they stood.
pub fn sort_units(units: Vec<SystemdUnit>) -> (sorted: Vec<SystemdUnit>)
    ensures
        records(sorted@) == in_catalog_order(records(units@)),
{
    let sorted = sorted_by_key(&units);
    assert(sort_keys(records(units@)) =~= crate::order::sort_keys(units@));
    assert(records(units@) =~= views(units@));
    assert(records(sorted@) =~= views(sorted@));
    sorted
}

/// Along a catalog in order no name comes before an earlier one, case set
/// aside, and the catalog holds the units it was made from, each once.
pub proof fn lemma_catalog_order(units: Seq<UnitRecord>)
    ensures
        in_catalog_order(units).len() == units.len(),
        is_arrangement(sort_order(sort_keys(units)), units.len()),
        forall|i: int, j: int|
            0 <= i < j < units.len() ==> !precedes(
                lowercase((#[trigger] in_catalog_order(units)[j]).name),
                lowercase((#[trigger] in_catalog_order(units)[i]).name),
            ),
{
    let keys = sort_keys(units);
    let order = sort_order(keys);
    lemma_sort_order(keys);
    assert forall|i: int, j: int| 0 <= i < j < units.len() implies !precedes(
        lowercase((#[trigger] in_catalog_order(units)[j]).name),
        lowercase((#[trigger] in_catalog_order(units)[i]).name),
    ) by {
        assert(!precedes(keys[order[j]], keys[order[i]]));
    }
}

/// Putting a catalog in order a second time changes nothing.
pub proof fn lemma_catalog_order_idempotent(units: Seq<UnitRecord>)
    ensures
        in_catalog_order(in_catalog_order(units)) == in_catalog_order(units),
{
    let keys = sort_keys(units);
    let once = in_catalog_order(units);
    lemma_sort_order(keys);
    lemma_sort_idempotent(keys);
    assert(sort_keys(once) =~= arrange(keys, sort_order(keys)));
    assert(in_catalog_order(once) =~= once);
}

/// Builds the catalog from the printed form of the manager's list of unit
/// files, for the instance `scope`. Each entry gives one unit: its name is
/// the last component of its path and its kind the one that the suffix of
/// the name tells. The catalog comes out in catalog order.
pub fn list_unit_files(reply: &str, scope: Kind) -> (catalog: Result<
    Vec<SystemdUnit>,
    ParseFailure,
>)
    ensures
        match catalog {
            Ok(units) => catalog_of(reply@, scope) == Ok::<Seq<UnitRecord>, ParseFailure>(
                records(units@),
            ),
            Err(e) => catalog_of(reply@, scope) == Err::<Seq<UnitRecord>, ParseFailure>(e),
        },
{
    let files = match parse_message(reply) {
        Ok(files) => files,
        Err(e) => {
            return Err(e);
        },
    };
    let ghost entries = file_views(files@);
    let mut units: Vec<SystemdUnit> = Vec::new();
    let mut i: usize = 0;
    while i < files.len()
        invariant
            entries == file_views(files@),
            parse_reply(reply@) == Ok::<Seq<UnitFileView>, ParseFailure>(entries),
            i <= files@.len(),
            units@.len() == i,
            forall|k: int| 0 <= k < i ==> unit_type_of((#[trigger] entries[k]).path) is Some,
            forall|k: int| 0 <= k < i ==> (#[trigger] units@[k])@ == record_of(entries[k], scope),
        decreases files@.len() - i,
    {
        let file = &files[i];
        assert(entries[i as int] == file@);
        let chars = to_chars(file.path.as_str());
        let all = whole(chars.as_slice());
        let utype = match UnitType::at(chars.as_slice(), all) {
            Ok(t) => t,
            Err(e) => {
                assert(!all_typed(entries));
                return Err(e);
            },
        };
        let name = match file_name_span(chars.as_slice(), all) {
            Some(span) => span,
            None => {
                // a path without a file name has no suffix
                assert(false);
                return Err(ParseFailure::UnrecognizedExtension);
            },
        };
        units.push(
            SystemdUnit {
                name: string_of(file.path.as_str(), name),
                path: file.path.clone(),
                state: file.state,
                utype,
                bustype: scope,
            },
        );
        i += 1;
    }
    assert(all_typed(entries));
    assert(records(units@) =~= Seq::new(entries.len(), |k: int| record_of(entries[k], scope)));
    Ok(sort_units(units))
}


/// The state of the first of `units`, from `from` on, whose file is at
/// `path`.
pub open spec fn state_at_path(units: Seq<UnitRecord>, path: Seq<char>, from: int) -> Option<
    UnitState,
>
    decreases units.len() - from,
{
    if from < 0 || from >= units.len() {
        None
    } else if units[from].path == path {
        Some(units[from].state)
    } else {
        state_at_path(units, path, from + 1)
    }
}

/// What a unit holds once it is in the state `state`.
pub open spec fn in_state(unit: UnitRecord, state: UnitState) -> UnitRecord {
    UnitRecord {
        name: unit.name,
        path: unit.path,
        state,
        utype: unit.utype,
        bustype: unit.bustype,
    }
}

impl SystemdUnit {
    /// Tells whether `catalog`, a fresh listing, holds the unit's file as
    /// enabled: the first unit of the listing with the same path decides,
    /// and a file that the listing does not hold is not enabled.
    pub fn is_enabled(&self, catalog: &[SystemdUnit]) -> (enabled: bool)
        ensures
            enabled == (state_at_path(records(catalog@), self.path@, 0) == Some(
                UnitState::Enabled,
            )),
    {
        let ghost all = records(catalog@);
        let mut i: usize = 0;
        while i < catalog.len()
            invariant
                all == records(catalog@),
                i <= catalog@.len(),
                state_at_path(all, self.path@, 0) == state_at_path(all, self.path@, i as int),
            decreases catalog@.len() - i,
        {
            assert(all[i as int] == catalog@[i as int]@);
            if same_text(catalog[i].path.as_str(), self.path.as_str()) {
                return catalog[i].state == UnitState::Enabled;
            }
            i += 1;
        }
        false
    }

    /// The method call that enables the unit.
    pub fn enable(&self) -> (call: MethodCall)
        ensures
            call@ == enable_call(self.bustype, self.name@),
    {
        enable(self.bustype, self.name.as_str())
    }

    /// The method call that disables the unit.
    pub fn disable(&self) -> (call: MethodCall)
        ensures
            call@ == disable_call(self.bustype, self.name@),
    {
        disable(self.bustype, self.name.as_str())
    }

    /// The method call that starts the unit.
    pub fn start(&self) -> (call: MethodCall)
        ensures
            call@ == start_call(self.bustype, self.name@),
    {
        start(self.bustype, self.name.as_str())
    }

    /// The method call that stops the unit.
    pub fn stop(&self) -> (call: MethodCall)
        ensures
            call@ == stop_call(self.bustype, self.name@),
    {
        stop(self.bustype, self.name.as_str())
    }

    /// Takes note of how the call that enables the unit ended: `reply` is
    /// the printed answer of the manager, or why the call failed. After an
    /// answer the unit is enabled, and the result tells whether it was so
    /// already. After a failure the unit is left as it was and the failure
    /// is handed on.
    pub fn enabled(&mut self, reply: Result<&str, String>) -> (was_already: Result<bool, String>)
        ensures
            match reply {
                Ok(text) => {
                    &&& was_already == Ok::<bool, String>(
                        text@ == "[Bool(true), Array([], \"(sss)\")]"@,
                    )
                    &&& final(self)@ == in_state(old(self)@, UnitState::Enabled)
                },
                Err(why) => was_already == Err::<bool, String>(why) && final(self)@ == old(self)@,
            },
    {
        match reply {
            Ok(text) => {
                self.state = UnitState::Enabled;
                Ok(is_enabled(text))
            },
            Err(why) => Err(why),
        }
    }

    /// Takes note of how the call that disables the unit ended: `reply` is
    /// the printed answer of the manager, or why the call failed. After an
    /// answer the unit is disabled, and the result tells whether it was so
    /// already. After a failure the unit is left as it was and the failure
    /// is handed on.
    pub fn disabled(&mut self, reply: Result<&str, String>) -> (was_already: Result<bool, String>)
        ensures
            match reply {
                Ok(text) => {
                    &&& was_already == Ok::<bool, String>(text@ == "[Array([], \"(sss)\")]"@)
                    &&& final(self)@ == in_state(old(self)@, UnitState::Disabled)
                },
                Err(why) => was_already == Err::<bool, String>(why) && final(self)@ == old(self)@,
            },
    {
        match reply {
            Ok(text) => {
                self.state = UnitState::Disabled;
                Ok(is_disabled(text))
            },
            Err(why) => Err(why),
        }
    }
}

} // verus!
