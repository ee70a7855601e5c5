//! Units as the command-line tool of the manager lists them: a name, an
//! enablement status, and whether the unit runs.

use crate::classify::ParseFailure;
use crate::order::{
    arrange, lemma_sort_idempotent, lemma_sort_order, sort_keys, sort_order, sorted_by_key,
    views, Keyed,
};
use crate::control::{
    disable, disable_call, enable, enable_call, start, start_call, stop, stop_call, DbusError,
    MethodCall,
};
use crate::scope::{Kind, Location};
use crate::text::{
    all_fit, line_spans, lines, lowercase, pieces, precedes, same_text, span_is, string_of,
    to_chars, to_lowercase, whole, word_spans, words, Span,
};
use vstd::prelude::*;

verus! {

/// Whether a unit is started when the system or the session comes up.
#[derive(Debug, Copy, Clone, PartialEq, Eq, Structural)]
pub enum UnitStatus {
    Enabled,
    Disabled,
    Masked,
}

/// Why a line of the listing gives no unit.
#[derive(Debug, Copy, Clone, PartialEq, Eq, Structural)]
pub enum UnitError {
    /// The second word of the line names no status.
    InvalidStatus,
    /// The line has fewer than two words.
    MissingInformation,
}

/// A unit: its name, whether it runs, and its enablement status.
#[derive(Debug)]
pub struct Unit {
    pub name: String,
    pub active: bool,
    pub status: UnitStatus,
}

/// What a unit holds.
pub struct UnitView {
    pub name: Seq<char>,
    pub active: bool,
    pub status: UnitStatus,
}

impl View for Unit {
    type V = UnitView;

    open spec fn view(&self) -> UnitView {
        UnitView { name: self.name@, active: self.active, status: self.status }
    }
}

/// What the units of `units` hold, in order.
pub open spec fn unit_views(units: Seq<Unit>) -> Seq<UnitView> {
    Seq::new(units.len(), |i: int| units[i]@)
}

/// The status that a word of the listing names.
pub open spec fn status_of_word(word: Seq<char>) -> Option<UnitStatus> {
    if word == "enabled"@ {
        Some(UnitStatus::Enabled)
    } else if word == "disabled"@ {
        Some(UnitStatus::Disabled)
    } else if word == "masked"@ {
        Some(UnitStatus::Masked)
    } else {
        None
    }
}

/// The unit that a line of the listing gives: its first word is the name,
/// its second the status. A unit that was just listed counts as not running.
pub open spec fn parse_unit(line: Seq<char>) -> Result<UnitView, UnitError> {
    let fields = words(line);
    if fields.len() < 2 {
        Err(UnitError::MissingInformation)
    } else {
        match status_of_word(fields[1]) {
            Some(status) => Ok(UnitView { name: fields[0], active: false, status }),
            None => Err(UnitError::InvalidStatus),
        }
    }
}

/// The end of the block of lines that starts at `from`: the position of the
/// first empty line at or behind `from`, or the number of lines.
pub open spec fn block_end(all: Seq<Seq<char>>, from: int) -> int
    decreases all.len() - from,
{
    if from < 0 || from >= all.len() || all[from].len() == 0 {
        from
    } else {
        block_end(all, from + 1)
    }
}

/// The units that `rows` give, in order; a row that gives none is passed
/// over.
pub open spec fn units_of_rows(rows: Seq<Seq<char>>) -> Seq<UnitView>
    decreases rows.len(),
{
    if rows.len() == 0 {
        Seq::empty()
    } else {
        let before = units_of_rows(rows.drop_last());
        match parse_unit(rows.last()) {
            Ok(unit) => before.push(unit),
            Err(_) => before,
        }
    }
}

/// The rows of a listing: the lines behind the heading, up to the first
/// empty line.
pub open spec fn listing_rows(output: Seq<char>) -> Seq<Seq<char>> {
    let all = lines(output);
    if all.len() == 0 {
        Seq::empty()
    } else {
        all.subrange(1, block_end(all, 1))
    }
}

/// The units that a listing of unit files gives, in the order of its rows.
pub open spec fn parse_listing(output: Seq<char>) -> Seq<UnitView> {
    units_of_rows(listing_rows(output))
}

impl Unit {
    /// A unit that holds what this one holds.
    pub fn duplicate(&self) -> (copy: Unit)
        ensures
            copy@ == self@,
    {
        Unit { name: self.name.clone(), active: self.active, status: self.status }
    }

    /// The unit that the part `row` of `text` gives; `chars` holds the
    /// characters of `text`.
    pub fn at(text: &str, chars: &[char], row: Span) -> (unit: Result<Unit, UnitError>)
        requires
            chars@ == text@,
            row.fits(chars@.len()),
        ensures
            match unit {
                Ok(u) => parse_unit(row.of(chars@)) == Ok::<UnitView, UnitError>(u@),
                Err(e) => parse_unit(row.of(chars@)) == Err::<UnitView, UnitError>(e),
            },
    {
        let fields = word_spans(chars, row);
        if fields.len() < 2 {
            return Err(UnitError::MissingInformation);
        }
        let name = fields[0];
        let word = fields[1];
        assert(name.fits(chars@.len()) && word.fits(chars@.len()));
        assert(words(row.of(chars@))[0] == name.of(chars@));
        assert(words(row.of(chars@))[1] == word.of(chars@));
        let status = if span_is(chars, word, "enabled") {
            UnitStatus::Enabled
        } else if span_is(chars, word, "disabled") {
            UnitStatus::Disabled
        } else if span_is(chars, word, "masked") {
            UnitStatus::Masked
        } else {
            return Err(UnitError::InvalidStatus);
        };
        Ok(Unit { name: string_of(text, name), active: false, status })
    }

    /// Reads one row of a listing of unit files: the first word is the
    /// unit's name, the second its status, which must be `enabled`,
    /// `disabled` or `masked`.
    pub fn from_str(data: &str) -> (unit: Result<Unit, UnitError>)
        ensures
            match unit {
                Ok(u) => parse_unit(data@) == Ok::<UnitView, UnitError>(u@),
                Err(e) => parse_unit(data@) == Err::<UnitView, UnitError>(e),
            },
    {
        let chars = to_chars(data);
        let all = whole(chars.as_slice());
        Unit::at(data, chars.as_slice(), all)
    }
}

impl std::str::FromStr for Unit {
    type Err = UnitError;

    /// Reads one row of a listing of unit files, as parsing a string as a
    /// unit does: the first word is the unit's name, the second its status.
    /// A row of fewer than two words gives `MissingInformation`, a second
    /// word that names no status `InvalidStatus`.
    fn from_str(data: &str) -> (unit: Result<Unit, UnitError>)
        ensures
            match unit {
                Ok(u) => parse_unit(data@) == Ok::<UnitView, UnitError>(u@),
                Err(e) => parse_unit(data@) == Err::<UnitView, UnitError>(e),
            },
    {
        Unit::from_str(data)
    }
}

/// Reads a listing of unit files: a heading line, then one row for each
/// unit up to the first empty line. Rows that give no unit are passed over.
/// The units come out in the order of their rows, none of them running.
pub fn read_listing(output: &str) -> (units: Vec<Unit>)
    ensures
        unit_views(units@) == parse_listing(output@),
{
    let chars = to_chars(output);
    let rows = line_spans(chars.as_slice());
    let ghost all = lines(output@);
    let mut units: Vec<Unit> = Vec::new();
    if rows.len() == 0 {
        assert(unit_views(units@) =~= Seq::empty());
        return units;
    }
    let mut i: usize = 1;
    assert(all.subrange(1, 1) =~= Seq::empty());
    assert(unit_views(units@) =~= Seq::empty());
    while i < rows.len() && rows[i].end > rows[i].start
        invariant
            chars@ == output@,
            all == lines(output@),
            all_fit(rows@, chars@.len()),
            pieces(chars@, rows@) == all,
            1 <= i <= rows@.len(),
            block_end(all, 1) == block_end(all, i as int),
            unit_views(units@) == units_of_rows(all.subrange(1, i as int)),
        decreases rows@.len() - i,
    {
        let ghost before = unit_views(units@);
        let row = rows[i];
        assert(row.fits(chars@.len()));
        assert(all[i as int] == row.of(chars@));
        assert(all.subrange(1, i + 1).drop_last() =~= all.subrange(1, i as int));
        assert(all.subrange(1, i + 1).last() == all[i as int]);
        match Unit::at(output, chars.as_slice(), row) {
            Ok(unit) => {
                units.push(unit);
                assert(unit_views(units@) =~= before.push(units@.last()@));
            },
            Err(_) => {},
        }
        i += 1;
    }
    proof {
        if i < rows.len() {
            assert(rows@[i as int].fits(chars@.len()));
            assert(all[i as int] == rows@[i as int].of(chars@));
        }
        assert(block_end(all, i as int) == i);
    }
    units
}


/// What a unit holds once its enablement was toggled: it is disabled if it
/// was enabled, and enabled if it was not.
pub open spec fn toggled_enablement(unit: UnitView, is_enabled: bool) -> UnitView {
    UnitView {
        name: unit.name,
        active: unit.active,
        status: if is_enabled {
            UnitStatus::Disabled
        } else {
            UnitStatus::Enabled
        },
    }
}

/// What a unit holds once it was started or stopped: it runs if it did not,
/// and does not if it did.
pub open spec fn toggled_activeness(unit: UnitView, is_active: bool) -> UnitView {
    UnitView { name: unit.name, active: !is_active, status: unit.status }
}

impl Unit {
    /// The method call that toggles the enablement of the unit: the one that
    /// disables it where it is enabled, the one that enables it where it is
    /// not. Only the manager of this machine can be reached: for a unit of
    /// another machine no call is made, and the failure says so.
    pub fn enablement_call(&self, kind: Kind, location: &Location, is_enabled: bool) -> (call:
        Result<MethodCall, Failure>)
        ensures
            match call {
                Ok(c) => location is Localhost && c@ == if is_enabled {
                    disable_call(kind, self.name@)
                } else {
                    enable_call(kind, self.name@)
                },
                Err(e) => location is External && e == Failure::Remote,
            },
    {
        if !location.is_localhost() {
            return Err(Failure::Remote);
        }
        if is_enabled {
            Ok(disable(kind, self.name.as_str()))
        } else {
            Ok(enable(kind, self.name.as_str()))
        }
    }

    /// Takes note of how the call that toggles the enablement ended. After a
    /// call that went well the unit is disabled if it was enabled and
    /// enabled if it was not; whether it runs is left as it was. After a
    /// call that failed the unit is left as it was and the failure is handed
    /// on.
    pub fn toggle_enablement(&mut self, is_enabled: bool, outcome: Result<(), DbusError>) -> (r:
        Result<(), DbusError>)
        ensures
            r is Ok <==> outcome is Ok,
            r is Err ==> r == outcome,
            final(self)@ == if outcome is Ok {
                toggled_enablement(old(self)@, is_enabled)
            } else {
                old(self)@
            },
    {
        match outcome {
            Ok(()) => {
                if is_enabled {
                    self.status = UnitStatus::Disabled;
                } else {
                    self.status = UnitStatus::Enabled;
                }
                Ok(())
            },
            Err(why) => Err(why),
        }
    }

    /// The method call that toggles whether the unit runs: the one that
    /// stops it where it runs, the one that starts it where it does not.
    /// Only the manager of this machine can be reached: for a unit of
    /// another machine no call is made, and the failure says so.
    pub fn activeness_call(&self, kind: Kind, location: &Location, is_active: bool) -> (call:
        Result<MethodCall, Failure>)
        ensures
            match call {
                Ok(c) => location is Localhost && c@ == if is_active {
                    stop_call(kind, self.name@)
                } else {
                    start_call(kind, self.name@)
                },
                Err(e) => location is External && e == Failure::Remote,
            },
    {
        if !location.is_localhost() {
            return Err(Failure::Remote);
        }
        if is_active {
            Ok(stop(kind, self.name.as_str()))
        } else {
            Ok(start(kind, self.name.as_str()))
        }
    }

    /// Takes note of how the call that starts or stops the unit ended. After
    /// a call that went well the unit runs if it did not and does not if it
    /// did; its enablement is left as it was. After a call that failed the
    /// unit is left as it was and the failure is handed on.
    pub fn toggle_activeness(&mut self, is_active: bool, outcome: Result<(), DbusError>) -> (r:
        Result<(), DbusError>)
        ensures
            r is Ok <==> outcome is Ok,
            r is Err ==> r == outcome,
            final(self)@ == if outcome is Ok {
                toggled_activeness(old(self)@, is_active)
            } else {
                old(self)@
            },
    {
        match outcome {
            Ok(()) => {
                self.active = !is_active;
                Ok(())
            },
            Err(why) => Err(why),
        }
    }
}

/// What the lines of an answer to the question which units run say, one
/// flag for each line: a line says that its unit runs if it begins with `a`.
pub open spec fn active_flags(answer: Seq<char>) -> Seq<bool> {
    let rows = lines(answer);
    Seq::new(rows.len(), |i: int| rows[i].len() > 0 && rows[i][0] == 'a')
}

/// `units` with the flags laid on them place by place: the unit at place
/// `i` runs as flag `i` says.
pub open spec fn with_flags(units: Seq<UnitView>, flags: Seq<bool>) -> Seq<UnitView> {
    Seq::new(
        units.len(),
        |i: int| UnitView { name: units[i].name, active: flags[i], status: units[i].status },
    )
}

/// The names of `units`, in order.
pub open spec fn names_of(units: Seq<UnitView>) -> Seq<Seq<char>> {
    Seq::new(units.len(), |i: int| units[i].name)
}

/// The keys by which units are put in order: their names in lower case.
pub open spec fn name_keys(units: Seq<UnitView>) -> Seq<Seq<char>> {
    Seq::new(units.len(), |i: int| lowercase(units[i].name))
}

/// `units` in the order of their names, case set aside; units whose names
/// fold to the same text stay as they stood.
pub open spec fn in_name_order(units: Seq<UnitView>) -> Seq<UnitView> {
    arrange(units, sort_order(name_keys(units)))
}

/// No name in `units` comes before an earlier one, case set aside.
pub open spec fn names_rise(units: Seq<UnitView>) -> bool {
    forall|i: int, j: int|
        0 <= i < j < units.len() ==> !precedes(
            lowercase((#[trigger] units[j]).name),
            lowercase((#[trigger] units[i]).name),
        )
}

/// The units that a listing and the answer to the question which of its
/// units run give together. The answer holds one line for each unit that
/// was asked about, in the order of the question: line `i` is laid on unit
/// `i` as listed, and lines behind the last unit are passed over. An answer
/// with fewer lines than units is laid on no unit at all. Only then are the
/// units put in the order of their names.
pub open spec fn units_of(listed: Seq<UnitView>, answer: Seq<char>) -> Result<
    Seq<UnitView>,
    ParseFailure,
> {
    let flags = active_flags(answer);
    if flags.len() < listed.len() {
        Err(ParseFailure::ShortAnswer)
    } else {
        Ok(in_name_order(with_flags(listed, flags)))
    }
}

/// Along units in name order no name comes before an earlier one, case set
/// aside, and none of the units is lost.
pub proof fn lemma_name_order(units: Seq<UnitView>)
    ensures
        in_name_order(units).len() == units.len(),
        names_rise(in_name_order(units)),
{
    let keys = name_keys(units);
    let order = sort_order(keys);
    lemma_sort_order(keys);
    assert forall|i: int, j: int| 0 <= i < j < units.len() implies !precedes(
        lowercase((#[trigger] in_name_order(units)[j]).name),
        lowercase((#[trigger] in_name_order(units)[i]).name),
    ) by {
        assert(!precedes(keys[order[j]], keys[order[i]]));
    }
}

/// Putting units in name order a second time changes nothing.
pub proof fn lemma_name_order_idempotent(units: Seq<UnitView>)
    ensures
        in_name_order(in_name_order(units)) == in_name_order(units),
{
    let keys = name_keys(units);
    let once = in_name_order(units);
    lemma_sort_order(keys);
    lemma_sort_idempotent(keys);
    assert(name_keys(once) =~= arrange(keys, sort_order(keys)));
    assert(in_name_order(once) =~= once);
}

/// The names of `units`, in order: the operands of the question which of
/// them run.
pub fn unit_names(units: &Vec<Unit>) -> (names: Vec<String>)
    ensures
        Seq::new(names@.len(), |i: int| names@[i]@) == names_of(unit_views(units@)),
{
    let mut names: Vec<String> = Vec::new();
    let mut i: usize = 0;
    while i < units.len()
        invariant
            i <= units@.len(),
            names@.len() == i,
            forall|k: int| 0 <= k < i ==> (#[trigger] names@[k])@ == units@[k].name@,
        decreases units@.len() - i,
    {
        names.push(units[i].name.clone());
        i += 1;
    }
    assert(Seq::new(names@.len(), |i: int| names@[i]@) =~= names_of(unit_views(units@)));
    names
}

/// Why a unit of a registry could not be changed.
#[derive(Debug)]
pub enum Failure {
    /// The registry holds no unit at that place or of that name.
    NotFound,
    /// The call to the manager failed.
    Transport(DbusError),
    /// The unit belongs to the manager of another machine, which cannot be
    /// reached.
    Remote,
}

/// The units of one instance of the manager, in the order of their names.
#[derive(Debug)]
pub struct Units {
    units: Vec<Unit>,
}

impl View for Units {
    type V = Seq<UnitView>;

    closed spec fn view(&self) -> Seq<UnitView> {
        unit_views(self.units@)
    }
}

impl Units {
    /// The units stand in the order of their names. This holds of every
    /// registry at all times.
    #[verifier::type_invariant]
    pub open spec fn wf(&self) -> bool {
        names_rise(self@)
    }


    /// Makes the registry of the units that were listed, from the answer to
    /// the question which of them run. That question names the units in the
    /// order in which they were listed, and its answer holds one line for
    /// each in the same order: line `i` is laid on unit `i` as listed,
    /// whatever the names are. Only then are the units put in the order of
    /// their names, case set aside. An answer with fewer lines than units
    /// were listed is refused, and is laid on none of them.
    pub fn new(listed: Vec<Unit>, answer: &str) -> (made: Result<Units, ParseFailure>)
        ensures
            match made {
                Ok(units) => units_of(unit_views(listed@), answer@) == Ok::<
                    Seq<UnitView>,
                    ParseFailure,
                >(units@) && units.wf(),
                Err(e) => units_of(unit_views(listed@), answer@) == Err::<
                    Seq<UnitView>,
                    ParseFailure,
                >(e),
            },
    {
        let chars = to_chars(answer);
        let rows = line_spans(chars.as_slice());
        let ghost flags = active_flags(answer@);
        let ghost before = unit_views(listed@);
        if rows.len() < listed.len() {
            return Err(ParseFailure::ShortAnswer);
        }
        let mut flagged: Vec<Unit> = Vec::new();
        let mut i: usize = 0;
        while i < listed.len()
            invariant
                chars@ == answer@,
                all_fit(rows@, chars@.len()),
                pieces(chars@, rows@) == lines(answer@),
                flags == active_flags(answer@),
                before == unit_views(listed@),
                rows@.len() >= listed@.len(),
                i <= listed@.len(),
                flagged@.len() == i,
                forall|k: int| 0 <= k < i ==> (#[trigger] flagged@[k])@ == with_flags(before, flags)[k],
            decreases listed@.len() - i,
        {
            let row = rows[i];
            assert(row.fits(chars@.len()));
            assert(lines(answer@)[i as int] == row.of(chars@));
            assert(row.start < row.end ==> row.of(chars@)[0] == chars@[row.start as int]);
            let active = row.start < row.end && chars[row.start] == 'a';
            flagged.push(Unit { name: listed[i].name.clone(), active, status: listed[i].status });
            i += 1;
        }
        assert(unit_views(flagged@) =~= with_flags(before, flags));
        let units = sort_by_name(flagged);
        proof {
            lemma_name_order(with_flags(before, flags));
        }
        Ok(Units { units })
    }

    /// The number of units.
    pub fn len(&self) -> (n: usize)
        ensures
            n == self@.len(),
            self.wf(),
    {
        proof {
            use_type_invariant(self);
        }
        self.units.len()
    }

    /// The unit at the place `index`.
    pub fn get(&self, index: usize) -> (unit: Option<&Unit>)
        ensures
            match unit {
                Some(u) => index < self@.len() && u@ == self@[index as int],
                None => index >= self@.len(),
            },
    {
        if index < self.units.len() {
            Some(&self.units[index])
        } else {
            None
        }
    }

    /// The place of the first unit of the name `name`.
    pub fn position(&self, name: &str) -> (place: Option<usize>)
        ensures
            match place {
                Some(i) => {
                    &&& i < self@.len()
                    &&& self@[i as int].name == name@
                    &&& forall|k: int| 0 <= k < i ==> (#[trigger] self@[k]).name != name@
                },
                None => forall|k: int| 0 <= k < self@.len() ==> (#[trigger] self@[k]).name != name@,
            },
    {
        let mut i: usize = 0;
        while i < self.units.len()
            invariant
                i <= self.units@.len(),
                forall|k: int| 0 <= k < i ==> (#[trigger] self@[k]).name != name@,
            decreases self.units@.len() - i,
        {
            if same_text(self.units[i].name.as_str(), name) {
                return Some(i);
            }
            i += 1;
        }
        None
    }

    /// Puts `unit` in the place of the unit at `index`, which has the same
    /// name.
    fn put(&mut self, index: usize, unit: Unit)
        requires
            index < old(self)@.len(),
            unit@.name == old(self)@[index as int].name,
        ensures
            final(self)@ == old(self)@.update(index as int, unit@),
            final(self).wf(),
    {
        proof {
            use_type_invariant(&*self);
            assert(names_rise(unit_views(Seq::<Unit>::empty())));
            let before = unit_views(self.units@);
            let after = unit_views(self.units@.update(index as int, unit));
            assert(after =~= before.update(index as int, unit@));
            assert forall|i: int, j: int| 0 <= i < j < after.len() implies !precedes(
                lowercase((#[trigger] after[j]).name),
                lowercase((#[trigger] after[i]).name),
            ) by {
                assert(after[i].name == before[i].name);
                assert(after[j].name == before[j].name);
            }
        }
        let mut taken = Units { units: Vec::new() };
        core::mem::swap(self, &mut taken);
        let mut list = taken.units;
        list.set(index, unit);
        *self = Units { units: list };
    }

    /// Takes note of how the call that toggles the enablement of the unit
    /// at the place `index` ended. Only that unit changes, and only after a
    /// call that went well.
    pub fn toggle_enablement(
        &mut self,
        index: usize,
        is_enabled: bool,
        outcome: Result<(), DbusError>,
    ) -> (r: Result<(), Failure>)
        ensures
            final(self).wf(),
            r == match outcome {
                Ok(()) => if index < old(self)@.len() {
                    Ok::<(), Failure>(())
                } else {
                    Err(Failure::NotFound)
                },
                Err(why) => Err(Failure::Transport(why)),
            },
            final(self)@ == if outcome is Ok && index < old(self)@.len() {
                old(self)@.update(
                    index as int,
                    toggled_enablement(old(self)@[index as int], is_enabled),
                )
            } else {
                old(self)@
            },
    {
        match outcome {
            Err(why) => {
                proof {
                    use_type_invariant(&*self);
                }
                Err(Failure::Transport(why))
            },
            Ok(()) => {
                if index >= self.units.len() {
                    proof {
                        use_type_invariant(&*self);
                    }
                    return Err(Failure::NotFound);
                }
                let mut unit = self.units[index].duplicate();
                let _ = unit.toggle_enablement(is_enabled, Ok(()));
                self.put(index, unit);
                Ok(())
            },
        }
    }

    /// Takes note of how the call that starts or stops the unit at the
    /// place `index` ended. Only that unit changes, and only after a call
    /// that went well.
    pub fn toggle_activeness(
        &mut self,
        index: usize,
        is_active: bool,
        outcome: Result<(), DbusError>,
    ) -> (r: Result<(), Failure>)
        ensures
            final(self).wf(),
            r == match outcome {
                Ok(()) => if index < old(self)@.len() {
                    Ok::<(), Failure>(())
                } else {
                    Err(Failure::NotFound)
                },
                Err(why) => Err(Failure::Transport(why)),
            },
            final(self)@ == if outcome is Ok && index < old(self)@.len() {
                old(self)@.update(
                    index as int,
                    toggled_activeness(old(self)@[index as int], is_active),
                )
            } else {
                old(self)@
            },
    {
        match outcome {
            Err(why) => {
                proof {
                    use_type_invariant(&*self);
                }
                Err(Failure::Transport(why))
            },
            Ok(()) => {
                if index >= self.units.len() {
                    proof {
                        use_type_invariant(&*self);
                    }
                    return Err(Failure::NotFound);
                }
                let mut unit = self.units[index].duplicate();
                let _ = unit.toggle_activeness(is_active, Ok(()));
                self.put(index, unit);
                Ok(())
            },
        }
    }
}

impl Keyed for Unit {
    open spec fn sort_key(&self) -> Seq<char> {
        lowercase(self.name@)
    }

    fn sort_key_chars(&self) -> (key: Vec<char>) {
        let lower = to_lowercase(self.name.as_str());
        to_chars(lower.as_str())
    }

    fn replica(&self) -> (copy: Unit) {
        self.duplicate()
    }
}

/// Puts `units` in the order of their names, case set aside; units whose
/// names fold to the same text stay as they stood.
pub fn sort_by_name(units: Vec<Unit>) -> (sorted: Vec<Unit>)
    ensures
        unit_views(sorted@) == in_name_order(unit_views(units@)),
{
    let sorted = sorted_by_key(&units);
    assert(name_keys(unit_views(units@)) =~= sort_keys(units@));
    assert(unit_views(units@) =~= views(units@));
    assert(unit_views(sorted@) =~= views(sorted@));
    sorted
}

} // verus!
