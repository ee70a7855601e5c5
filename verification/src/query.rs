//! Reading of what the tools of the manager print about one unit: its
//! status, its description, its file, what it depends on, its properties
//! and its journal.

use crate::order::{arrange, sort_keys, sort_order, sorted_by_key, views, Keyed};
use crate::text::{
    all_fit, find_match, lemma_split_at_first, lemma_split_single, line_spans,
    lines, pieces, span_starts_with, split, starts_with, string_of, to_chars,
    trim, trim_span, whole, Delimiter, Span,
};
use vstd::prelude::*;

verus! {

/// The line of a status report that tells whether the unit runs.
pub const ACTIVE_LINE: usize = 2;

/// The number of characters that stand before the word `active` or
/// `inactive` in that line, once the white space around the line is set
/// aside.
pub const ACTIVE_COLUMN: usize = 8;

/// The number of characters by which the lines of a list of dependencies
/// are indented.
pub const DEPENDENCY_INDENT: usize = 4;

/// Whether a status report says that the unit runs: its third line, white
/// space at both ends set aside, holds an `a` behind its first eight
/// characters. A report without such a line says that the unit does not run.
pub open spec fn reports_active(status: Seq<char>) -> bool {
    let rows = lines(status);
    rows.len() > ACTIVE_LINE && {
        let row = trim(rows[ACTIVE_LINE as int]);
        row.len() > ACTIVE_COLUMN && row[ACTIVE_COLUMN as int] == 'a'
    }
}

/// Reads a status report and tells whether it says that the unit runs.
pub fn parse_state(status: &str) -> (active: bool)
    ensures
        active == reports_active(status@),
{
    let chars = to_chars(status);
    let rows = line_spans(chars.as_slice());
    if rows.len() <= ACTIVE_LINE {
        return false;
    }
    let row = rows[ACTIVE_LINE];
    assert(row.fits(chars@.len()));
    assert(lines(status@)[ACTIVE_LINE as int] == row.of(chars@));
    let inner = trim_span(chars.as_slice(), row);
    if inner.end - inner.start <= ACTIVE_COLUMN {
        return false;
    }
    assert(inner.of(chars@)[ACTIVE_COLUMN as int] == chars@[inner.start + ACTIVE_COLUMN]);
    chars[inner.start + ACTIVE_COLUMN] == 'a'
}

/// Tells whether a unit runs, from what the tool that reports its status
/// printed; `None` stands for a tool that could not be run or printed no
/// text, and then the unit is taken not to run.
pub fn is_active(status: Option<&str>) -> (active: bool)
    ensures
        active == match status {
            Some(text) => reports_active(text@),
            None => false,
        },
{
    match status {
        Some(text) => parse_state(text),
        None => false,
    }
}

/// The place of the first of `rows`, from `from` on, that begins with
/// `prefix`.
pub open spec fn find_row(rows: Seq<Seq<char>>, prefix: Seq<char>, from: int) -> Option<int>
    decreases rows.len() - from,
{
    if from < 0 || from >= rows.len() {
        None
    } else if starts_with(rows[from], prefix) {
        Some(from)
    } else {
        find_row(rows, prefix, from + 1)
    }
}

/// The description that a unit file gives: what follows `Description=` in
/// the first line that begins so.
pub open spec fn description_of(info: Seq<char>) -> Option<Seq<char>> {
    let rows = lines(info);
    match find_row(rows, "Description="@, 0) {
        Some(k) => Some(rows[k].skip("Description="@.len() as int)),
        None => None,
    }
}

/// Obtains the description from the text of a unit file.
pub fn get_unit_description(info: &str) -> (description: Option<&str>)
    ensures
        match description {
            Some(text) => description_of(info@) == Some(text@),
            None => description_of(info@) is None,
        },
{
    let chars = to_chars(info);
    let prefix = to_chars("Description=");
    let rows = line_spans(chars.as_slice());
    let ghost all = lines(info@);
    let mut i: usize = 0;
    while i < rows.len()
        invariant
            chars@ == info@,
            prefix@ == "Description="@,
            all == lines(info@),
            all_fit(rows@, chars@.len()),
            pieces(chars@, rows@) == all,
            i <= rows@.len(),
            find_row(all, prefix@, 0) == find_row(all, prefix@, i as int),
        decreases rows@.len() - i,
    {
        let row = rows[i];
        assert(row.fits(chars@.len()));
        assert(all[i as int] == row.of(chars@));
        if span_starts_with(chars.as_slice(), row, prefix.as_slice()) {
            let from: usize = row.start + prefix.len();
            assert(chars@.subrange(from as int, row.end as int) =~= row.of(chars@).skip(
                prefix@.len() as int,
            ));
            return Some(info.substring_char(from, row.end));
        }
        i += 1;
    }
    None
}

/// A line of a list of dependencies without its indent.
pub open spec fn without_indent(row: Seq<char>) -> Seq<char> {
    if row.len() <= DEPENDENCY_INDENT {
        Seq::empty()
    } else {
        row.skip(DEPENDENCY_INDENT as int)
    }
}

/// The rows without their indent, each followed by a line feed.
pub open spec fn dependency_text(rows: Seq<Seq<char>>) -> Seq<char>
    decreases rows.len(),
{
    if rows.len() == 0 {
        Seq::empty()
    } else {
        dependency_text(rows.drop_last()) + without_indent(rows.last()).push('\n')
    }
}

/// What is shown as the dependencies of the unit `name`: the lines that the
/// tool printed behind its first, without their indent; or the name of the
/// unit alone, where the tool gave nothing.
pub open spec fn dependencies_of(name: Seq<char>, output: Option<Seq<char>>) -> Seq<char> {
    match output {
        Some(text) => {
            let rows = lines(text);
            if rows.len() == 0 {
                Seq::empty()
            } else {
                dependency_text(rows.skip(1))
            }
        },
        None => name,
    }
}

/// Turns what the tool that lists dependencies printed for the unit `name`
/// into the text to show; `None` stands for a tool that could not be run
/// or printed no text.
pub fn list_dependencies(name: &str, output: Option<&str>) -> (shown: String)
    ensures
        shown@ == dependencies_of(
            name@,
            match output {
                Some(text) => Some(text@),
                None => None,
            },
        ),
{
    let text = match output {
        Some(text) => text,
        None => {
            return name.to_owned();
        },
    };
    let chars = to_chars(text);
    let rows = line_spans(chars.as_slice());
    let ghost all = lines(text@);
    let mut shown = String::new();
    if rows.len() == 0 {
        return shown;
    }
    let mut i: usize = 1;
    assert(all.skip(1).take(0) =~= Seq::empty());
    while i < rows.len()
        invariant
            chars@ == text@,
            all == lines(text@),
            all_fit(rows@, chars@.len()),
            pieces(chars@, rows@) == all,
            1 <= i <= rows@.len(),
            shown@ == dependency_text(all.skip(1).take(i - 1)),
        decreases rows@.len() - i,
    {
        let row = rows[i];
        let ghost before = shown@;
        assert(row.fits(chars@.len()));
        assert(all[i as int] == row.of(chars@));
        assert(all.skip(1).take(i as int).drop_last() =~= all.skip(1).take(i - 1));
        assert(all.skip(1).take(i as int).last() == all[i as int]);
        let from: usize = if row.end - row.start <= DEPENDENCY_INDENT {
            row.end
        } else {
            row.start + DEPENDENCY_INDENT
        };
        assert(chars@.subrange(from as int, row.end as int) =~= without_indent(row.of(chars@)));
        shown.append(text.substring_char(from, row.end));
        shown.append("\n");
        proof {
            reveal_strlit("\n");
            assert("\n"@ =~= seq!['\n']);
        }
        assert(shown@ =~= before + without_indent(row.of(chars@)).push('\n'));
        i += 1;
    }
    assert(all.skip(1).take(i - 1) =~= all.skip(1));
    shown
}

/// One property of a unit.
#[derive(Debug)]
pub struct Property {
    pub property: String,
    pub value: String,
}

/// What a property holds: its name and its value.
pub struct PropertyView {
    pub property: Seq<char>,
    pub value: Seq<char>,
}

impl View for Property {
    type V = PropertyView;

    open spec fn view(&self) -> PropertyView {
        PropertyView { property: self.property@, value: self.value@ }
    }
}

impl Keyed for Property {
    open spec fn sort_key(&self) -> Seq<char> {
        self.property@
    }

    fn sort_key_chars(&self) -> (key: Vec<char>) {
        to_chars(self.property.as_str())
    }

    fn replica(&self) -> (copy: Property) {
        Property { property: self.property.clone(), value: self.value.clone() }
    }
}

/// What the properties of `list` hold, in order.
pub open spec fn property_views(list: Seq<Property>) -> Seq<PropertyView> {
    Seq::new(list.len(), |i: int| list[i]@)
}

/// The property that a line gives: the name is what stands before the
/// first `=`, the value all that stands behind it. A line without `=`, or
/// with nothing behind it, gives none.
pub open spec fn property_of(row: Seq<char>) -> Option<PropertyView> {
    let fields = split(row, Delimiter::Char('='));
    if fields.len() >= 2 && row.len() > fields[0].len() + 1 {
        Some(PropertyView { property: fields[0], value: row.skip(fields[0].len() as int + 1) })
    } else {
        None
    }
}

/// The properties that `rows` give, in order.
pub open spec fn properties_of_rows(rows: Seq<Seq<char>>) -> Seq<PropertyView>
    decreases rows.len(),
{
    if rows.len() == 0 {
        Seq::empty()
    } else {
        let before = properties_of_rows(rows.drop_last());
        match property_of(rows.last()) {
            Some(p) => before.push(p),
            None => before,
        }
    }
}

/// The names of `list`, in order.
pub open spec fn property_names(list: Seq<PropertyView>) -> Seq<Seq<char>> {
    Seq::new(list.len(), |i: int| list[i].property)
}

/// The properties that the text `output` lists, in the order of their
/// names; properties of one name stay as they were listed.
pub open spec fn properties_of(output: Seq<char>) -> Seq<PropertyView> {
    let listed = properties_of_rows(lines(output));
    arrange(listed, sort_order(property_names(listed)))
}

/// The property that the part `row` of `text` gives; `chars` holds the
/// characters of `text`.
fn property_at(text: &str, chars: &[char], row: Span) -> (property: Option<Property>)
    requires
        chars@ == text@,
        row.fits(chars@.len()),
    ensures
        match property {
            Some(p) => property_of(row.of(chars@)) == Some(p@),
            None => property_of(row.of(chars@)) is None,
        },
{
    let equals = Delimiter::Char('=');
    match find_match(chars, row, equals) {
        Some(at) => {
            proof {
                lemma_split_at_first(row.of(chars@), equals, at - row.start);
                assert(row.of(chars@).take(at - row.start).len() == at - row.start);
            }
            if row.end - at <= 1 {
                return None;
            }
            let name = Span { start: row.start, end: at };
            let value = Span { start: at + 1, end: row.end };
            assert(name.of(chars@) =~= row.of(chars@).take(at - row.start));
            assert(value.of(chars@) =~= row.of(chars@).skip(at - row.start + 1));
            Some(Property { property: string_of(text, name), value: string_of(text, value) })
        },
        None => {
            proof {
                lemma_split_single(row.of(chars@), equals);
            }
            None
        },
    }
}

/// Reads the properties of a unit from what the tool that shows them
/// printed: one property for each line of the form `name=value` whose value
/// is not empty. The properties come out in the order of their names; the
/// place of a property in that order is its index.
pub fn properties(output: &str) -> (list: Vec<Property>)
    ensures
        property_views(list@) == properties_of(output@),
{
    let chars = to_chars(output);
    let rows = line_spans(chars.as_slice());
    let ghost all = lines(output@);
    let mut listed: Vec<Property> = Vec::new();
    let mut i: usize = 0;
    assert(all.take(0) =~= Seq::empty());
    assert(property_views(listed@) =~= Seq::empty());
    while i < rows.len()
        invariant
            chars@ == output@,
            all == lines(output@),
            all_fit(rows@, chars@.len()),
            pieces(chars@, rows@) == all,
            i <= rows@.len(),
            property_views(listed@) == properties_of_rows(all.take(i as int)),
        decreases rows@.len() - i,
    {
        let ghost before = property_views(listed@);
        let row = rows[i];
        assert(row.fits(chars@.len()));
        assert(all[i as int] == row.of(chars@));
        assert(all.take(i + 1).drop_last() =~= all.take(i as int));
        assert(all.take(i + 1).last() == all[i as int]);
        match property_at(output, chars.as_slice(), row) {
            Some(p) => {
                listed.push(p);
                assert(property_views(listed@) =~= before.push(listed@.last()@));
            },
            None => {},
        }
        i += 1;
    }
    assert(all.take(i as int) =~= all);
    let list = sorted_by_key(&listed);
    assert(property_names(property_views(listed@)) =~= sort_keys(listed@));
    assert(property_views(listed@) =~= views(listed@));
    assert(property_views(list@) =~= views(list@));
    list
}

/// The path and the text of the unit file that the tool which prints it
/// gave. The first line names the file behind a two-character mark; the
/// rest is the text, white space at both ends set aside. An output whose
/// first line is shorter than four characters, or that is one line only,
/// gives none.
pub open spec fn unit_file_of(output: Seq<char>) -> Option<(Seq<char>, Seq<char>)> {
    let fields = split(output, Delimiter::Char('\n'));
    if fields.len() >= 2 && fields[0].len() > 3 {
        Some((fields[0].skip(2), trim(output.skip(fields[0].len() as int))))
    } else {
        None
    }
}

/// Reads the path and the text of a unit file from what the tool that
/// prints the file gave.
pub fn get_file(output: &str) -> (file: Option<(String, String)>)
    ensures
        match file {
            Some((path, text)) => unit_file_of(output@) == Some((path@, text@)),
            None => unit_file_of(output@) is None,
        },
{
    let chars = to_chars(output);
    let all = whole(chars.as_slice());
    let feed = Delimiter::Char('\n');
    match find_match(chars.as_slice(), all, feed) {
        Some(at) => {
            proof {
                lemma_split_at_first(chars@, feed, at as int);
                assert(chars@.take(at as int).len() == at);
            }
            if at <= 3 {
                return None;
            }
            let path = Span { start: 2, end: at };
            let rest = Span { start: at, end: chars.len() };
            assert(path.of(chars@) =~= chars@.take(at as int).skip(2));
            assert(rest.of(chars@) =~= chars@.skip(at as int));
            let inner = trim_span(chars.as_slice(), rest);
            Some((string_of(output, path), string_of(output, inner)))
        },
        None => {
            proof {
                lemma_split_single(chars@, feed);
            }
            None
        },
    }
}

/// What is shown as the journal of the unit `name`: the journal, or a
/// notice that it could not be read.
pub open spec fn journal_of(name: Seq<char>, output: Option<Seq<char>>) -> Seq<char> {
    match output {
        Some(text) => text,
        None => "Unable to read the journal entry for "@ + name + "."@,
    }
}

/// Turns what the journal reader printed for the unit `name` into the text
/// to show; `None` stands for a reader that could not be run or printed no
/// text.
pub fn get_journal(name: &str, output: Option<String>) -> (shown: String)
    ensures
        shown@ == journal_of(
            name@,
            match output {
                Some(text) => Some(text@),
                None => None,
            },
        ),
{
    match output {
        Some(text) => text,
        None => {
            let mut shown = "Unable to read the journal entry for ".to_owned();
            shown.append(name);
            shown.append(".");
            shown
        },
    }
}

} // verus!
