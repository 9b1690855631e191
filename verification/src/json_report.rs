//! The sink that renders each record as one JSON object on a line of its own.

use vstd::prelude::*;
use vstd::string::*;

use crate::report::{Report, ReportSuffix, ReportType};
use crate::text::{json_quote, json_text_of_str, lemma_prefix_grows, push_decimal};

verus! {

/// What a JSON sink holds, as plain values.
pub struct JsonState {
    pub report_type: ReportType,
    pub report_suffix: Option<ReportSuffix>,
    /// Whether no record has been rendered yet.
    pub first_record: bool,
    /// The members of the open record, each already rendered.
    pub values: Seq<Seq<char>>,
    /// The text rendered so far and not yet handed out.
    pub output: Seq<char>,
}

/// The texts that a vector of strings holds.
pub open spec fn texts(v: Seq<String>) -> Seq<Seq<char>> {
    Seq::new(v.len(), |i: int| v[i]@)
}

/// One member of an object: the field's name in double quotes, a colon, and
/// the value as it is rendered.
pub open spec fn member(field: Seq<char>, rendered: Seq<char>) -> Seq<char> {
    seq!['"'] + field + seq!['"', ':'] + rendered
}

/// What the value at `i` adds to an object: nothing where it is empty, else
/// the value, followed by a comma unless it is the last of the record.
pub open spec fn member_piece(values: Seq<Seq<char>>, i: int) -> Seq<char> {
    if values[i].len() == 0 {
        Seq::empty()
    } else if i == values.len() - 1 {
        values[i]
    } else {
        values[i].push(',')
    }
}

/// What the first `upto` values of a record add to an object.
pub open spec fn members(values: Seq<Seq<char>>, upto: int) -> Seq<char>
    decreases upto,
{
    if upto <= 0 {
        Seq::empty()
    } else {
        members(values, upto - 1) + member_piece(values, upto - 1)
    }
}

/// A record as it is written to a file: the values between braces; nothing
/// for a record without values.
pub open spec fn file_record(values: Seq<Seq<char>>) -> Seq<char> {
    if values.len() > 0 {
        seq!['{'] + members(values, values.len() as int) + seq!['}']
    } else {
        Seq::empty()
    }
}

/// The member that marks a record on standard output with the kind of its
/// report, with the comma that follows it.
pub open spec fn suffix_member(suffix: ReportSuffix) -> Seq<char> {
    json_text_of_str("report_suffix"@) + seq![':'] + suffix.message_text() + seq![',']
}

/// A record as it is written to standard output: between braces the kind
/// of the report first, then the values; nothing for a record without
/// values.
pub open spec fn stdout_record(values: Seq<Seq<char>>, suffix: ReportSuffix) -> Seq<char> {
    if values.len() > 0 {
        seq!['{'] + suffix_member(suffix) + members(values, values.len() as int) + seq!['}']
    } else {
        Seq::empty()
    }
}

/// The sink after its values were written in the form for files.
pub open spec fn after_write_file(s: JsonState) -> JsonState {
    JsonState { values: Seq::empty(), output: s.output + file_record(s.values), ..s }
}

/// The sink after its values were written in the form for standard output.
pub open spec fn after_write_stdout(s: JsonState) -> JsonState {
    JsonState {
        values: Seq::empty(),
        output: s.output + stdout_record(s.values, s.report_suffix.unwrap()),
        ..s
    }
}

/// The sink after a record was closed: one without values is left as it is;
/// else the record goes out on a new line, the first one on the line that is
/// open.
pub open spec fn after_new_record(s: JsonState) -> JsonState {
    if s.values.len() == 0 {
        s
    } else {
        let sep = if s.first_record {
            Seq::<char>::empty()
        } else {
            seq!['\n']
        };
        let t = JsonState { first_record: false, output: s.output + sep, ..s };
        match s.report_type {
            ReportType::ToFile => after_write_file(t),
            ReportType::ToStdout => after_write_stdout(t),
        }
    }
}

/// Renders one member of an object from a field's name and a rendered value.
pub fn member_string(field: &str, rendered: &str) -> (r: String)
    ensures
        r@ == member(field@, rendered@),
{
    let mut r = String::new();
    r.push('"');
    r.append(field);
    r.push('"');
    r.push(':');
    r.append(rendered);
    assert(r@ =~= member(field@, rendered@));
    r
}

/// Appends the values of a record to `out`, separated by commas.
fn push_members(out: &mut String, values: &Vec<String>)
    ensures
        final(out)@ == old(out)@ + members(texts(values@), values.len() as int),
{
    let len = values.len();
    let mut i: usize = 0;
    assert(out@ =~= old(out)@ + members(texts(values@), 0));
    while i < len
        invariant
            i <= len,
            len == values.len(),
            out@ == old(out)@ + members(texts(values@), i as int),
        decreases len - i,
    {
        let ghost before = out@;
        if !values[i].as_str().is_empty() {
            out.append(values[i].as_str());
            if i != len - 1 {
                out.push(',');
            }
        }
        assert(out@ =~= before + member_piece(texts(values@), i as int));
        assert(out@ =~= old(out)@ + members(texts(values@), i + 1));
        i += 1;
    }
}

/// Renders records as JSON objects, one on each line.
pub struct ReportJson {
    report_type: ReportType,
    report_suffix: Option<ReportSuffix>,
    first_record: bool,
    values: Vec<String>,
    out: String,
}

impl View for ReportJson {
    type V = JsonState;

    closed spec fn view(&self) -> JsonState {
        JsonState {
            report_type: self.report_type,
            report_suffix: self.report_suffix,
            first_record: self.first_record,
            values: texts(self.values@),
            output: self.out@,
        }
    }
}

impl ReportJson {
    /// A sink before its first record. One that writes to a file does not
    /// mark its records and so keeps no kind.
    pub fn new(report_type: ReportType, report_suffix: Option<ReportSuffix>) -> (r: Self)
        ensures
            r@ == (JsonState {
                report_type,
                report_suffix: match report_type {
                    ReportType::ToFile => None,
                    ReportType::ToStdout => report_suffix,
                },
                first_record: true,
                values: Seq::empty(),
                output: Seq::empty(),
            }),
    {
        let r = match report_type {
            ReportType::ToFile => ReportJson {
                report_type,
                report_suffix: None,
                first_record: true,
                values: Vec::new(),
                out: String::new(),
            },
            ReportType::ToStdout => ReportJson {
                report_type,
                report_suffix,
                first_record: true,
                values: Vec::new(),
                out: String::new(),
            },
        };
        assert(r@.values =~= Seq::empty());
        r
    }

    fn escape(s: String) -> (r: String)
        ensures
            r@ == json_text_of_str(s@),
    {
        json_quote(s.as_str())
    }

    /// Writes the open record in the form for standard output and empties
    /// it. A record without values is not written.
    pub fn write_values_stdout(&mut self)
        requires
            old(self)@.values.len() > 0 ==> old(self)@.report_suffix is Some,
        ensures
            final(self)@ == after_write_stdout(old(self)@),
    {
        let len = self.values.len();
        if len == 0 {
            assert(self@.values =~= Seq::empty());
            assert(self@.output =~= after_write_stdout(old(self)@).output);
            return ;
        }
        self.out.push('{');
        let key = json_quote("report_suffix");
        self.out.append(key.as_str());
        self.out.push(':');
        let kind = match &self.report_suffix {
            Some(suffix) => suffix.message(),
            None => String::new(),
        };
        self.out.append(kind.as_str());
        self.out.push(',');
        push_members(&mut self.out, &self.values);
        self.out.push('}');
        self.values.clear();
        assert(self@.values =~= Seq::empty());
        assert(self@.output =~= after_write_stdout(old(self)@).output);
    }

    /// Writes the open record in the form for files and empties it.
    pub fn write_values_file(&mut self)
        requires
            old(self)@.values.len() > 0 ==> old(self)@.report_type == ReportType::ToFile,
        ensures
            final(self)@ == after_write_file(old(self)@),
    {
        let len = self.values.len();
        if len > 0 {
            self.out.push('{');
        }
        push_members(&mut self.out, &self.values);
        if len > 0 {
            self.out.push('}');
            self.values.clear();
        }
        assert(self@.values =~= Seq::empty());
        assert(self@.output =~= after_write_file(old(self)@).output);
    }
}

impl Report for ReportJson {
    open spec fn pending(&self) -> Seq<char> {
        self@.output
    }

    open spec fn has_value(&self) -> bool {
        self@.values.len() > 0
    }

    open spec fn can_emit(&self) -> bool {
        self@.report_type == ReportType::ToFile || self@.report_suffix is Some
    }

    fn footer(&mut self)
        ensures
            final(self)@ == after_new_record(old(self)@),
    {
        self.new_record();
    }

    fn new_record(&mut self)
        ensures
            final(self)@ == after_new_record(old(self)@),
    {
        if !self.values.is_empty() {
            if !self.first_record {
                self.out.push('\n');
            } else {
                self.first_record = false;
                assert(self.out@ =~= old(self).out@ + Seq::<char>::empty());
            }
            proof {
                let s = old(self)@;
                let sep = if s.first_record {
                    Seq::<char>::empty()
                } else {
                    seq!['\n']
                };
                assert(self@.output =~= s.output + sep);
                assert(self@ == (JsonState { first_record: false, output: s.output + sep, ..s }));
                lemma_prefix_grows(s.output, sep);
            }
            let ghost mid = self@;
            match self.report_type {
                ReportType::ToFile => self.write_values_file(),
                ReportType::ToStdout => self.write_values_stdout(),
            }
            proof {
                let s = old(self)@;
                let add = if s.report_type == ReportType::ToFile {
                    file_record(mid.values)
                } else {
                    stdout_record(mid.values, mid.report_suffix.unwrap())
                };
                assert(self@.output == mid.output + add);
                lemma_prefix_grows(mid.output, add);
            }
        } else {
            assert(old(self)@.output.is_prefix_of(self@.output));
        }
    }

    fn str_val(&mut self, f: &str, s: String)
        ensures
            final(self)@ == (JsonState {
                values: old(self)@.values.push(member(f@, json_text_of_str(s@))),
                ..old(self)@
            }),
    {
        let rendered = Self::escape(s);
        self.values.push(member_string(f, rendered.as_str()));
        assert(self@.values =~= old(self)@.values.push(member(f@, json_text_of_str(s@))));
    }

    fn int_val(&mut self, f: &str, n: u64)
        ensures
            final(self)@ == (JsonState {
                values: old(self)@.values.push(member(f@, crate::text::decimal(n as nat))),
                ..old(self)@
            }),
    {
        let mut rendered = String::new();
        push_decimal(&mut rendered, n);
        assert(rendered@ =~= crate::text::decimal(n as nat));
        self.values.push(member_string(f, rendered.as_str()));
        assert(self@.values =~= old(self)@.values.push(
            member(f@, crate::text::decimal(n as nat)),
        ));
    }

    /// A JSON record names its fields itself: there is nothing to announce.
    fn set_field(&mut self, f: &str)
        ensures
            final(self)@ == old(self)@,
    {
    }

    fn is_some_val_in_record(&self) -> (r: bool) {
        !self.values.is_empty()
    }

    fn take_output(&mut self) -> (r: String)
        ensures
            final(self)@ == (JsonState { output: Seq::empty(), ..old(self)@ }),
    {
        let mut taken = String::new();
        std::mem::swap(&mut self.out, &mut taken);
        taken
    }
}

} // verus!
