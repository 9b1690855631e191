//! The sink that renders records as rows of a table, under a header that
//! names the fields.

use vstd::prelude::*;
use vstd::string::*;

use crate::report::{Report, ReportSuffix, ReportType};
use crate::text::{decimal, double_char, doubled, lemma_prefix_grows, push_decimal};

verus! {

/// A column of the table: the field's name and its value in the open record.
pub type Cell = (Seq<char>, Seq<char>);

/// What a CSV sink holds, as plain values.
pub struct CsvState {
    pub report_type: ReportType,
    pub report_suffix: Option<ReportSuffix>,
    /// Whether no record has been rendered yet, so that the header is due.
    pub first_record: bool,
    /// The columns, in the order in which the fields were first named.
    pub cells: Seq<Cell>,
    /// The text rendered so far and not yet handed out.
    pub output: Seq<char>,
}

/// The columns that a vector of pairs of strings holds.
pub open spec fn cells_of(v: Seq<(String, String)>) -> Seq<Cell> {
    Seq::new(v.len(), |i: int| (v[i].0@, v[i].1@))
}

/// A comma after every column but the last.
pub open spec fn separator(cells: Seq<Cell>, i: int) -> Seq<char> {
    if i == cells.len() - 1 {
        Seq::empty()
    } else {
        seq![',']
    }
}

/// The names of the first `upto` columns, with their commas.
pub open spec fn names(cells: Seq<Cell>, upto: int) -> Seq<char>
    decreases upto,
{
    if upto <= 0 {
        Seq::empty()
    } else {
        names(cells, upto - 1) + cells[upto - 1].0 + separator(cells, upto - 1)
    }
}

/// The values of the first `upto` columns, with their commas.
pub open spec fn row(cells: Seq<Cell>, upto: int) -> Seq<char>
    decreases upto,
{
    if upto <= 0 {
        Seq::empty()
    } else {
        row(cells, upto - 1) + cells[upto - 1].1 + separator(cells, upto - 1)
    }
}

/// The same columns without their values.
pub open spec fn emptied(cells: Seq<Cell>) -> Seq<Cell> {
    Seq::new(cells.len(), |i: int| (cells[i].0, Seq::<char>::empty()))
}

/// Whether some column holds a value.
pub open spec fn holds_value(cells: Seq<Cell>) -> bool {
    exists|i: int| 0 <= i < cells.len() && (#[trigger] cells[i]).1.len() > 0
}

/// Whether `i` is the first column with the given name.
pub open spec fn first_named(cells: Seq<Cell>, name: Seq<char>, i: int) -> bool {
    &&& 0 <= i < cells.len()
    &&& cells[i].0 == name
    &&& forall|j: int| 0 <= j < i ==> (#[trigger] cells[j]).0 != name
}

/// The columns after a value was put under a name: the first column of that
/// name takes the value; where there is none, a new column is added at the
/// end.
pub open spec fn with_value(cells: Seq<Cell>, name: Seq<char>, value: Seq<char>) -> Seq<Cell> {
    if exists|i: int| first_named(cells, name, i) {
        cells.update(choose|i: int| first_named(cells, name, i), (name, value))
    } else {
        cells.push((name, value))
    }
}

/// A text value as a table holds it: in double quotes, with the double quotes
/// inside it written twice.
pub open spec fn quoted(s: Seq<char>) -> Seq<char> {
    seq!['"'] + doubled(s, '"') + seq!['"']
}

/// The header as it is written to a file: the names of the columns.
pub open spec fn after_write_header_file(s: CsvState) -> CsvState {
    CsvState { output: s.output + names(s.cells, s.cells.len() as int), ..s }
}

/// The header as it is written to standard output: the title of the column
/// that holds the kind of the report, a comma, the names of the columns, and
/// the end of the line. So the header has a cell for every cell of a row.
pub open spec fn after_write_header_stdout(s: CsvState) -> CsvState {
    CsvState {
        output: s.output + "Report Suffix"@ + seq![','] + names(s.cells, s.cells.len() as int)
            + seq!['\n'],
        ..s
    }
}

/// The sink after the values of the open record were written to a file.
pub open spec fn after_write_values_file(s: CsvState) -> CsvState {
    CsvState {
        cells: emptied(s.cells),
        output: s.output + row(s.cells, s.cells.len() as int),
        ..s
    }
}

/// The sink after the values of the open record were written to standard
/// output: the kind of the report comes first, and the line is ended.
pub open spec fn after_write_values_stdout(s: CsvState) -> CsvState {
    CsvState {
        cells: emptied(s.cells),
        output: s.output + s.report_suffix.unwrap().message_text() + seq![','] + row(
            s.cells,
            s.cells.len() as int,
        ) + seq!['\n'],
        ..s
    }
}

/// The sink after a record was closed. A record without a value is left
/// open. Else the header goes out before the first record; in a file every
/// row starts on a new line, on standard output every row ends its line.
pub open spec fn after_new_record(s: CsvState) -> CsvState {
    if !holds_value(s.cells) {
        s
    } else {
        match s.report_type {
            ReportType::ToFile => {
                let headed = if s.first_record {
                    after_write_header_file(s)
                } else {
                    s
                };
                after_write_values_file(
                    CsvState {
                        first_record: false,
                        output: headed.output + seq!['\n'],
                        ..headed
                    },
                )
            },
            ReportType::ToStdout => {
                let headed = if s.first_record {
                    after_write_header_stdout(s)
                } else {
                    s
                };
                after_write_values_stdout(CsvState { first_record: false, ..headed })
            },
        }
    }
}

/// A column that takes a value that is not empty holds a value.
proof fn lemma_with_value_holds(cells: Seq<Cell>, name: Seq<char>, value: Seq<char>)
    requires
        value.len() > 0,
    ensures
        holds_value(with_value(cells, name, value)),
{
    let after = with_value(cells, name, value);
    if exists|i: int| first_named(cells, name, i) {
        let i = choose|i: int| first_named(cells, name, i);
        assert(after[i].1.len() > 0);
    } else {
        assert(after[cells.len() as int].1.len() > 0);
    }
}

/// A number written in base ten has at least one digit.
proof fn lemma_decimal_not_empty(n: nat)
    ensures
        decimal(n).len() > 0,
{
}

/// Appends the names of the columns to `out`, separated by commas.
fn push_names(out: &mut String, cells: &Vec<(String, String)>)
    ensures
        final(out)@ == old(out)@ + names(cells_of(cells@), cells.len() as int),
{
    let len = cells.len();
    let mut i: usize = 0;
    assert(out@ =~= old(out)@ + names(cells_of(cells@), 0));
    while i < len
        invariant
            i <= len,
            len == cells.len(),
            out@ == old(out)@ + names(cells_of(cells@), i as int),
        decreases len - i,
    {
        let ghost before = out@;
        out.append(cells[i].0.as_str());
        if i != len - 1 {
            out.push(',');
        }
        assert(out@ =~= before + cells_of(cells@)[i as int].0 + separator(
            cells_of(cells@),
            i as int,
        ));
        assert(out@ =~= old(out)@ + names(cells_of(cells@), i + 1));
        i += 1;
    }
}

/// Appends the values of the columns to `out`, separated by commas.
fn push_row(out: &mut String, cells: &Vec<(String, String)>)
    ensures
        final(out)@ == old(out)@ + row(cells_of(cells@), cells.len() as int),
{
    let len = cells.len();
    let mut i: usize = 0;
    assert(out@ =~= old(out)@ + row(cells_of(cells@), 0));
    while i < len
        invariant
            i <= len,
            len == cells.len(),
            out@ == old(out)@ + row(cells_of(cells@), i as int),
        decreases len - i,
    {
        let ghost before = out@;
        out.append(cells[i].1.as_str());
        if i != len - 1 {
            out.push(',');
        }
        assert(out@ =~= before + cells_of(cells@)[i as int].1 + separator(
            cells_of(cells@),
            i as int,
        ));
        assert(out@ =~= old(out)@ + row(cells_of(cells@), i + 1));
        i += 1;
    }
}

/// Takes the value out of every column.
fn clear_values(cells: &mut Vec<(String, String)>)
    ensures
        cells_of(final(cells)@) == emptied(cells_of(old(cells)@)),
{
    let len = cells.len();
    let mut i: usize = 0;
    while i < len
        invariant
            i <= len,
            len == cells.len(),
            len == old(cells).len(),
            forall|j: int|
                0 <= j < i ==> (#[trigger] cells@[j]).0@ == old(cells)@[j].0@ && cells@[j].1@
                    == Seq::<char>::empty(),
            forall|j: int| i <= j < len ==> cells@[j] == old(cells)@[j],
        decreases len - i,
    {
        cells[i].1 = String::new();
        i += 1;
    }
    assert forall|j: int| 0 <= j < len implies cells_of(cells@)[j] == emptied(
        cells_of(old(cells)@),
    )[j] by {
        assert(cells@[j].1@ == Seq::<char>::empty());
    }
    assert(cells_of(cells@) =~= emptied(cells_of(old(cells)@)));
}

/// Renders records as rows of comma-separated values.
pub struct ReportCsv {
    report_type: ReportType,
    report_suffix: Option<ReportSuffix>,
    first_record: bool,
    values: Vec<(String, String)>,
    out: String,
}

impl View for ReportCsv {
    type V = CsvState;

    closed spec fn view(&self) -> CsvState {
        CsvState {
            report_type: self.report_type,
            report_suffix: self.report_suffix,
            first_record: self.first_record,
            cells: cells_of(self.values@),
            output: self.out@,
        }
    }
}

impl ReportCsv {
    /// A sink before its first record. One that writes to a file does not
    /// mark its rows and so keeps no kind.
    pub fn new(report_type: ReportType, report_suffix: Option<ReportSuffix>) -> (r: Self)
        ensures
            r@ == (CsvState {
                report_type,
                report_suffix: match report_type {
                    ReportType::ToFile => None,
                    ReportType::ToStdout => report_suffix,
                },
                first_record: true,
                cells: Seq::empty(),
                output: Seq::empty(),
            }),
    {
        let r = match report_type {
            ReportType::ToFile => ReportCsv {
                report_type,
                report_suffix: None,
                first_record: true,
                values: Vec::new(),
                out: String::new(),
            },
            ReportType::ToStdout => ReportCsv {
                report_type,
                report_suffix,
                first_record: true,
                values: Vec::new(),
                out: String::new(),
            },
        };
        assert(r@.cells =~= Seq::empty());
        r
    }

    fn escape(s: String) -> (r: String)
        ensures
            r@ == doubled(s@, '"'),
    {
        double_char(s.as_str(), '"')
    }

    /// Writes the header in the form for standard output.
    pub fn write_header_stdout(&mut self)
        ensures
            final(self)@ == after_write_header_stdout(old(self)@),
    {
        self.out.append("Report Suffix");
        self.out.push(',');
        push_names(&mut self.out, &self.values);
        self.out.push('\n');
        assert(self@.output =~= after_write_header_stdout(old(self)@).output);
    }

    /// Writes the header in the form for files.
    pub fn write_header_file(&mut self)
        requires
            old(self)@.cells.len() > 0 ==> old(self)@.report_type == ReportType::ToFile,
        ensures
            final(self)@ == after_write_header_file(old(self)@),
    {
        push_names(&mut self.out, &self.values);
    }

    /// Writes the values of the open record in the form for standard output
    /// and takes them out of their columns.
    pub fn write_values_stdout(&mut self)
        requires
            old(self)@.report_suffix is Some,
        ensures
            final(self)@ == after_write_values_stdout(old(self)@),
    {
        let kind = match &self.report_suffix {
            Some(suffix) => suffix.message(),
            None => String::new(),
        };
        self.out.append(kind.as_str());
        self.out.push(',');
        push_row(&mut self.out, &self.values);
        self.out.push('\n');
        clear_values(&mut self.values);
        assert(self@.output =~= after_write_values_stdout(old(self)@).output);
    }

    /// Writes the values of the open record in the form for files and takes
    /// them out of their columns.
    pub fn write_values_file(&mut self)
        requires
            old(self)@.cells.len() > 0 ==> old(self)@.report_type == ReportType::ToFile,
        ensures
            final(self)@ == after_write_values_file(old(self)@),
    {
        push_row(&mut self.out, &self.values);
        clear_values(&mut self.values);
    }

    /// Puts a value under a field's name: into the field's column, or into a
    /// new column where the field has none yet.
    pub fn update_field_with_value(&mut self, f: &str, v: String)
        ensures
            final(self)@ == (CsvState { cells: with_value(old(self)@.cells, f@, v@), ..old(self)@ }),
    {
        let name = String::from_str(f);
        let len = self.values.len();
        let mut i: usize = 0;
        while i < len
            invariant
                i <= len,
                len == self.values.len(),
                name@ == f@,
                *self == *old(self),
                forall|j: int| 0 <= j < i ==> (#[trigger] self@.cells[j]).0 != f@,
            decreases len - i,
        {
            if self.values[i].0 == name {
                proof {
                    assert(first_named(self@.cells, f@, i as int));
                    let k = choose|k: int| first_named(self@.cells, f@, k);
                    assert(first_named(self@.cells, f@, k));
                    assert(self@.cells[k].0 == f@);
                    assert(self@.cells[i as int].0 == f@);
                    assert(k == i);
                }
                self.values[i].1 = v;
                assert(self@.cells =~= with_value(old(self)@.cells, f@, v@));
                return ;
            }
            i += 1;
        }
        proof {
            assert forall|k: int| !first_named(self@.cells, f@, k) by {
                if 0 <= k < len {
                    assert(self@.cells[k].0 != f@);
                }
            }
        }
        self.values.push((name, v));
        assert(self@.cells =~= with_value(old(self)@.cells, f@, v@));
    }
}

impl Report for ReportCsv {
    open spec fn pending(&self) -> Seq<char> {
        self@.output
    }

    open spec fn has_value(&self) -> bool {
        holds_value(self@.cells)
    }

    open spec fn can_emit(&self) -> bool {
        self@.report_type == ReportType::ToFile || self@.report_suffix is Some
    }

    fn footer(&mut self)
        ensures
            final(self)@ == after_new_record(old(self)@),
    {
        self.new_record();
    }

    fn new_record(&mut self)
        ensures
            final(self)@ == after_new_record(old(self)@),
    {
        if self.is_some_val_in_record() {
            let ghost s = old(self)@;
            match self.report_type {
                ReportType::ToFile => {
                    if self.first_record {
                        self.write_header_file();
                        self.first_record = false;
                    }
                    self.out.push('\n');
                    let ghost mid = self@;
                    self.write_values_file();
                    proof {
                        let head = if s.first_record {
                            names(s.cells, s.cells.len() as int)
                        } else {
                            Seq::<char>::empty()
                        };
                        assert(mid.output =~= s.output + (head + seq!['\n']));
                        let tail = head + seq!['\n'] + row(s.cells, s.cells.len() as int);
                        assert(self@.output =~= s.output + tail);
                        assert(self@.output =~= after_new_record(s).output);
                        lemma_prefix_grows(s.output, tail);
                    }
                },
                ReportType::ToStdout => {
                    if self.first_record {
                        self.write_header_stdout();
                        self.first_record = false;
                    }
                    let ghost mid = self@;
                    self.write_values_stdout();
                    proof {
                        let head = if s.first_record {
                            "Report Suffix"@ + seq![','] + names(s.cells, s.cells.len() as int)
                                + seq!['\n']
                        } else {
                            Seq::<char>::empty()
                        };
                        assert(mid.output =~= s.output + head);
                        let tail = head + s.report_suffix.unwrap().message_text() + seq![','] + row(
                            s.cells,
                            s.cells.len() as int,
                        ) + seq!['\n'];
                        assert(self@.output =~= s.output + tail);
                        assert(self@.output =~= after_new_record(s).output);
                        lemma_prefix_grows(s.output, tail);
                    }
                },
            }
            assert(!holds_value(emptied(s.cells)));
        } else {
            assert(old(self)@.output.is_prefix_of(self@.output));
        }
    }

    fn str_val(&mut self, f: &str, s: String)
        ensures
            final(self)@ == (CsvState {
                cells: with_value(old(self)@.cells, f@, quoted(s@)),
                ..old(self)@
            }),
    {
        let inner = Self::escape(s);
        let mut value = String::new();
        value.push('"');
        value.append(inner.as_str());
        value.push('"');
        assert(value@ =~= quoted(s@));
        proof {
            lemma_with_value_holds(old(self)@.cells, f@, quoted(s@));
        }
        self.update_field_with_value(f, value);
    }

    fn int_val(&mut self, f: &str, n: u64)
        ensures
            final(self)@ == (CsvState {
                cells: with_value(old(self)@.cells, f@, decimal(n as nat)),
                ..old(self)@
            }),
    {
        let mut value = String::new();
        push_decimal(&mut value, n);
        assert(value@ =~= decimal(n as nat));
        proof {
            lemma_decimal_not_empty(n as nat);
            lemma_with_value_holds(old(self)@.cells, f@, decimal(n as nat));
        }
        self.update_field_with_value(f, value);
    }

    fn set_field(&mut self, f: &str)
        ensures
            final(self)@ == (CsvState {
                cells: with_value(old(self)@.cells, f@, Seq::empty()),
                ..old(self)@
            }),
    {
        self.update_field_with_value(f, String::new());
    }

    fn is_some_val_in_record(&self) -> (r: bool) {
        let len = self.values.len();
        let mut i: usize = 0;
        while i < len
            invariant
                i <= len,
                len == self.values.len(),
                forall|j: int| 0 <= j < i ==> (#[trigger] self@.cells[j]).1.len() == 0,
            decreases len - i,
        {
            if !self.values[i].1.as_str().is_empty() {
                assert(self@.cells[i as int].1.len() > 0);
                return true;
            }
            i += 1;
        }
        false
    }

    fn take_output(&mut self) -> (r: String)
        ensures
            final(self)@ == (CsvState { output: Seq::empty(), ..old(self)@ }),
    {
        let mut taken = String::new();
        std::mem::swap(&mut self.out, &mut taken);
        taken
    }
}

} // verus!
