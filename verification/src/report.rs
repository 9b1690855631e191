//! The kinds of report, the sink interface that decoded records are handed
//! to, and the producer that names and opens reports.

use vstd::prelude::*;
use vstd::string::*;

pub use crate::csv_report::ReportCsv;
pub use crate::json_report::ReportJson;

use crate::csv_report::CsvState;
use crate::json_report::JsonState;
use crate::text::{json_quote, json_text_of_str, same_text};

verus! {

/// The serialisation of a report.
#[derive(Clone, Copy, Debug, PartialEq, Eq, Structural)]
pub enum ReportFormat {
    Json,
    Csv,
}

/// Where a report goes.
#[derive(Clone, Copy, Debug, PartialEq, Eq, Structural)]
pub enum ReportType {
    ToFile,
    ToStdout,
}

/// The kind of artifact that a report holds. A sink that writes to standard
/// output marks every record with it.
#[derive(Clone, Copy, Debug, PartialEq, Eq, Structural)]
pub enum ReportSuffix {
    FileReport,
    ActivityHistory,
    InternetHistory,
    Unknown,
}

impl ReportSuffix {
    /// The kind's name as it appears inside a record.
    pub open spec fn name(self) -> Seq<char> {
        match self {
            ReportSuffix::FileReport => "file_report"@,
            ReportSuffix::ActivityHistory => "activity_history"@,
            ReportSuffix::InternetHistory => "internet_history"@,
            ReportSuffix::Unknown => ""@,
        }
    }

    /// The kind's name as a JSON string literal.
    pub open spec fn message_text(self) -> Seq<char> {
        json_text_of_str(self.name())
    }

    /// The kind that a report file's label stands for; a label that is not
    /// known stands for `Unknown`.
    pub open spec fn of_label(label: Seq<char>) -> ReportSuffix {
        if label == "File_Report"@ {
            ReportSuffix::FileReport
        } else if label == "Activity_History_Report"@ {
            ReportSuffix::ActivityHistory
        } else if label == "Internet_History_Report"@ {
            ReportSuffix::InternetHistory
        } else {
            ReportSuffix::Unknown
        }
    }

    /// The label of the kind's report file.
    pub open spec fn label_text(self) -> Seq<char> {
        match self {
            ReportSuffix::FileReport => "File_Report"@,
            ReportSuffix::ActivityHistory => "Activity_History_Report"@,
            ReportSuffix::InternetHistory => "Internet_History_Report"@,
            ReportSuffix::Unknown => ""@,
        }
    }

    /// The label of the kind's report file.
    pub fn label(&self) -> (r: &'static str)
        ensures
            r@ == self.label_text(),
    {
        match self {
            ReportSuffix::FileReport => "File_Report",
            ReportSuffix::ActivityHistory => "Activity_History_Report",
            ReportSuffix::InternetHistory => "Internet_History_Report",
            ReportSuffix::Unknown => "",
        }
    }

    /// A kind is read back from its own label.
    pub proof fn lemma_label_names_kind(self)
        ensures
            Self::of_label(self.label_text()) == self,
    {
        reveal_strlit("File_Report");
        reveal_strlit("Activity_History_Report");
        reveal_strlit("Internet_History_Report");
        reveal_strlit("");
        assert("File_Report"@.len() == 11);
        assert("Activity_History_Report"@.len() == 23);
        assert("Internet_History_Report"@.len() == 23);
        assert(""@.len() == 0);
        assert("Activity_History_Report"@[0] == 'A');
        assert("Internet_History_Report"@[0] == 'I');
    }

    /// The kind's name as a JSON string literal.
    pub fn message(&self) -> (r: String)
        ensures
            r@ == self.message_text(),
    {
        match self {
            ReportSuffix::FileReport => json_quote("file_report"),
            ReportSuffix::ActivityHistory => json_quote("activity_history"),
            ReportSuffix::InternetHistory => json_quote("internet_history"),
            ReportSuffix::Unknown => json_quote(""),
        }
    }

    /// Reads a report file's label.
    pub fn from_label(label: &str) -> (r: ReportSuffix)
        ensures
            r == Self::of_label(label@),
    {
        if same_text(label, "File_Report") {
            ReportSuffix::FileReport
        } else if same_text(label, "Activity_History_Report") {
            ReportSuffix::ActivityHistory
        } else if same_text(label, "Internet_History_Report") {
            ReportSuffix::InternetHistory
        } else {
            ReportSuffix::Unknown
        }
    }
}

/// A sink for decoded records. A record is opened by `new_record`, which
/// first renders the record that was open before it; `str_val` and `int_val`
/// put a value into the open record; `footer` ends the report. What a sink
/// renders collects in it until `take_output` hands it out.
pub trait Report {
    /// The text rendered so far and not yet handed out.
    spec fn pending(&self) -> Seq<char>;

    /// Whether the open record holds a value.
    spec fn has_value(&self) -> bool;

    /// Whether the sink can render a record: one that writes to standard
    /// output needs the kind of its report for that.
    spec fn can_emit(&self) -> bool;

    /// Ends the report: a sink that holds an open record renders it.
    fn footer(&mut self)
        requires
            old(self).has_value() ==> old(self).can_emit(),
        ensures
            final(self).can_emit() == old(self).can_emit(),
            old(self).pending().is_prefix_of(final(self).pending()),
        default_ensures
            final(self).pending() == old(self).pending(),
            final(self).has_value() == old(self).has_value(),
    {
    }

    /// Renders the open record, if it holds a value, and opens the next one.
    fn new_record(&mut self)
        requires
            old(self).has_value() ==> old(self).can_emit(),
        ensures
            !final(self).has_value(),
            final(self).can_emit() == old(self).can_emit(),
            old(self).pending().is_prefix_of(final(self).pending()),
            !old(self).has_value() ==> final(self).pending() == old(self).pending(),
    ;

    /// Puts a text value into the open record.
    fn str_val(&mut self, f: &str, s: String)
        ensures
            final(self).has_value(),
            final(self).can_emit() == old(self).can_emit(),
            final(self).pending() == old(self).pending(),
    ;

    /// Puts a number into the open record.
    fn int_val(&mut self, f: &str, n: u64)
        ensures
            final(self).has_value(),
            final(self).can_emit() == old(self).can_emit(),
            final(self).pending() == old(self).pending(),
    ;

    /// Announces a field, so that a tabular sink can give it a column.
    fn set_field(&mut self, f: &str)
        ensures
            final(self).can_emit() == old(self).can_emit(),
            final(self).pending() == old(self).pending(),
        default_ensures
            final(self).has_value() == old(self).has_value(),
    {
    }

    /// Whether the open record holds a value.
    fn is_some_val_in_record(&self) -> (r: bool)
        ensures
            r == self.has_value(),
    ;

    /// Hands out the text rendered since the last call.
    fn take_output(&mut self) -> (r: String)
        ensures
            r@ == old(self).pending(),
            final(self).pending() == Seq::<char>::empty(),
            final(self).has_value() == old(self).has_value(),
            final(self).can_emit() == old(self).can_emit(),
    ;
}

/// One of the two sinks of this library, as a producer hands it out.
pub enum ReportSink {
    Json(ReportJson),
    Csv(ReportCsv),
}

/// What a sink of either serialisation holds, as plain values.
pub enum SinkState {
    Json(JsonState),
    Csv(CsvState),
}

impl View for ReportSink {
    type V = SinkState;

    open spec fn view(&self) -> SinkState {
        match self {
            ReportSink::Json(sink) => SinkState::Json(sink@),
            ReportSink::Csv(sink) => SinkState::Csv(sink@),
        }
    }
}

/// A sink of the given serialisation that has rendered nothing and holds
/// nothing yet. One that writes to a file keeps no kind.
pub open spec fn fresh_sink(
    format: ReportFormat,
    report_type: ReportType,
    report_suffix: Option<ReportSuffix>,
) -> SinkState {
    let kept = match report_type {
        ReportType::ToFile => None,
        ReportType::ToStdout => report_suffix,
    };
    match format {
        ReportFormat::Json => SinkState::Json(
            JsonState {
                report_type,
                report_suffix: kept,
                first_record: true,
                values: Seq::empty(),
                output: Seq::empty(),
            },
        ),
        ReportFormat::Csv => SinkState::Csv(
            CsvState {
                report_type,
                report_suffix: kept,
                first_record: true,
                cells: Seq::empty(),
                output: Seq::empty(),
            },
        ),
    }
}

/// The sink after a record was closed.
pub open spec fn sink_after_new_record(s: SinkState) -> SinkState {
    match s {
        SinkState::Json(j) => SinkState::Json(crate::json_report::after_new_record(j)),
        SinkState::Csv(c) => SinkState::Csv(crate::csv_report::after_new_record(c)),
    }
}

/// The sink after a value, rendered for either serialisation, was put into
/// the open record under a field's name.
pub open spec fn sink_with_value(
    s: SinkState,
    field: Seq<char>,
    as_json: Seq<char>,
    as_csv: Seq<char>,
) -> SinkState {
    match s {
        SinkState::Json(j) => SinkState::Json(
            JsonState { values: j.values.push(crate::json_report::member(field, as_json)), ..j },
        ),
        SinkState::Csv(c) => SinkState::Csv(
            CsvState { cells: crate::csv_report::with_value(c.cells, field, as_csv), ..c },
        ),
    }
}

/// The sink after what it had rendered was handed out.
pub open spec fn sink_drained(s: SinkState) -> SinkState {
    match s {
        SinkState::Json(j) => SinkState::Json(JsonState { output: Seq::empty(), ..j }),
        SinkState::Csv(c) => SinkState::Csv(CsvState { output: Seq::empty(), ..c }),
    }
}

impl Report for ReportSink {
    open spec fn pending(&self) -> Seq<char> {
        match self {
            ReportSink::Json(sink) => sink.pending(),
            ReportSink::Csv(sink) => sink.pending(),
        }
    }

    open spec fn has_value(&self) -> bool {
        match self {
            ReportSink::Json(sink) => sink.has_value(),
            ReportSink::Csv(sink) => sink.has_value(),
        }
    }

    open spec fn can_emit(&self) -> bool {
        match self {
            ReportSink::Json(sink) => sink.can_emit(),
            ReportSink::Csv(sink) => sink.can_emit(),
        }
    }

    fn footer(&mut self)
        ensures
            final(self)@ == sink_after_new_record(old(self)@),
    {
        match self {
            ReportSink::Json(sink) => sink.footer(),
            ReportSink::Csv(sink) => sink.footer(),
        }
    }

    fn new_record(&mut self)
        ensures
            final(self)@ == sink_after_new_record(old(self)@),
    {
        match self {
            ReportSink::Json(sink) => sink.new_record(),
            ReportSink::Csv(sink) => sink.new_record(),
        }
    }

    fn str_val(&mut self, f: &str, s: String)
        ensures
            final(self)@ == sink_with_value(
                old(self)@,
                f@,
                json_text_of_str(s@),
                crate::csv_report::quoted(s@),
            ),
    {
        match self {
            ReportSink::Json(sink) => sink.str_val(f, s),
            ReportSink::Csv(sink) => sink.str_val(f, s),
        }
    }

    fn int_val(&mut self, f: &str, n: u64)
        ensures
            final(self)@ == sink_with_value(
                old(self)@,
                f@,
                crate::text::decimal(n as nat),
                crate::text::decimal(n as nat),
            ),
    {
        match self {
            ReportSink::Json(sink) => sink.int_val(f, n),
            ReportSink::Csv(sink) => sink.int_val(f, n),
        }
    }

    fn set_field(&mut self, f: &str)
        ensures
            final(self)@ == (match old(self)@ {
                SinkState::Json(j) => SinkState::Json(j),
                SinkState::Csv(c) => SinkState::Csv(
                    CsvState {
                        cells: crate::csv_report::with_value(c.cells, f@, Seq::empty()),
                        ..c
                    },
                ),
            }),
    {
        match self {
            ReportSink::Json(sink) => sink.set_field(f),
            ReportSink::Csv(sink) => sink.set_field(f),
        }
    }

    fn is_some_val_in_record(&self) -> (r: bool) {
        match self {
            ReportSink::Json(sink) => sink.is_some_val_in_record(),
            ReportSink::Csv(sink) => sink.is_some_val_in_record(),
        }
    }

    fn take_output(&mut self) -> (r: String)
        ensures
            final(self)@ == sink_drained(old(self)@),
    {
        match self {
            ReportSink::Json(sink) => sink.take_output(),
            ReportSink::Csv(sink) => sink.take_output(),
        }
    }
}

/// The file extension that goes with a serialisation.
pub open spec fn extension_of(format: ReportFormat) -> Seq<char> {
    match format {
        ReportFormat::Json => "json"@,
        ReportFormat::Csv => "csv"@,
    }
}

/// The name of a report file: the host that the index was taken from, the
/// report's label and the time at which the report was begun, joined by
/// underscores, with the extension of the serialisation.
pub open spec fn file_name(
    hostname: Seq<char>,
    label: Seq<char>,
    stamp: Seq<char>,
    format: ReportFormat,
) -> Seq<char> {
    hostname + seq!['_'] + label + seq!['_'] + stamp + seq!['.'] + extension_of(format)
}

/// The layout of the time in a report file's name, in the notation of the
/// date formatters after `strftime`: the date, an underscore, the time of
/// day, and the fraction of the second after a dot.
pub open spec fn stamp_layout() -> Seq<char> {
    "%Y%m%d_%H%M%S%.f"@
}

/// The layout in which the caller renders the time at which a report is
/// begun.
pub fn stamp_layout_text() -> (r: &'static str)
    ensures
        r@ == stamp_layout(),
{
    "%Y%m%d_%H%M%S%.f"
}

/// Builds the name of a report file.
pub fn report_file_name(hostname: &str, label: &str, stamp: &str, format: ReportFormat) -> (r:
    String)
    ensures
        r@ == file_name(hostname@, label@, stamp@, format),
{
    let ext = match format {
        ReportFormat::Json => "json",
        ReportFormat::Csv => "csv",
    };
    let mut r = String::from_str(hostname);
    r.push('_');
    r.append(label);
    r.push('_');
    r.append(stamp);
    r.push('.');
    r.append(ext);
    assert(r@ =~= file_name(hostname@, label@, stamp@, format));
    r
}

/// Hands out the sinks of one run, all in one serialisation and for one
/// destination.
pub struct ReportProducer {
    format: ReportFormat,
    report_type: ReportType,
}

impl ReportProducer {
    /// The serialisation of the reports.
    pub closed spec fn format(&self) -> ReportFormat {
        self.format
    }

    /// The destination of the reports.
    pub closed spec fn report_type(&self) -> ReportType {
        self.report_type
    }

    /// A producer of reports in the given serialisation for the given
    /// destination.
    pub fn new(format: ReportFormat, report_type: ReportType) -> (r: Self)
        ensures
            r.format() == format,
            r.report_type() == report_type,
    {
        ReportProducer { format, report_type }
    }

    /// Begins a report: names its file after the host, the label and the
    /// time at which the report is begun, which the caller has read from the
    /// clock and rendered in the layout of `stamp_layout_text`, and makes the
    /// sink for it. The label also tells the kind of the report.
    pub fn new_report(&self, recovered_hostname: &str, report_suffix: &str, stamp: &str) -> (r: (
        String,
        ReportSink,
    ))
        ensures
            r.0@ == file_name(recovered_hostname@, report_suffix@, stamp@, self.format()),
            r.1@ == fresh_sink(
                self.format(),
                self.report_type(),
                Some(ReportSuffix::of_label(report_suffix@)),
            ),
    {
        let name = report_file_name(recovered_hostname, report_suffix, stamp, self.format);
        let kind = Some(ReportSuffix::from_label(report_suffix));
        let sink = match self.format {
            ReportFormat::Json => ReportSink::Json(ReportJson::new(self.report_type, kind)),
            ReportFormat::Csv => ReportSink::Csv(ReportCsv::new(self.report_type, kind)),
        };
        (name, sink)
    }
}

} // verus!
