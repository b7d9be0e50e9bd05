use vstd::prelude::*;

use crate::ast::Location;
use crate::reporting::{Message, MessageModel, ParseError};
use crate::tokens::{lexical_error_text, IntegerOverflow, LexicalError};

verus! {

/// The parts of a rendered error report: a headline, one
/// labelled span of the source, and an optional note.
pub struct Report {
    pub message: String,
    pub location: Location,
    pub label: String,
    pub note: Option<String>,
}

pub struct ReportModel {
    pub message: Seq<char>,
    pub location: Location,
    pub label: Seq<char>,
    pub note: Option<Seq<char>>,
}

impl View for Report {
    type V = ReportModel;

    open spec fn view(&self) -> ReportModel {
        ReportModel {
            message: self.message@,
            location: self.location,
            label: self.label@,
            note: match self.note {
                Some(n) => Some(n@),
                None => None,
            },
        }
    }
}

/// The bytes that ariadne writes, without colour, for an error report with
/// headline `message`, a label `label` on `span` and an optional `note`, over
/// the source text `source`.
pub uninterp spec fn ariadne_plain_output(
    message: Seq<char>,
    span: (usize, usize),
    label: Seq<char>,
    note: Option<Seq<char>>,
    source: Seq<char>,
) -> Seq<u8>;

/// Relies on ariadne's `Report::build`, `Label::new`, the builder's setters
/// and `Report::write_for_stdout`. Writing into a `Vec<u8>` does not fail.
/// Without colour, every colour is filtered out and what is written depends
/// on the report's parts and the source alone; with colour, the escape codes
/// also depend on process-wide terminal settings, so nothing more is stated.
/// `Label::new` panics on a backwards span, which `requires` rules out.
#[verifier::external_body]
fn render(report: &Report, code: &str, include_colour: bool) -> (r: Option<Vec<u8>>)
    requires
        report.location.0 <= report.location.1,
    ensures
        r is Some,
        !include_colour ==> r->0@ == ariadne_plain_output(
            report.message@,
            (report.location.0, report.location.1),
            report.label@,
            report@.note,
            code@,
        ),
{
    let name = "myscript.toy";
    let label = ariadne::Label::new((name, report.location.as_range()))
        .with_message(&report.label);
    let mut builder = ariadne::Report::build(ariadne::ReportKind::Error, name, 0)
        .with_message(&report.message)
        .with_label(label);
    if let Some(note) = &report.note {
        builder.set_note(note);
    }
    let config = ariadne::Config::default().with_color(include_colour);
    let mut out: Vec<u8> = Vec::new();
    let source = (name, ariadne::Source::from(code));
    builder.with_config(config).finish().write_for_stdout(source, &mut out).ok().map(|_| out)
}

/// `names` joined by `", "`.
pub open spec fn join(names: Seq<Seq<char>>) -> Seq<char>
    decreases names.len(),
{
    if names.len() == 0 {
        seq![]
    } else if names.len() == 1 {
        names[0]
    } else {
        join(names.drop_last()) + ", "@ + names.last()
    }
}

/// A span moved inside `[0, len]`, keeping its start at or before its end.
pub open spec fn clamp(l: Location, len: nat) -> Location {
    let start = if l.0 <= len { l.0 } else { len as usize };
    let end = if l.1 > len { len as usize } else if l.1 < start { start } else { l.1 };
    Location(start, end)
}

/// The report for a diagnostic on a source text of `len` bytes.
pub open spec fn report_of(m: MessageModel, len: nat) -> ReportModel {
    match m {
        MessageModel::LexerError(LexicalError::InvalidInteger(k), l) => ReportModel {
            message: lexical_error_text(LexicalError::InvalidInteger(k)),
            location: clamp(l, len),
            label: "Invalid integer"@,
            note: Some(
                match k {
                    IntegerOverflow::Positive =>
                        "Larger than maximum positive number which is 9223372036854775807"@,
                    IntegerOverflow::Negative =>
                        "Smaller than minimum negative number which is -9223372036854775808"@,
                },
            ),
        },
        MessageModel::LexerError(LexicalError::InvalidToken, l) => ReportModel {
            message: lexical_error_text(LexicalError::InvalidToken),
            location: clamp(l, len),
            label: "Invalid token"@,
            note: None,
        },
        MessageModel::UnrecognizedEof(l, expected) => ReportModel {
            message: "Unexpected end of file"@,
            location: clamp(l, len),
            label: "End of file not expected here"@,
            note: Some("Note: expected one of tokens "@ + join(expected)),
        },
        MessageModel::UnrecognisedToken(l, token, expected) => ReportModel {
            message: "Unexpected token "@ + token + ", expected one of "@ + join(expected),
            location: clamp(l, len),
            label: "Unexpected token "@ + token,
            note: None,
        },
        MessageModel::ExtraToken(l, token) => ReportModel {
            message: "Unexpected extra token "@ + token,
            location: clamp(l, len),
            label: "Unexpected extra token "@ + token,
            note: None,
        },
        MessageModel::UnknownVariable(name, l) => ReportModel {
            message: "Unknown variable "@ + name,
            location: clamp(l, len),
            label: "Unknown variable"@,
            note: None,
        },
        MessageModel::DivisionByZero(l) => ReportModel {
            message: "Division by zero"@,
            location: clamp(l, len),
            label: "Divisor is zero"@,
            note: None,
        },
    }
}

fn join_names(names: &Vec<String>) -> (r: String)
    ensures
        r@ == join(names@.map_values(|s: String| s@)),
{
    let ghost all = names@.map_values(|s: String| s@);
    let mut r = String::new();
    let mut i: usize = 0;
    while i < names.len()
        invariant
            i <= names@.len(),
            all == names@.map_values(|s: String| s@),
            r@ == join(all.subrange(0, i as int)),
        decreases names@.len() - i,
    {
        if i > 0 {
            r.append(", ");
        }
        r.append(names[i].as_str());
        i = i + 1;
        assert(all.subrange(0, i as int).drop_last() =~= all.subrange(0, i - 1));
        if i == 1 {
            assert(all.subrange(0, 0) =~= Seq::<Seq<char>>::empty());
        }
    }
    assert(all.subrange(0, i as int) =~= all);
    r
}

fn clamp_location(l: Location, len: usize) -> (r: Location)
    ensures
        r == clamp(l, len as nat),
{
    let start = if l.0 <= len { l.0 } else { len };
    let end = if l.1 > len { len } else if l.1 < start { start } else { l.1 };
    Location(start, end)
}

impl Message {
    /// The report for this diagnostic on a source text of `len` bytes.
    pub fn report(&self, len: usize) -> (r: Report)
        ensures
            r@ == report_of(self@, len as nat),
    {
        match self {
            Message::LexerError(e, l) => {
                let location = clamp_location(*l, len);
                match **e {
                    LexicalError::InvalidInteger(k) => {
                        let note = match k {
                            IntegerOverflow::Positive => String::from_str(
                                "Larger than maximum positive number which is 9223372036854775807",
                            ),
                            IntegerOverflow::Negative => String::from_str(
                                "Smaller than minimum negative number which is -9223372036854775808",
                            ),
                        };
                        Report {
                            message: (**e).description(),
                            location,
                            label: String::from_str("Invalid integer"),
                            note: Some(note),
                        }
                    },
                    LexicalError::InvalidToken => Report {
                        message: (**e).description(),
                        location,
                        label: String::from_str("Invalid token"),
                        note: None,
                    },
                }
            },
            Message::ParseError(p) => match &**p {
                ParseError::UnrecognizedEof { location, expected } => {
                    let mut note = String::from_str("Note: expected one of tokens ");
                    let names = join_names(expected);
                    note.append(names.as_str());
                    Report {
                        message: String::from_str("Unexpected end of file"),
                        location: clamp_location(*location, len),
                        label: String::from_str("End of file not expected here"),
                        note: Some(note),
                    }
                },
                ParseError::UnrecognisedToken { location, token, expected } => {
                    let mut message = String::from_str("Unexpected token ");
                    message.append(token.as_str());
                    message.append(", expected one of ");
                    let names = join_names(expected);
                    message.append(names.as_str());
                    let mut label = String::from_str("Unexpected token ");
                    label.append(token.as_str());
                    Report {
                        message,
                        location: clamp_location(*location, len),
                        label,
                        note: None,
                    }
                },
                ParseError::ExtraToken { location, token } => {
                    let mut label = String::from_str("Unexpected extra token ");
                    label.append(token.as_str());
                    let mut message = String::from_str("Unexpected extra token ");
                    message.append(token.as_str());
                    Report {
                        message,
                        location: clamp_location(*location, len),
                        label,
                        note: None,
                    }
                },
            },
            Message::UnknownVariable(name, l) => {
                let mut message = String::from_str("Unknown variable ");
                message.append(name.as_str());
                Report {
                    message,
                    location: clamp_location(*l, len),
                    label: String::from_str("Unknown variable"),
                    note: None,
                }
            },
            Message::DivisionByZero(l) => Report {
                message: String::from_str("Division by zero"),
                location: clamp_location(*l, len),
                label: String::from_str("Divisor is zero"),
                note: None,
            },
        }
    }
}

/// The bytes of the report, without colour, for a diagnostic `m` on the
/// source text `code` (of `len` bytes).
pub open spec fn plain_rendering(m: MessageModel, code: Seq<char>, len: nat) -> Seq<u8> {
    let r = report_of(m, len);
    ariadne_plain_output(r.message, (r.location.0, r.location.1), r.label, r.note, code)
}

/// Renders a diagnostic as a source-quoting report.
pub trait WriteDiagnostic {
    spec fn model(&self) -> MessageModel;

    /// The report's bytes, with ANSI colour if `include_colour`.
    fn write_diagnostic(&self, code: &str, include_colour: bool) -> (r: Vec<u8>)
        ensures
            !include_colour ==> r@ == plain_rendering(self.model(), code@, code.len() as nat),
    ;
}

impl WriteDiagnostic for Message {
    open spec fn model(&self) -> MessageModel {
        self@
    }

    fn write_diagnostic(&self, code: &str, include_colour: bool) -> (r: Vec<u8>) {
        let report = self.report(code.len());
        match render(&report, code, include_colour) {
            Some(bytes) => bytes,
            None => Vec::new(),
        }
    }
}

/// Rendering without colour is deterministic: two renderings of the same
/// diagnostic on the same source give the same bytes.
pub proof fn lemma_rendering_repeats(m: Message, code: &str, first: Vec<u8>, second: Vec<u8>)
    requires
        first@ == plain_rendering(m@, code@, code.len() as nat),
        second@ == plain_rendering(m@, code@, code.len() as nat),
    ensures
        first@ == second@,
{
}

} // verus!
