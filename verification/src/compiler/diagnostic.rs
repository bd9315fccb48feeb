//! Renders a diagnostic against its source: header, arrow line, the source
//! line with a gutter, the caret line, then labels, notes and help.

use vstd::prelude::*;
use vstd::string::*;
use crate::compiler::error::{
    lemma_line_index, lemma_line_starts, line_index, line_starts, lines, newline_at, Diagnostic,
    DiagnosticView, Note, NoteView, Severity, Source, Span,
};
use crate::compiler::text::{
    byte_len, decimal, decimal_width, push_decimal, push_repeat, repeat, str_byte_len,
};

verus! {

/// What a piece of output is styled as.
#[derive(Clone, Copy, PartialEq, Eq, Structural)]
pub enum Style {
    Error,
    Warning,
    Note,
    Help,
    Caret,
    Plain,
}

impl Style {
    /// The escape sequence that switches the colour on; none for `Plain`.
    pub open spec fn code(self) -> Seq<char> {
        match self {
            Style::Error => "\x1b[38;5;88m"@,
            Style::Warning => "\x1b[38;5;202m"@,
            Style::Note => "\x1b[38;5;94m"@,
            Style::Help => "\x1b[38;5;64m"@,
            Style::Caret => "\x1b[38;5;135m"@,
            Style::Plain => Seq::empty(),
        }
    }

    pub open spec fn of(severity: Severity) -> Style {
        match severity {
            Severity::Error => Style::Error,
            Severity::Warning => Style::Warning,
            Severity::Note => Style::Note,
            Severity::Help => Style::Help,
        }
    }
}

/// `text` as it is written in style `style`: wrapped in the style's colour
/// code and a reset when colours are on, unchanged otherwise.
pub open spec fn styled(style: Style, text: Seq<char>, ansi: bool) -> Seq<char> {
    if ansi && style != Style::Plain {
        style.code() + text + "\x1b[39m"@
    } else {
        text
    }
}

pub open spec fn severity_name(severity: Severity) -> Seq<char> {
    match severity {
        Severity::Error => "error"@,
        Severity::Warning => "warning"@,
        Severity::Note => "note"@,
        Severity::Help => "help"@,
    }
}

/// The header line, `"{severity}: {message}"`, in the severity's style.
pub open spec fn header(severity: Severity, message: Seq<char>, ansi: bool) -> Seq<char> {
    styled(Style::of(severity), severity_name(severity) + ": "@ + message + "\n"@, ansi)
}

/// 0-based index of the line a span starts in.
pub open spec fn span_line(text: Seq<char>, span: Span) -> int {
    line_index(line_starts(text), span.start as int)
}

/// Length in bytes of the line a span starts in.
pub open spec fn span_line_len(text: Seq<char>, span: Span) -> int {
    byte_len(lines(text)[span_line(text, span)]) as int
}

/// 0-based column of the first caret. It depends on the start of the span
/// alone: the end of the line where the span starts on a newline byte,
/// else the start's distance from the line start, clamped to the line.
pub open spec fn caret_column(text: Seq<char>, span: Span) -> int {
    let len = span_line_len(text, span);
    let col = span.start - line_starts(text)[span_line(text, span)];
    if newline_at(text, span.start as int) || col > len {
        len
    } else {
        col
    }
}

/// Number of carets: the span's width, clamped to what is left of the
/// line, and never less than one.
pub open spec fn caret_width(text: Seq<char>, span: Span) -> int {
    let wide = if span.end >= span.start {
        span.end - span.start
    } else {
        0
    };
    let room = span_line_len(text, span) - caret_column(text, span);
    let w = if wide <= room {
        wide
    } else {
        room
    };
    if w >= 1 {
        w
    } else {
        1
    }
}

/// The gutter of the line a span starts in: as wide as its line number.
pub open spec fn gutter(text: Seq<char>, span: Span) -> Seq<char> {
    repeat(' ', decimal((span_line(text, span) + 1) as nat).len())
}

/// The source block of a span: arrow line, blank gutter line, the source
/// line and the caret line.
pub open spec fn span_block(text: Seq<char>, span: Span, ansi: bool) -> Seq<char> {
    let line = span_line(text, span);
    let col = span.start - line_starts(text)[line];
    " --> line "@ + decimal((line + 1) as nat) + ", column "@ + decimal((col + 1) as nat) + "\n"@
        + gutter(text, span) + " |\n"@ + decimal((line + 1) as nat) + " | "@ + lines(text)[line]
        + "\n"@ + gutter(text, span) + " | "@ + repeat(' ', caret_column(text, span) as nat)
        + styled(Style::Caret, repeat('^', caret_width(text, span) as nat), ansi) + "\n"@
}

/// Number of dashes in a label line: up to eight, fewer near the line start.
pub open spec fn dash_count(column: int) -> int {
    if column < 8 {
        column
    } else {
        8
    }
}

/// One secondary label under the primary span `primary`: a dash run that
/// ends one column before the primary caret, a space and the label. With
/// the caret in column 0 there is no room and nothing is written.
pub open spec fn label_line(text: Seq<char>, primary: Span, label: Seq<char>) -> Seq<char> {
    let column = caret_column(text, primary);
    if column <= 0 {
        Seq::empty()
    } else {
        gutter(text, primary) + " | "@ + repeat(' ', (column - dash_count(column)) as nat) + repeat(
            '-',
            dash_count(column) as nat,
        ) + " "@ + label + "\n"@
    }
}

/// The label lines, in attachment order.
pub open spec fn labels_block(
    text: Seq<char>,
    primary: Span,
    labels: Seq<(Span, Seq<char>)>,
) -> Seq<char>
    decreases labels.len(),
{
    if labels.len() == 0 {
        Seq::empty()
    } else {
        labels_block(text, primary, labels.drop_last()) + label_line(text, primary, labels.last().1)
    }
}

/// A note: its header, and its source block where it carries a span.
pub open spec fn note_block(text: Seq<char>, note: NoteView, ansi: bool) -> Seq<char> {
    match note.span {
        Some(span) => header(note.severity, note.message, ansi) + span_block(text, span, ansi),
        None => header(note.severity, note.message, ansi),
    }
}

/// The notes in attachment order, each after a blank line.
pub open spec fn notes_block(text: Seq<char>, notes: Seq<NoteView>, ansi: bool) -> Seq<char>
    decreases notes.len(),
{
    if notes.len() == 0 {
        Seq::empty()
    } else {
        notes_block(text, notes.drop_last(), ansi) + "\n"@ + note_block(text, notes.last(), ansi)
    }
}

/// The closing help line after a blank line, if there is a help text.
pub open spec fn help_block(help: Option<Seq<char>>) -> Seq<char> {
    match help {
        Some(h) => "\n"@ + "help: "@ + h + "\n"@,
        None => Seq::empty(),
    }
}

/// The header and the source block of the primary span.
pub open spec fn primary_block(d: DiagnosticView, text: Seq<char>, ansi: bool) -> Seq<char> {
    header(d.severity, d.message, ansi) + span_block(text, d.span, ansi)
}

/// The rendered text of a diagnostic against the source text `text`.
pub open spec fn rendered(d: DiagnosticView, text: Seq<char>, ansi: bool) -> Seq<char> {
    if d.severity == Severity::Note || d.severity == Severity::Help {
        if d.span.start == d.span.end {
            header(d.severity, d.message, ansi)
        } else {
            primary_block(d, text, ansi)
        }
    } else {
        primary_block(d, text, ansi) + labels_block(text, d.span, d.secondary) + notes_block(
            text,
            d.notes,
            ansi,
        ) + help_block(d.help)
    }
}

/// A span of no width still gets one caret: where `start == end`, the
/// caret run of the span's source block is exactly one `^`.
pub proof fn law_zero_width_span_draws_one_caret(text: Seq<char>, span: Span)
    requires
        span.start == span.end,
    ensures
        caret_width(text, span) == 1,
        repeat('^', caret_width(text, span) as nat) == seq!['^'],
{
    assert(repeat('^', 1) =~= seq!['^']);
}

/// However wide the span and however short the line, a caret line holds
/// at least one caret, and its carets end within the line where the
/// line has room for one.
pub proof fn law_caret_run_fits(text: Seq<char>, span: Span)
    ensures
        caret_width(text, span) >= 1,
        0 <= caret_column(text, span) <= span_line_len(text, span),
        caret_column(text, span) < span_line_len(text, span) ==> caret_column(text, span)
            + caret_width(text, span) <= span_line_len(text, span),
{
    lemma_line_starts(text);
    lemma_line_index(line_starts(text), span.start as int);
}

/// Secondary labels never move the primary caret: attaching a label
/// leaves the header and the primary source block as they were, and what
/// is rendered for an error or a warning begins with exactly that block,
/// with or without labels.
pub proof fn law_labels_keep_primary_caret(
    d: DiagnosticView,
    span: Span,
    label: Seq<char>,
    text: Seq<char>,
    ansi: bool,
)
    ensures
        caret_column(text, d.with_secondary(span, label).span) == caret_column(text, d.span),
        primary_block(d.with_secondary(span, label), text, ansi) == primary_block(d, text, ansi),
        d.severity == Severity::Error || d.severity == Severity::Warning ==> {
            let plain = rendered(d, text, ansi);
            let labelled = rendered(d.with_secondary(span, label), text, ansi);
            let primary = primary_block(d, text, ansi);
            &&& primary.len() <= plain.len()
            &&& primary.len() <= labelled.len()
            &&& plain.take(primary.len() as int) == primary
            &&& labelled.take(primary.len() as int) == primary
        },
{
    if d.severity == Severity::Error || d.severity == Severity::Warning {
        let plain = rendered(d, text, ansi);
        let labelled = rendered(d.with_secondary(span, label), text, ansi);
        let primary = primary_block(d, text, ansi);
        assert(plain.take(primary.len() as int) =~= primary);
        assert(labelled.take(primary.len() as int) =~= primary);
    }
}

/// A span that starts exactly on a newline byte has its caret at the end
/// of the line which that newline ends, not at the start of the next
/// line: the span's line is the one whose text ends at the newline, and
/// the caret column is that line's length.
pub proof fn law_newline_start_renders_at_line_end(text: Seq<char>, span: Span)
    requires
        newline_at(text, span.start as int),
    ensures
        caret_column(text, span) == span_line_len(text, span),
        line_starts(text)[span_line(text, span)] + span_line_len(text, span) == span.start,
        span_line(text, span) + 1 < line_starts(text).len(),
        line_starts(text)[span_line(text, span) + 1] == span.start + 1,
{
    crate::compiler::error::lemma_newline_ends_its_line(text, span.start as int);
}

fn style_of(severity: Severity) -> (style: Style)
    ensures
        style == Style::of(severity),
{
    match severity {
        Severity::Error => Style::Error,
        Severity::Warning => Style::Warning,
        Severity::Note => Style::Note,
        Severity::Help => Style::Help,
    }
}

fn name_of(severity: Severity) -> (name: &'static str)
    ensures
        name@ == severity_name(severity),
{
    match severity {
        Severity::Error => "error",
        Severity::Warning => "warning",
        Severity::Note => "note",
        Severity::Help => "help",
    }
}

/// `text` in style `style`, with colour codes where `ansi` is set.
fn apply_ansi(style: Style, text: &str, ansi: bool) -> (out: String)
    ensures
        out@ == styled(style, text@, ansi),
{
    if !ansi {
        return text.to_owned();
    }
    let code = match style {
        Style::Error => "\x1b[38;5;88m",
        Style::Warning => "\x1b[38;5;202m",
        Style::Note => "\x1b[38;5;94m",
        Style::Help => "\x1b[38;5;64m",
        Style::Caret => "\x1b[38;5;135m",
        Style::Plain => {
            return text.to_owned();
        },
    };
    let mut out = code.to_owned();
    out.append(text);
    out.append("\x1b[39m");
    out
}

fn write_styled(out: &mut String, style: Style, text: &str, ansi: bool)
    ensures
        final(out)@ == old(out)@ + styled(style, text@, ansi),
{
    let piece = apply_ansi(style, text, ansi);
    out.append(piece.as_str());
}

fn render_header(severity: Severity, message: &str, ansi: bool) -> (out: String)
    ensures
        out@ == header(severity, message@, ansi),
{
    let mut line = name_of(severity).to_owned();
    line.append(": ");
    line.append(message);
    line.append("\n");
    apply_ansi(style_of(severity), line.as_str(), ansi)
}

/// Where the carets of a span go: the 0-based line, the start's distance
/// from the line start, the first caret's column and the number of carets.
struct Caret {
    line: usize,
    offset: usize,
    column: usize,
    width: usize,
}

fn place_caret(source: &Source, span: Span) -> (c: Caret)
    ensures
        c.line == span_line(source.text(), span),
        c.line < source.line_count() <= usize::MAX,
        c.offset == span.start - line_starts(source.text())[c.line as int],
        c.column == caret_column(source.text(), span),
        c.width == caret_width(source.text(), span),
{
    let (line, offset) = source.locate(span.start);
    let line_len = str_byte_len(source.line_text(line + 1));
    let column = if source.is_newline_at(span.start) || offset > line_len {
        line_len
    } else {
        offset
    };
    let wide = if span.end >= span.start {
        span.end - span.start
    } else {
        0
    };
    let room = line_len - column;
    let clamped = if wide <= room {
        wide
    } else {
        room
    };
    let width = if clamped >= 1 {
        clamped
    } else {
        1
    };
    Caret { line, offset, column, width }
}

/// Renders the source block of `span`.
fn render_span_block(source: &Source, span: Span, ansi: bool) -> (out: String)
    ensures
        out@ == span_block(source.text(), span, ansi),
{
    let caret = place_caret(source, span);
    let number: usize = caret.line + 1;
    let gutter_width = decimal_width(number);
    let mut out = " --> line ".to_owned();
    push_decimal(&mut out, number as u128);
    out.append(", column ");
    push_decimal(&mut out, caret.offset as u128 + 1);
    out.append("\n");
    push_repeat(&mut out, ' ', gutter_width);
    out.append(" |\n");
    push_decimal(&mut out, number as u128);
    out.append(" | ");
    out.append(source.line_text(number));
    out.append("\n");
    push_repeat(&mut out, ' ', gutter_width);
    out.append(" | ");
    push_repeat(&mut out, ' ', caret.column);
    let mut carets = String::new();
    push_repeat(&mut carets, '^', caret.width);
    assert(carets@ =~= repeat('^', caret.width as nat));
    write_styled(&mut out, Style::Caret, carets.as_str(), ansi);
    out.append("\n");
    out
}

/// Renders the secondary labels under the primary span.
fn render_secondary_labels(
    source: &Source,
    primary_span: Span,
    secondary: &Vec<(Span, &'static str)>,
) -> (out: String)
    ensures
        out@ == labels_block(
            source.text(),
            primary_span,
            crate::compiler::error::label_views(secondary@),
        ),
{
    let ghost labels = crate::compiler::error::label_views(secondary@);
    let mut out = String::new();
    if secondary.len() == 0 {
        return out;
    }
    let caret = place_caret(source, primary_span);
    let gutter_width = decimal_width(caret.line + 1);
    let dash_len: usize = if caret.column < 8 {
        caret.column
    } else {
        8
    };
    let mut i: usize = 0;
    assert(labels.take(0) =~= Seq::empty());
    while i < secondary.len()
        invariant
            i <= secondary@.len(),
            labels == crate::compiler::error::label_views(secondary@),
            out@ == labels_block(source.text(), primary_span, labels.take(i as int)),
            caret.line == span_line(source.text(), primary_span),
            caret.column == caret_column(source.text(), primary_span),
            gutter_width == decimal((caret.line + 1) as nat).len(),
            dash_len == dash_count(caret.column as int),
        decreases secondary@.len() - i,
    {
        let ghost before = out@;
        let label: &'static str = secondary[i].1;
        proof {
            assert(labels.take(i + 1).drop_last() =~= labels.take(i as int));
            assert(labels.take(i + 1).last().1 == label@);
        }
        if caret.column > 0 {
            let mut line = String::new();
            push_repeat(&mut line, ' ', gutter_width);
            line.append(" | ");
            push_repeat(&mut line, ' ', caret.column - dash_len);
            push_repeat(&mut line, '-', dash_len);
            line.append(" ");
            line.append(label);
            line.append("\n");
            assert(line@ =~= label_line(source.text(), primary_span, label@));
            out.append(line.as_str());
        } else {
            assert(out@ =~= before + label_line(source.text(), primary_span, label@));
        }
        i += 1;
    }
    assert(labels.take(i as int) =~= labels);
    out
}

/// Renders one note: header, and source block where the note has a span.
fn render_note(note: &Note, source: &Source, ansi: bool) -> (out: String)
    ensures
        out@ == note_block(source.text(), note@, ansi),
{
    let mut out = render_header(note.severity, note.message.as_str(), ansi);
    match note.span {
        Some(span) => {
            let block = render_span_block(source, span, ansi);
            out.append(block.as_str());
        },
        None => {},
    }
    out
}

/// Renders a diagnostic into its final text, with colour codes where
/// `ansi` is set.
pub fn render_styled(diagnostic: &Diagnostic, source: &Source, ansi: bool) -> (out: String)
    ensures
        out@ == rendered(diagnostic@, source.text(), ansi),
{
    let mut out = render_header(diagnostic.severity, diagnostic.message.as_str(), ansi);
    let quiet = match diagnostic.severity {
        Severity::Note => true,
        Severity::Help => true,
        _ => false,
    };
    if quiet && diagnostic.span.start == diagnostic.span.end {
        return out;
    }
    let block = render_span_block(source, diagnostic.span, ansi);
    out.append(block.as_str());
    if quiet {
        return out;
    }
    let labels = render_secondary_labels(source, diagnostic.span, &diagnostic.secondary);
    out.append(labels.as_str());
    let ghost notes = diagnostic@.notes;
    let mut rest = String::new();
    let mut i: usize = 0;
    assert(notes.take(0) =~= Seq::empty());
    while i < diagnostic.notes.len()
        invariant
            i <= diagnostic.notes@.len(),
            notes == diagnostic@.notes,
            rest@ == notes_block(source.text(), notes.take(i as int), ansi),
        decreases diagnostic.notes@.len() - i,
    {
        proof {
            assert(notes.take(i + 1).drop_last() =~= notes.take(i as int));
            assert(notes.take(i + 1).last() == diagnostic.notes@[i as int]@);
        }
        rest.append("\n");
        let block = render_note(&diagnostic.notes[i], source, ansi);
        rest.append(block.as_str());
        i += 1;
    }
    assert(notes.take(i as int) =~= notes);
    out.append(rest.as_str());
    let mut tail = String::new();
    match diagnostic.help {
        Some(help) => {
            tail.append("\n");
            tail.append("help: ");
            tail.append(help);
            tail.append("\n");
            assert(tail@ =~= help_block(diagnostic@.help));
        },
        None => {},
    }
    out.append(tail.as_str());
    out
}

/// Renders a diagnostic into its final text, without colour codes.
pub fn render(diagnostic: &Diagnostic, source: &Source) -> (out: String)
    ensures
        out@ == rendered(diagnostic@, source.text(), false),
{
    render_styled(diagnostic, source, false)
}

} // verus!
