//! Spans, diagnostics and the source-position index.

use vstd::prelude::*;
use vstd::std_specs::convert::FromSpecImpl;
use vstd::utf8::*;
use crate::compiler::text::{
    byte_len, byte_offset, char_width, lemma_byte_len_concat, lemma_byte_len_push,
    lemma_byte_offset_bounds, lemma_width_is_encoding_len, push_char, str_byte_len,
};
use crate::compiler::token::TokenKind;

verus! {

/// A half-open byte range into the source text.
#[derive(Debug, Clone, Copy, PartialEq, Eq, Structural)]
pub struct Span {
    pub start: usize,
    pub end: usize,
}

/// High-level classification of parse errors.
#[derive(Debug, Clone, Copy, PartialEq, Eq, Structural)]
pub enum ErrorKind {
    /// A token appeared where it is not valid.
    UnexpectedToken,
    /// A required token or construct was missing.
    ExpectedToken,
    /// A definition required an identifier.
    ExpectedIdentifier,
    /// The parser reached the end of input unexpectedly.
    UnexpectedEof,
    /// A syntactically valid construct is illegal in this context.
    InvalidStatement,
    /// Tokens cannot form a valid expression in this context.
    InvalidExpression,
}

#[derive(Debug, Clone, Copy, PartialEq, Eq, Structural)]
pub enum Severity {
    Error,
    Warning,
    Note,
    Help,
}

/// Structured parse error with source location.
#[derive(Debug, Clone, PartialEq)]
pub struct ParseError {
    pub kind: ErrorKind,
    pub expected: Option<&'static str>,
    pub found: Option<TokenKind>,
    pub span: Span,
}

#[derive(Debug, Clone, PartialEq)]
pub struct Note {
    pub severity: Severity,
    pub message: String,
    pub span: Option<Span>,
}

#[derive(Debug, Clone, PartialEq)]
pub struct Diagnostic {
    pub severity: Severity,
    pub message: String,
    pub span: Span,
    pub help: Option<&'static str>,
    pub secondary: Vec<(Span, &'static str)>,
    pub notes: Vec<Note>,
}

pub struct ParseErrorView {
    pub kind: ErrorKind,
    pub expected: Option<Seq<char>>,
    pub found: Option<TokenKind>,
    pub span: Span,
}

pub struct NoteView {
    pub severity: Severity,
    pub message: Seq<char>,
    pub span: Option<Span>,
}

pub struct DiagnosticView {
    pub severity: Severity,
    pub message: Seq<char>,
    pub span: Span,
    pub help: Option<Seq<char>>,
    pub secondary: Seq<(Span, Seq<char>)>,
    pub notes: Seq<NoteView>,
}

/// The characters of an optional static text.
pub open spec fn text_view(t: Option<&'static str>) -> Option<Seq<char>> {
    match t {
        Some(s) => Some(s@),
        None => None,
    }
}

pub open spec fn label_views(labels: Seq<(Span, &'static str)>) -> Seq<(Span, Seq<char>)> {
    labels.map_values(|l: (Span, &'static str)| (l.0, l.1@))
}

pub open spec fn note_views(notes: Seq<Note>) -> Seq<NoteView> {
    notes.map_values(|n: Note| n@)
}

impl View for ParseError {
    type V = ParseErrorView;

    open spec fn view(&self) -> ParseErrorView {
        ParseErrorView {
            kind: self.kind,
            expected: text_view(self.expected),
            found: self.found,
            span: self.span,
        }
    }
}

impl View for Note {
    type V = NoteView;

    open spec fn view(&self) -> NoteView {
        NoteView { severity: self.severity, message: self.message@, span: self.span }
    }
}

impl View for Diagnostic {
    type V = DiagnosticView;

    open spec fn view(&self) -> DiagnosticView {
        DiagnosticView {
            severity: self.severity,
            message: self.message@,
            span: self.span,
            help: text_view(self.help),
            secondary: label_views(self.secondary@),
            notes: note_views(self.notes@),
        }
    }
}

impl ErrorKind {
    /// The one message each kind of parse error is reported with.
    pub open spec fn message(self) -> Seq<char> {
        match self {
            ErrorKind::UnexpectedToken => "unexpected token"@,
            ErrorKind::ExpectedToken => "expected token"@,
            ErrorKind::ExpectedIdentifier => "expected identifier"@,
            ErrorKind::UnexpectedEof => "unexpected end of input"@,
            ErrorKind::InvalidStatement => "invalid statement"@,
            ErrorKind::InvalidExpression => "invalid expression"@,
        }
    }
}

impl ParseErrorView {
    /// The diagnostic a parse error converts into: an error with the kind's
    /// message, the same span, and what was expected as its help text.
    pub open spec fn to_diagnostic(self) -> DiagnosticView {
        DiagnosticView {
            severity: Severity::Error,
            message: self.kind.message(),
            span: self.span,
            help: self.expected,
            secondary: Seq::empty(),
            notes: Seq::empty(),
        }
    }
}

impl DiagnosticView {
    /// A diagnostic with nothing attached.
    pub open spec fn bare(severity: Severity, message: Seq<char>, span: Span) -> DiagnosticView {
        DiagnosticView {
            severity,
            message,
            span,
            help: None,
            secondary: Seq::empty(),
            notes: Seq::empty(),
        }
    }

    /// An error with nothing attached.
    pub open spec fn error(message: Seq<char>, span: Span) -> DiagnosticView {
        Self::bare(Severity::Error, message, span)
    }

    pub open spec fn with_help(self, help: Seq<char>) -> DiagnosticView {
        DiagnosticView { help: Some(help), ..self }
    }

    pub open spec fn with_secondary(self, span: Span, label: Seq<char>) -> DiagnosticView {
        DiagnosticView { secondary: self.secondary.push((span, label)), ..self }
    }

    pub open spec fn with_note(self, note: NoteView) -> DiagnosticView {
        DiagnosticView { notes: self.notes.push(note), ..self }
    }
}

/// Attaching the help text, one secondary label and one note are
/// independent: in whatever order the three are attached, the diagnostic
/// is the same.
pub proof fn law_attachments_commute(
    d: DiagnosticView,
    help: Seq<char>,
    span: Span,
    label: Seq<char>,
    note: NoteView,
)
    ensures
        d.with_help(help).with_secondary(span, label) == d.with_secondary(span, label).with_help(
            help,
        ),
        d.with_help(help).with_note(note) == d.with_note(note).with_help(help),
        d.with_secondary(span, label).with_note(note) == d.with_note(note).with_secondary(
            span,
            label,
        ),
{
}

impl ParseError {
    pub fn unexpected_token(expected: &'static str, found: TokenKind, span: Span) -> (e: Self)
        ensures
            e@ == (ParseErrorView {
                kind: ErrorKind::UnexpectedToken,
                expected: Some(expected@),
                found: Some(found),
                span,
            }),
    {
        Self { kind: ErrorKind::UnexpectedToken, expected: Some(expected), found: Some(found), span }
    }

    pub fn expected_identifier(span: Span) -> (e: Self)
        ensures
            e@ == (ParseErrorView {
                kind: ErrorKind::ExpectedIdentifier,
                expected: Some("identifier"@),
                found: None,
                span,
            }),
    {
        Self {
            kind: ErrorKind::ExpectedIdentifier,
            expected: Some("identifier"),
            found: None,
            span,
        }
    }

    pub fn unexpected_eof(expected: &'static str, pos: usize) -> (e: Self)
        ensures
            e@ == (ParseErrorView {
                kind: ErrorKind::UnexpectedEof,
                expected: Some(expected@),
                found: Some(TokenKind::Eof),
                span: Span { start: pos, end: pos },
            }),
    {
        Self {
            kind: ErrorKind::UnexpectedEof,
            expected: Some(expected),
            found: Some(TokenKind::Eof),
            span: Span { start: pos, end: pos },
        }
    }
}

impl From<ParseError> for Diagnostic {
    fn from(err: ParseError) -> (d: Diagnostic)
        ensures
            d@ == err@.to_diagnostic(),
    {
        let message = match err.kind {
            ErrorKind::UnexpectedToken => "unexpected token",
            ErrorKind::ExpectedToken => "expected token",
            ErrorKind::ExpectedIdentifier => "expected identifier",
            ErrorKind::UnexpectedEof => "unexpected end of input",
            ErrorKind::InvalidStatement => "invalid statement",
            ErrorKind::InvalidExpression => "invalid expression",
        };
        let d = Diagnostic {
            severity: Severity::Error,
            message: message.to_owned(),
            span: err.span,
            help: err.expected,
            secondary: Vec::new(),
            notes: Vec::new(),
        };
        proof {
            assert(d@.secondary =~= Seq::empty());
            assert(d@.notes =~= Seq::empty());
        }
        d
    }
}

impl FromSpecImpl<ParseError> for Diagnostic {
    open spec fn obeys_from_spec() -> bool {
        false
    }

    open spec fn from_spec(err: ParseError) -> Diagnostic {
        arbitrary()
    }
}

impl Diagnostic {
    fn bare(severity: Severity, message: &str, span: Span) -> (d: Self)
        ensures
            d@ == DiagnosticView::bare(severity, message@, span),
    {
        let d = Self {
            severity,
            message: message.to_owned(),
            span,
            help: None,
            secondary: Vec::new(),
            notes: Vec::new(),
        };
        proof {
            assert(d@.secondary =~= Seq::empty());
            assert(d@.notes =~= Seq::empty());
        }
        d
    }

    pub fn error(message: &str, span: Span) -> (d: Self)
        ensures
            d@ == DiagnosticView::bare(Severity::Error, message@, span),
    {
        Self::bare(Severity::Error, message, span)
    }

    pub fn warning(message: &str, span: Span) -> (d: Self)
        ensures
            d@ == DiagnosticView::bare(Severity::Warning, message@, span),
    {
        Self::bare(Severity::Warning, message, span)
    }

    pub fn note(message: &str, span: Span) -> (d: Self)
        ensures
            d@ == DiagnosticView::bare(Severity::Note, message@, span),
    {
        Self::bare(Severity::Note, message, span)
    }

    pub fn help(message: &str, span: Span) -> (d: Self)
        ensures
            d@ == DiagnosticView::bare(Severity::Help, message@, span),
    {
        Self::bare(Severity::Help, message, span)
    }

    /// Sets the help text, replacing an earlier one.
    pub fn with_help(self, help: &'static str) -> (d: Self)
        ensures
            d@ == self@.with_help(help@),
    {
        let mut d = self;
        d.help = Some(help);
        d
    }

    /// Attaches one more secondary label, after those already attached.
    pub fn with_secondary(self, span: Span, label: &'static str) -> (d: Self)
        ensures
            d@ == self@.with_secondary(span, label@),
    {
        let mut d = self;
        d.secondary.push((span, label));
        proof {
            assert(d@.secondary =~= self@.secondary.push((span, label@)));
        }
        d
    }

    /// Attaches one more note, after those already attached.
    pub fn with_note(self, note: Note) -> (d: Self)
        ensures
            d@ == self@.with_note(note@),
    {
        let mut d = self;
        d.notes.push(note);
        proof {
            assert(d@.notes =~= self@.notes.push(note@));
        }
        d
    }
}

impl Note {
    pub fn note(message: &str, span: Option<Span>) -> (n: Self)
        ensures
            n@ == (NoteView { severity: Severity::Note, message: message@, span }),
    {
        Self { severity: Severity::Note, message: message.to_owned(), span }
    }

    pub fn help(message: &str, span: Option<Span>) -> (n: Self)
        ensures
            n@ == (NoteView { severity: Severity::Help, message: message@, span }),
    {
        Self { severity: Severity::Help, message: message.to_owned(), span }
    }

    pub fn warning(message: &str, span: Option<Span>) -> (n: Self)
        ensures
            n@ == (NoteView { severity: Severity::Warning, message: message@, span }),
    {
        Self { severity: Severity::Warning, message: message.to_owned(), span }
    }

    pub fn error(message: &str, span: Option<Span>) -> (n: Self)
        ensures
            n@ == (NoteView { severity: Severity::Error, message: message@, span }),
    {
        Self { severity: Severity::Error, message: message.to_owned(), span }
    }
}

/// Byte offsets at which the lines of `s` start: offset 0, then the offset
/// just past every newline, in order.
pub open spec fn line_starts(s: Seq<char>) -> Seq<int>
    decreases s.len(),
{
    if s.len() == 0 {
        seq![0int]
    } else if s.last() == '\n' {
        line_starts(s.drop_last()).push(byte_len(s) as int)
    } else {
        line_starts(s.drop_last())
    }
}

/// The lines of `s`, each without its newline. A text that ends in a
/// newline has an empty last line.
pub open spec fn lines(s: Seq<char>) -> Seq<Seq<char>>
    decreases s.len(),
{
    if s.len() == 0 {
        seq![Seq::<char>::empty()]
    } else if s.last() == '\n' {
        lines(s.drop_last()).push(Seq::empty())
    } else {
        let before = lines(s.drop_last());
        before.update(before.len() - 1, before.last().push(s.last()))
    }
}

/// Index of the last line that starts at or before `pos`. A position that
/// is exactly a line start belongs to that line.
pub open spec fn line_index(starts: Seq<int>, pos: int) -> int
    decreases starts.len(),
{
    if starts.len() <= 1 {
        0
    } else if starts.last() <= pos {
        starts.len() - 1
    } else {
        line_index(starts.drop_last(), pos)
    }
}

/// A newline character is encoded at byte offset `pos` of `s`.
pub open spec fn newline_at(s: Seq<char>, pos: int) -> bool {
    exists|j: int| 0 <= j < s.len() && s[j] == '\n' && #[trigger] byte_offset(s, j) == pos
}

pub open spec fn increasing(starts: Seq<int>) -> bool {
    forall|a: int, b: int| 0 <= a < b < starts.len() ==> starts[a] < starts[b]
}

pub proof fn lemma_line_starts(s: Seq<char>)
    ensures
        line_starts(s).len() == lines(s).len(),
        line_starts(s).len() >= 1,
        line_starts(s)[0] == 0,
        increasing(line_starts(s)),
        forall|k: int| 0 <= k < line_starts(s).len() ==> 0 <= #[trigger] line_starts(s)[k] <= byte_len(s),
        line_starts(s).last() + byte_len(lines(s).last()) == byte_len(s),
    decreases s.len(),
{
    if s.len() == 0 {
        crate::compiler::text::lemma_byte_len_empty();
    } else {
        let t = s.drop_last();
        lemma_line_starts(t);
        assert(s =~= t.push(s.last()));
        lemma_byte_len_push(t, s.last());
        if s.last() == '\n' {
            crate::compiler::text::lemma_byte_len_empty();
        } else {
            lemma_byte_len_push(lines(t).last(), s.last());
        }
    }
}

/// The line found for a position is the one whose start is the last at or
/// before it.
pub proof fn lemma_line_index(starts: Seq<int>, pos: int)
    requires
        starts.len() >= 1,
        increasing(starts),
        starts[0] <= pos,
    ensures
        0 <= line_index(starts, pos) < starts.len(),
        starts[line_index(starts, pos)] <= pos,
        forall|k: int| line_index(starts, pos) < k < starts.len() ==> pos < #[trigger] starts[k],
    decreases starts.len(),
{
    if starts.len() > 1 && starts.last() > pos {
        let head = starts.drop_last();
        assert forall|a: int, b: int| 0 <= a < b < head.len() implies head[a] < head[b] by {
            assert(head[a] == starts[a] && head[b] == starts[b]);
        }
        lemma_line_index(head, pos);
        assert forall|k: int| line_index(starts, pos) < k < starts.len() implies pos
            < #[trigger] starts[k] by {
            if k < head.len() {
                assert(head[k] == starts[k]);
            }
        }
    }
}

/// A byte offset past 0 starts a line exactly when a newline sits just
/// before it.
pub proof fn lemma_line_start_follows_newline(s: Seq<char>, pos: int)
    ensures
        newline_at(s, pos) <==> exists|k: int|
            1 <= k < line_starts(s).len() && #[trigger] line_starts(s)[k] == pos + 1,
    decreases s.len(),
{
    let starts = line_starts(s);
    if s.len() == 0 {
    } else {
        let t = s.drop_last();
        let n = t.len() as int;
        lemma_line_start_follows_newline(t, pos);
        lemma_line_starts(t);
        assert(s =~= t.push(s.last()));
        lemma_byte_len_push(t, s.last());
        assert forall|j: int| 0 <= j <= n implies byte_offset(s, j) == byte_offset(t, j) by {
            assert(s.take(j) =~= t.take(j));
        }
        lemma_byte_offset_bounds(t, n);
        if newline_at(s, pos) {
            let j = choose|j: int| 0 <= j < s.len() && s[j] == '\n' && #[trigger] byte_offset(s, j) == pos;
            if j < n {
                assert(t[j] == '\n' && byte_offset(t, j) == pos);
                assert(newline_at(t, pos));
                let k = choose|k: int|
                    1 <= k < line_starts(t).len() && #[trigger] line_starts(t)[k] == pos + 1;
                assert(starts[k] == pos + 1);
            } else {
                assert(starts[starts.len() - 1] == pos + 1);
            }
        }
        if exists|k: int| 1 <= k < starts.len() && #[trigger] starts[k] == pos + 1 {
            let k = choose|k: int| 1 <= k < starts.len() && #[trigger] starts[k] == pos + 1;
            if k < line_starts(t).len() {
                assert(line_starts(t)[k] == pos + 1);
                assert(newline_at(t, pos));
                let j = choose|j: int| 0 <= j < t.len() && t[j] == '\n' && #[trigger] byte_offset(t, j) == pos;
                assert(s[j] == '\n' && byte_offset(s, j) == pos);
            } else {
                assert(s[n] == '\n' && byte_offset(s, n) == pos);
            }
        }
    }
}

/// Only the newline character has the newline byte in its encoding.
proof fn lemma_scalar_newline(c: char, k: int)
    requires
        0 <= k < encode_scalar(c as u32).len(),
    ensures
        encode_scalar(c as u32)[k] == 0x0Au8 <==> c == '\n' && k == 0,
{
    let v = c as u32;
    char_is_scalar(c);
    assert(v <= 0x7F ==> (((v & 0x7F) as u8 == 0x0Au8) <==> v == 0x0A)) by (bit_vector);
    assert(forall|x: u8| 0xC0u8 | x != 0x0Au8) by (bit_vector);
    assert(forall|x: u8| 0xE0u8 | x != 0x0Au8) by (bit_vector);
    assert(forall|x: u8| 0xF0u8 | x != 0x0Au8) by (bit_vector);
    assert(forall|x: u8| 0x80u8 | x != 0x0Au8) by (bit_vector);
}

/// A newline character is encoded at `pos` exactly when the byte at
/// `pos` of the UTF-8 text is the newline byte.
pub proof fn lemma_newline_is_a_byte(s: Seq<char>, pos: int)
    ensures
        newline_at(s, pos) <==> 0 <= pos < encode_utf8(s).len() && encode_utf8(s)[pos] == 0x0Au8,
    decreases s.len(),
{
    if s.len() == 0 {
    } else {
        let c = s[0];
        let rest = s.drop_first();
        let head = encode_scalar(c as u32);
        let w = head.len() as int;
        lemma_width_is_encoding_len(c);
        lemma_newline_is_a_byte(rest, pos - w);
        assert(encode_utf8(s) == head + encode_utf8(rest));
        assert forall|j: int| 0 <= j <= rest.len() implies byte_offset(s, j + 1) == w
            + #[trigger] byte_offset(rest, j) by {
            assert(s.take(j + 1) =~= seq![c] + rest.take(j));
            lemma_byte_len_concat(seq![c], rest.take(j));
            assert(seq![c] =~= Seq::<char>::empty().push(c));
            lemma_byte_len_push(Seq::<char>::empty(), c);
            crate::compiler::text::lemma_byte_len_empty();
        }
        assert(s.take(0) =~= Seq::<char>::empty());
        assert(byte_offset(s, 0) == 0);
        if newline_at(s, pos) {
            let j = choose|j: int| 0 <= j < s.len() && s[j] == '\n' && #[trigger] byte_offset(s, j) == pos;
            if j == 0 {
                lemma_scalar_newline(c, 0);
            } else {
                assert(byte_offset(s, (j - 1) + 1) == w + byte_offset(rest, j - 1));
                assert(rest[j - 1] == '\n' && byte_offset(rest, j - 1) == pos - w);
                assert(newline_at(rest, pos - w));
            }
        }
        if 0 <= pos < encode_utf8(s).len() && encode_utf8(s)[pos] == 0x0Au8 {
            if pos < w {
                lemma_scalar_newline(c, pos);
                assert(s[0] == '\n' && byte_offset(s, 0) == pos);
            } else {
                assert(encode_utf8(rest)[pos - w] == 0x0Au8);
                assert(newline_at(rest, pos - w));
                let j = choose|j: int|
                    0 <= j < rest.len() && rest[j] == '\n' && #[trigger] byte_offset(rest, j) == pos
                        - w;
                assert(s[j + 1] == '\n' && byte_offset(s, j + 1) == pos);
            }
        }
    }
}

/// The line-start index holds offset 0 and, past that, exactly the
/// offsets that follow a newline byte.
pub proof fn law_lines_start_after_newline_bytes(s: Seq<char>, pos: int)
    requires
        pos >= 1,
    ensures
        (exists|k: int| 0 <= k < line_starts(s).len() && #[trigger] line_starts(s)[k] == pos) <==> pos
            <= encode_utf8(s).len() && encode_utf8(s)[pos - 1] == 0x0Au8,
        line_starts(s)[0] == 0,
{
    lemma_line_starts(s);
    lemma_line_start_follows_newline(s, pos - 1);
    lemma_newline_is_a_byte(s, pos - 1);
    if exists|k: int| 0 <= k < line_starts(s).len() && #[trigger] line_starts(s)[k] == pos {
        let k = choose|k: int| 0 <= k < line_starts(s).len() && #[trigger] line_starts(s)[k] == pos;
        assert(1 <= k < line_starts(s).len() && line_starts(s)[k] == (pos - 1) + 1);
    }
    if newline_at(s, pos - 1) {
        let k = choose|k: int|
            1 <= k < line_starts(s).len() && #[trigger] line_starts(s)[k] == (pos - 1) + 1;
        assert(0 <= k < line_starts(s).len() && line_starts(s)[k] == pos);
    }
}

/// Each line but the last is followed by one newline byte, after which
/// the next line starts.
pub proof fn lemma_line_lengths(s: Seq<char>, k: int)
    requires
        0 <= k < line_starts(s).len() - 1,
    ensures
        line_starts(s)[k] + byte_len(lines(s)[k]) + 1 == line_starts(s)[k + 1],
    decreases s.len(),
{
    if s.len() > 0 {
        let t = s.drop_last();
        lemma_line_starts(t);
        lemma_line_starts(s);
        assert(s =~= t.push(s.last()));
        lemma_byte_len_push(t, s.last());
        if s.last() == '\n' {
            if k < line_starts(t).len() - 1 {
                lemma_line_lengths(t, k);
            }
        } else {
            lemma_line_lengths(t, k);
        }
    }
}

/// A newline byte belongs to the line it ends: the line found for its
/// offset is the one whose text ends just before it.
pub proof fn lemma_newline_ends_its_line(s: Seq<char>, pos: int)
    requires
        newline_at(s, pos),
    ensures
        0 <= line_index(line_starts(s), pos) < line_starts(s).len() - 1,
        line_starts(s)[line_index(line_starts(s), pos)] + byte_len(
            lines(s)[line_index(line_starts(s), pos)],
        ) == pos,
        line_starts(s)[line_index(line_starts(s), pos) + 1] == pos + 1,
{
    let starts = line_starts(s);
    lemma_line_starts(s);
    lemma_line_start_follows_newline(s, pos);
    let k = choose|k: int| 1 <= k < starts.len() && #[trigger] starts[k] == pos + 1;
    assert(starts[k - 1] < starts[k]);
    assert(starts[0] <= pos);
    lemma_line_index(starts, pos);
    let found = line_index(starts, pos);
    if found >= k {
        assert(starts[k] <= starts[found]) by {
            if k < found {
                assert(starts[k] < starts[found]);
            }
        }
    }
    if found < k - 1 {
        assert(pos < starts[k - 1]);
    }
    lemma_line_lengths(s, k - 1);
}

/// Source text with a line-start index, for queries by byte offset.
#[derive(Debug)]
pub struct Source {
    text: String,
    line_starts: Vec<usize>,
    lines: Vec<String>,
}

impl Clone for Source {
    fn clone(&self) -> (copy: Self)
        ensures
            copy.text() == self.text(),
    {
        proof {
            use_type_invariant(self);
        }
        let mut lines: Vec<String> = Vec::new();
        let mut i: usize = 0;
        while i < self.lines.len()
            invariant
                i <= self.lines@.len(),
                lines@.len() == i,
                forall|k: int| 0 <= k < i ==> (#[trigger] lines@[k])@ == self.lines@[k]@,
            decreases self.lines@.len() - i,
        {
            lines.push(self.lines[i].clone());
            i += 1;
        }
        let mut starts: Vec<usize> = Vec::new();
        let mut j: usize = 0;
        while j < self.line_starts.len()
            invariant
                j <= self.line_starts@.len(),
                starts@.len() == j,
                forall|k: int| 0 <= k < j ==> #[trigger] starts@[k] == self.line_starts@[k],
            decreases self.line_starts@.len() - j,
        {
            starts.push(self.line_starts[j]);
            j += 1;
        }
        Source { text: self.text.clone(), line_starts: starts, lines }
    }
}

impl Source {
    #[verifier::type_invariant]
    spec fn inv(self) -> bool {
        &&& byte_len(self.text@) <= usize::MAX
        &&& self.line_starts@.len() == line_starts(self.text@).len()
        &&& forall|k: int|
            0 <= k < self.line_starts@.len() ==> #[trigger] self.line_starts@[k] == line_starts(
                self.text@,
            )[k]
        &&& self.lines@.len() == lines(self.text@).len()
        &&& forall|k: int|
            0 <= k < self.lines@.len() ==> (#[trigger] self.lines@[k])@ == lines(self.text@)[k]
    }

    /// The source text.
    pub closed spec fn text(&self) -> Seq<char> {
        self.text@
    }

    /// Number of lines; at least one.
    pub open spec fn line_count(&self) -> int {
        line_starts(self.text()).len() as int
    }

    /// The 1-based line and column of byte offset `pos`.
    pub open spec fn spec_line_col(&self, pos: int) -> (int, int) {
        let starts = line_starts(self.text());
        let line = line_index(starts, pos);
        (line + 1, pos - starts[line] + 1)
    }

    /// The text of the 1-based line `line`, without its newline.
    pub open spec fn spec_line_text(&self, line: int) -> Seq<char> {
        lines(self.text())[line - 1]
    }

    /// The byte at `pos` is a newline: see `lemma_newline_is_a_byte`.
    pub open spec fn spec_is_newline_at(&self, pos: int) -> bool {
        newline_at(self.text(), pos)
    }

    pub fn new(text: String) -> (source: Self)
        ensures
            source.text() == text@,
    {
        let mut starts: Vec<usize> = Vec::new();
        starts.push(0);
        let mut done: Vec<String> = Vec::new();
        let mut current = String::new();
        let mut offset: usize = 0;
        let total = str_byte_len(text.as_str());
        let ghost s = text@;
        proof {
            assert(s.take(0) =~= Seq::<char>::empty());
            crate::compiler::text::lemma_byte_len_empty();
        }
        for c in it: text.as_str().chars()
            invariant
                it.seq() == s,
                s == text@,
                total == byte_len(s),
                offset == byte_offset(s, it.index() as int),
                starts@.len() == line_starts(s.take(it.index() as int)).len(),
                forall|k: int|
                    0 <= k < starts@.len() ==> #[trigger] starts@[k] == line_starts(
                        s.take(it.index() as int),
                    )[k],
                done@.len() + 1 == lines(s.take(it.index() as int)).len(),
                forall|k: int|
                    0 <= k < done@.len() ==> (#[trigger] done@[k])@ == lines(
                        s.take(it.index() as int),
                    )[k],
                current@ == lines(s.take(it.index() as int)).last(),
        {
            let ghost i = it.index() as int;
            proof {
                crate::compiler::text::lemma_byte_offset_step(s, i);
                assert(s.take(i + 1).drop_last() =~= s.take(i));
                assert(s.take(i + 1).last() == c);
                lemma_line_starts(s.take(i));
            }
            offset = offset + char_width(c);
            if c == '\n' {
                starts.push(offset);
                done.push(current);
                current = String::new();
            } else {
                push_char(&mut current, c);
            }
        }
        proof {
            assert(s.take(s.len() as int) =~= s);
            lemma_line_starts(s);
        }
        done.push(current);
        Self { text, line_starts: starts, lines: done }
    }

    /// Index of the last line start at or before `pos`, by binary search.
    fn find_line(&self, pos: usize) -> (line: usize)
        ensures
            line == line_index(line_starts(self.text()), pos as int),
            line < self.line_count(),
    {
        proof {
            use_type_invariant(self);
            lemma_line_starts(self.text@);
            lemma_line_index(line_starts(self.text@), pos as int);
        }
        let ghost starts = line_starts(self.text@);
        let mut lo: usize = 0;
        let mut hi: usize = self.line_starts.len();
        while hi - lo > 1
            invariant
                0 <= lo < hi <= starts.len(),
                starts.len() == self.line_starts@.len(),
                forall|k: int| 0 <= k < starts.len() ==> #[trigger] self.line_starts@[k] == starts[k],
                increasing(starts),
                starts[lo as int] <= pos,
                hi < starts.len() ==> pos < starts[hi as int],
            decreases hi - lo,
        {
            let mid: usize = lo + (hi - lo) / 2;
            if self.line_starts[mid] <= pos {
                lo = mid;
            } else {
                hi = mid;
            }
        }
        proof {
            let found = line_index(starts, pos as int);
            if found < lo {
                assert(pos < starts[lo as int]);
            }
            if found > lo {
                assert(starts[hi as int] <= starts[found]) by {
                    if hi < found {
                        assert(starts[hi as int] < starts[found]);
                    }
                }
            }
        }
        lo
    }

    /// The 0-based line that holds byte offset `pos`, and the distance of
    /// `pos` from that line's start.
    pub(crate) fn locate(&self, pos: usize) -> (at: (usize, usize))
        ensures
            at.0 == line_index(line_starts(self.text()), pos as int),
            at.0 < self.line_count() <= usize::MAX,
            at.1 == pos - line_starts(self.text())[at.0 as int],
    {
        proof {
            use_type_invariant(self);
            lemma_line_starts(self.text@);
            lemma_line_index(line_starts(self.text@), pos as int);
        }
        let line = self.find_line(pos);
        assert(line < self.line_starts.len());
        (line, pos - self.line_starts[line])
    }

    /// The 1-based line and column of byte offset `pos`.
    pub fn line_col(&self, pos: usize) -> (lc: (usize, usize))
        requires
            pos < usize::MAX,
        ensures
            (lc.0 as int, lc.1 as int) == self.spec_line_col(pos as int),
            1 <= lc.0 <= self.line_count(),
            1 <= lc.1,
    {
        proof {
            use_type_invariant(self);
            lemma_line_starts(self.text@);
            lemma_line_index(line_starts(self.text@), pos as int);
        }
        let line = self.find_line(pos);
        assert(line < self.line_starts.len());
        let col = pos - self.line_starts[line];
        (line + 1, col + 1)
    }

    /// The text of the 1-based line `line`, without its newline.
    pub fn line_text(&self, line: usize) -> (text: &str)
        requires
            1 <= line <= self.line_count(),
        ensures
            text@ == self.spec_line_text(line as int),
    {
        proof {
            use_type_invariant(self);
            lemma_line_starts(self.text@);
        }
        self.lines[line - 1].as_str()
    }

    /// True iff the byte at `pos` is a newline.
    pub fn is_newline_at(&self, pos: usize) -> (b: bool)
        ensures
            b == self.spec_is_newline_at(pos as int),
            b == (pos < encode_utf8(self.text()).len() && encode_utf8(self.text())[pos as int]
                == 0x0Au8),
    {
        proof {
            use_type_invariant(self);
            lemma_line_starts(self.text@);
            lemma_line_start_follows_newline(self.text@, pos as int);
            lemma_newline_is_a_byte(self.text@, pos as int);
        }
        let ghost starts = line_starts(self.text@);
        if pos == usize::MAX {
            return false;
        }
        proof {
            lemma_line_index(starts, pos + 1);
        }
        let line = self.find_line(pos + 1);
        line > 0 && self.line_starts[line] == pos + 1
    }
}

} // verus!
