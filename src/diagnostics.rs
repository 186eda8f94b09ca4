use vstd::prelude::*;

use crate::store::{DocumentEntry, DocumentStore};
use crate::textlint::{
    all_messages, column_character, fits_u32, flatten_messages, text_fits, TextlintResult, line_index, textlint_column_to_character, Position,
    PositionEncoding, TextlintMessage,
};

verus! {

/// How serious a published diagnostic is.
#[derive(Clone, Copy, Debug, PartialEq, Eq, Structural)]
pub enum Severity {
    Warning,
    Error,
}

/// A diagnostic to publish for a document. It is zero-width: `start` and
/// `end` are the position that the linter reported.
#[derive(Clone, Debug)]
pub struct Diagnostic {
    pub start: Position,
    pub end: Position,
    pub severity: Severity,
    pub rule_id: String,
    pub message: String,
}

/// Severity 1 is a warning; every other value, including ones the linter may
/// add later, is an error.
pub open spec fn severity_of(severity: u32) -> Severity {
    if severity == 1 {
        Severity::Warning
    } else {
        Severity::Error
    }
}

/// `d` is the diagnostic for message `m` of text `text` in encoding `enc`.
pub open spec fn diagnostic_of(
    d: Diagnostic,
    m: TextlintMessage,
    text: Seq<char>,
    enc: PositionEncoding,
) -> bool {
    &&& d.start == d.end
    &&& d.start.line == line_index(m.line)
    &&& d.start.character == column_character(
        text,
        line_index(m.line) as nat,
        m.column as nat,
        enc,
    )
    &&& d.severity == severity_of(m.severity)
    &&& d.rule_id@ == m.rule_id@
    &&& d.message@ == m.message@
}

/// Maps a severity of the linter to that of a diagnostic.
pub fn severity_from(severity: u32) -> (r: Severity)
    ensures
        r == severity_of(severity),
{
    if severity == 1 {
        Severity::Warning
    } else {
        Severity::Error
    }
}

/// Turns the linter's messages about `text` into diagnostics, one per
/// message and in the same order, with positions in `encoding`.
pub fn build_diagnostics(
    messages: &Vec<TextlintMessage>,
    encoding: PositionEncoding,
    text: &str,
) -> (r: Vec<Diagnostic>)
    requires
        fits_u32(text@),
    ensures
        r.len() == messages.len(),
        forall|i: int|
            0 <= i < r.len() ==> diagnostic_of(#[trigger] r@[i], messages@[i], text@, encoding),
{
    let mut out: Vec<Diagnostic> = Vec::new();
    let mut i: usize = 0;
    while i < messages.len()
        invariant
            fits_u32(text@),
            i <= messages.len(),
            out.len() == i,
            forall|j: int|
                0 <= j < i ==> diagnostic_of(#[trigger] out@[j], messages@[j], text@, encoding),
        decreases messages.len() - i,
    {
        let m = &messages[i];
        let line = m.line.saturating_sub(1);
        let character = textlint_column_to_character(text, line, m.column, encoding);
        let at = Position { line, character };
        out.push(
            Diagnostic {
                start: at,
                end: at,
                severity: severity_from(m.severity),
                rule_id: m.rule_id.clone(),
                message: m.message.clone(),
            },
        );
        i = i + 1;
    }
    out
}

/// Takes in one lint pass of document `id`, run on `text`: records `text`
/// with all messages of `results` as the document's entry, in one step, and
/// returns the diagnostics to publish for them. A text too long for 32-bit
/// positions is recorded with its messages but yields no diagnostics.
pub fn record_lint_pass(
    store: &mut DocumentStore,
    id: &str,
    text: String,
    results: Vec<TextlintResult>,
    encoding: PositionEncoding,
) -> (r: Vec<Diagnostic>)
    ensures
        final(store)@ == old(store)@.insert(
            id@,
            DocumentEntry { text, messages: final(store)@[id@].messages },
        ),
        final(store)@[id@].messages@ == all_messages(results@),
        !fits_u32(text@) ==> r.len() == 0,
        fits_u32(text@) ==> r.len() == all_messages(results@).len() && forall|i: int|
            0 <= i < r.len() ==> diagnostic_of(
                #[trigger] r@[i],
                all_messages(results@)[i],
                text@,
                encoding,
            ),
{
    let messages = flatten_messages(results);
    let diagnostics = if text_fits(text.as_str()) {
        build_diagnostics(&messages, encoding, text.as_str())
    } else {
        Vec::new()
    };
    store.upsert(id, text, messages);
    diagnostics
}

} // verus!
