use vstd::prelude::*;
use vstd::string::StringExecFns;

use crate::store::DocumentStore;
use crate::textlint::{
    fits_u32, text_fits, line_index, offset_character, offset_line, offset_to_position, Position,
    PositionEncoding, TextlintMessage,
};

verus! {

/// A single, independently applicable edit that carries out one message's
/// fix: replace the text between `start` and `end` by `new_text`.
#[derive(Clone, Debug)]
pub struct FixEdit {
    pub title: String,
    pub start: Position,
    pub end: Position,
    pub new_text: String,
}

/// The title offered for the fix of a message: `Fix: <message> (<rule>)`.
pub open spec fn fix_title(message: Seq<char>, rule_id: Seq<char>) -> Seq<char> {
    "Fix: "@ + message + " ("@ + rule_id + ")"@
}

/// Whether message `m` has a fix and lies on a 0-based line from `first` to
/// `last`, both included.
pub open spec fn fix_applies(m: TextlintMessage, first: u32, last: u32) -> bool {
    &&& m.fix is Some
    &&& first <= line_index(m.line) <= last
}

/// The messages of `msgs` whose fix is offered for lines `first` to `last`,
/// in their order.
pub open spec fn applicable(msgs: Seq<TextlintMessage>, first: u32, last: u32) -> Seq<
    TextlintMessage,
>
    decreases msgs.len(),
{
    if msgs.len() == 0 {
        Seq::empty()
    } else {
        let prev = applicable(msgs.drop_last(), first, last);
        if fix_applies(msgs.last(), first, last) {
            prev.push(msgs.last())
        } else {
            prev
        }
    }
}

/// `e` carries out the fix of message `m` against `text`, with positions in
/// encoding `enc`.
pub open spec fn edit_of(e: FixEdit, m: TextlintMessage, text: Seq<char>, enc: PositionEncoding) -> bool {
    let f = m.fix->Some_0;
    &&& m.fix is Some
    &&& e.start.line == offset_line(text, f.range[0] as nat)
    &&& e.start.character == offset_character(text, f.range[0] as nat, enc)
    &&& e.end.line == offset_line(text, f.range[1] as nat)
    &&& e.end.character == offset_character(text, f.range[1] as nat, enc)
    &&& e.new_text@ == f.text@
    &&& e.title@ == fix_title(m.message@, m.rule_id@)
}

/// Builds the title of the fix for a message.
fn title_for(m: &TextlintMessage) -> (r: String)
    ensures
        r@ == fix_title(m.message@, m.rule_id@),
{
    let mut t = String::from_str("Fix: ");
    t.append(m.message.as_str());
    t.append(" (");
    t.append(m.rule_id.as_str());
    t.append(")");
    t
}

/// The edits for the fixes of `messages` on the 0-based lines `first_line`
/// to `last_line`, both included, in the order of the messages. Positions are
/// computed against `text`; the ranges of the fixes are only exact when it is
/// the text that the messages were linted from.
pub fn build_fixes(
    text: &str,
    messages: &Vec<TextlintMessage>,
    first_line: u32,
    last_line: u32,
    encoding: PositionEncoding,
) -> (r: Vec<FixEdit>)
    requires
        fits_u32(text@),
    ensures
        r.len() == applicable(messages@, first_line, last_line).len(),
        forall|i: int|
            0 <= i < r.len() ==> edit_of(
                #[trigger] r@[i],
                applicable(messages@, first_line, last_line)[i],
                text@,
                encoding,
            ),
{
    let mut out: Vec<FixEdit> = Vec::new();
    let mut i: usize = 0;
    while i < messages.len()
        invariant
            fits_u32(text@),
            i <= messages.len(),
            out.len() == applicable(messages@.take(i as int), first_line, last_line).len(),
            forall|j: int|
                0 <= j < out.len() ==> edit_of(
                    #[trigger] out@[j],
                    applicable(messages@.take(i as int), first_line, last_line)[j],
                    text@,
                    encoding,
                ),
        decreases messages.len() - i,
    {
        let ghost before = applicable(messages@.take(i as int), first_line, last_line);
        proof {
            assert(messages@.take(i + 1).drop_last() =~= messages@.take(i as int));
        }
        let m = &messages[i];
        match &m.fix {
            None => {},
            Some(f) => {
                let line = m.line.saturating_sub(1);
                if first_line <= line && line <= last_line {
                    let start = offset_to_position(text, f.range[0], encoding);
                    let end = offset_to_position(text, f.range[1], encoding);
                    let title = title_for(m);
                    let ghost prev_out = out@;
                    out.push(FixEdit { title, start, end, new_text: f.text.clone() });
                    proof {
                        let after = applicable(messages@.take(i + 1), first_line, last_line);
                        assert(after == before.push(messages@[i as int]));
                        assert forall|j: int| 0 <= j < out.len() implies edit_of(
                            #[trigger] out@[j],
                            after[j],
                            text@,
                            encoding,
                        ) by {
                            if j < before.len() {
                                assert(out@[j] == prev_out[j]);
                            }
                        }
                    }
                }
            },
        }
        i = i + 1;
    }
    proof {
        assert(messages@.take(messages.len() as int) =~= messages@);
    }
    out
}

/// A message without a fix, or outside the requested lines, is never offered:
/// every offered message has a fix and lies on a requested line.
pub proof fn lemma_offered_have_fixes(msgs: Seq<TextlintMessage>, first: u32, last: u32)
    ensures
        forall|i: int|
            0 <= i < applicable(msgs, first, last).len() ==> fix_applies(
                #[trigger] applicable(msgs, first, last)[i],
                first,
                last,
            ),
    decreases msgs.len(),
{
    if msgs.len() > 0 {
        lemma_offered_have_fixes(msgs.drop_last(), first, last);
        let prev = applicable(msgs.drop_last(), first, last);
        assert forall|i: int|
            0 <= i < applicable(msgs, first, last).len() implies fix_applies(
            #[trigger] applicable(msgs, first, last)[i],
            first,
            last,
        ) by {
            if i < prev.len() {
                assert(applicable(msgs, first, last)[i] == prev[i]);
            }
        }
    }
}

/// The fixes offered for document `id` on the 0-based lines `first_line` to
/// `last_line`: `None` when the store holds no entry for it, when its text is
/// too long for 32-bit positions, or when no fix applies; otherwise the edits
/// of `build_fixes` against the stored text. Fixes are served from what the
/// store holds rather than by linting again: when the document was edited
/// since its last lint pass, the ranges of its messages may point at stale
/// content, a window that is accepted so that a request never waits for the
/// linter.
pub fn fixes_for(
    store: &DocumentStore,
    id: &str,
    first_line: u32,
    last_line: u32,
    encoding: PositionEncoding,
) -> (r: Option<Vec<FixEdit>>)
    ensures
        !store@.contains_key(id@) ==> r is None,
        store@.contains_key(id@) ==> ({
            let e = store@[id@];
            let offered = applicable(e.messages@, first_line, last_line);
            &&& (!fits_u32(e.text@) || offered.len() == 0) ==> r is None
            &&& (fits_u32(e.text@) && offered.len() > 0) ==> r is Some && r->Some_0.len()
                == offered.len() && forall|i: int|
                0 <= i < offered.len() ==> edit_of(
                    #[trigger] r->Some_0@[i],
                    offered[i],
                    e.text@,
                    encoding,
                )
        }),
{
    match store.get(id) {
        None => None,
        Some(entry) => {
            if !text_fits(entry.text.as_str()) {
                return None;
            }
            let edits = build_fixes(
                entry.text.as_str(),
                &entry.messages,
                first_line,
                last_line,
                encoding,
            );
            if edits.len() == 0 {
                None
            } else {
                Some(edits)
            }
        },
    }
}

} // verus!
