use vstd::prelude::*;

verus! {

/// The unit in which the `character` field of an editor position is counted,
/// as negotiated with the client once per session.
#[derive(Clone, Copy, Debug, PartialEq, Eq, Structural)]
pub enum PositionEncoding {
    Utf8,
    Utf16,
    Utf32,
}

impl Default for PositionEncoding {
    fn default() -> (r: Self)
        ensures
            r == PositionEncoding::Utf16,
    {
        PositionEncoding::Utf16
    }
}

/// An editor position: 0-based line, and 0-based count of units from the start
/// of that line in the session's encoding.
#[derive(Clone, Copy, Debug, PartialEq, Eq, Structural)]
pub struct Position {
    pub line: u32,
    pub character: u32,
}

/// Bytes that `c` takes in UTF-8.
pub open spec fn utf8_len(c: char) -> nat {
    let v = c as u32;
    if v < 0x80 {
        1
    } else if v < 0x800 {
        2
    } else if v < 0x10000 {
        3
    } else {
        4
    }
}

/// 16-bit code units that `c` takes in UTF-16: two for a surrogate pair.
pub open spec fn utf16_len(c: char) -> nat {
    if (c as u32) < 0x10000 {
        1
    } else {
        2
    }
}

/// Units that `c` takes in encoding `enc`.
pub open spec fn unit_len(c: char, enc: PositionEncoding) -> nat {
    match enc {
        PositionEncoding::Utf8 => utf8_len(c),
        PositionEncoding::Utf16 => utf16_len(c),
        PositionEncoding::Utf32 => 1,
    }
}

/// Units that the characters `s` take in encoding `enc`.
pub open spec fn units(s: Seq<char>, enc: PositionEncoding) -> nat
    decreases s.len(),
{
    if s.len() == 0 {
        0
    } else {
        units(s.drop_last(), enc) + unit_len(s.last(), enc)
    }
}

/// Number of line feeds in `s`.
pub open spec fn newlines(s: Seq<char>) -> nat
    decreases s.len(),
{
    if s.len() == 0 {
        0
    } else {
        newlines(s.drop_last()) + if s.last() == '\n' {
            1nat
        } else {
            0nat
        }
    }
}

/// The characters of `s` after its last line feed (all of `s` if it has none).
pub open spec fn line_tail(s: Seq<char>) -> Seq<char>
    decreases s.len(),
{
    if s.len() == 0 {
        s
    } else if s.last() == '\n' {
        Seq::empty()
    } else {
        line_tail(s.drop_last()).push(s.last())
    }
}

/// The first `k >= i` at which the first `k` characters of `s` take exactly
/// `offset` 16-bit units, or the length of `s` if there is none.
pub open spec fn stop_from(s: Seq<char>, offset: nat, i: nat) -> nat
    decreases s.len() - i,
{
    if i >= s.len() || units(s.take(i as int), PositionEncoding::Utf16) == offset {
        i
    } else {
        stop_from(s, offset, i + 1)
    }
}

/// How many characters of `s` precede the 16-bit offset `offset`: the scan
/// stops at the first character boundary that lies exactly at `offset`, and
/// runs to the end of `s` when there is none.
pub open spec fn stop_index(s: Seq<char>, offset: nat) -> nat {
    stop_from(s, offset, 0)
}

/// Line of the 16-bit offset `offset` in `s`.
pub open spec fn offset_line(s: Seq<char>, offset: nat) -> nat {
    newlines(s.take(stop_index(s, offset) as int))
}

/// Units in encoding `enc` between the start of its line and the 16-bit
/// offset `offset` in `s`.
pub open spec fn offset_character(s: Seq<char>, offset: nat, enc: PositionEncoding) -> nat {
    units(line_tail(s.take(stop_index(s, offset) as int)), enc)
}

/// Every count that a position in `s` can hold fits in 32 bits.
pub open spec fn fits_u32(s: Seq<char>) -> bool {
    units(s, PositionEncoding::Utf8) <= u32::MAX
}

/// Bytes that `c` takes in UTF-8.
pub fn char_utf8_len(c: char) -> (r: u32)
    ensures
        r == utf8_len(c),
{
    let v = c as u32;
    if v < 0x80 {
        1
    } else if v < 0x800 {
        2
    } else if v < 0x10000 {
        3
    } else {
        4
    }
}

/// 16-bit code units that `c` takes in UTF-16.
pub fn char_utf16_len(c: char) -> (r: u32)
    ensures
        r == utf16_len(c),
{
    if (c as u32) < 0x10000 {
        1
    } else {
        2
    }
}

/// Taking one more character extends the prefix by that character.
pub proof fn lemma_take_step(s: Seq<char>, k: int)
    requires
        0 <= k < s.len(),
    ensures
        s.take(k + 1).drop_last() == s.take(k),
        s.take(k + 1).last() == s[k],
        s.take(k + 1).len() == k + 1,
{
    assert(s.take(k + 1).drop_last() =~= s.take(k));
}

/// No encoding takes more units for a character than UTF-8 takes bytes.
pub proof fn lemma_units_le_utf8(p: Seq<char>, enc: PositionEncoding)
    ensures
        units(p, enc) <= units(p, PositionEncoding::Utf8),
        p.len() <= units(p, PositionEncoding::Utf8),
        newlines(p) <= p.len(),
    decreases p.len(),
{
    if p.len() > 0 {
        lemma_units_le_utf8(p.drop_last(), enc);
    }
}

/// The current line never takes more units than the whole prefix.
pub proof fn lemma_tail_le(p: Seq<char>, enc: PositionEncoding)
    ensures
        units(line_tail(p), enc) <= units(p, enc),
    decreases p.len(),
{
    if p.len() > 0 && p.last() != '\n' {
        lemma_tail_le(p.drop_last(), enc);
        let t = line_tail(p.drop_last());
        assert(t.push(p.last()).drop_last() =~= t);
    }
}

/// A prefix takes no more units than the whole.
pub proof fn lemma_prefix_le(s: Seq<char>, k: int, enc: PositionEncoding)
    requires
        0 <= k <= s.len(),
    ensures
        units(s.take(k), enc) <= units(s, enc),
    decreases s.len(),
{
    if k < s.len() {
        lemma_prefix_le(s.drop_last(), k, enc);
        assert(s.drop_last().take(k) =~= s.take(k));
    } else {
        assert(s.take(k) =~= s);
    }
}

/// Converts a 16-bit offset, as the linter counts, into a position in
/// encoding `encoding`. An offset past the end of `text`, or one inside a
/// surrogate pair, yields the position just past the last character; an
/// offset on a line feed yields the end of that line.
pub fn offset_to_position(text: &str, offset: usize, encoding: PositionEncoding) -> (r: Position)
    requires
        fits_u32(text@),
    ensures
        r.line == offset_line(text@, offset as nat),
        r.character == offset_character(text@, offset as nat, encoding),
{
    let ghost s = text@;
    let mut line: u32 = 0;
    let mut utf16_count: usize = 0;
    let mut col8: u32 = 0;
    let mut col16: u32 = 0;
    let mut col32: u32 = 0;
    let mut done: bool = false;
    let ghost mut k: int = 0;
    for ch in it: text.chars()
        invariant
            s == text@,
            it.seq() == s,
            fits_u32(s),
            0 <= k <= it.index() <= s.len(),
            !done ==> k == it.index(),
            done ==> stop_from(s, offset as nat, k as nat) == k,
            stop_from(s, offset as nat, k as nat) == stop_index(s, offset as nat),
            utf16_count == units(s.take(k), PositionEncoding::Utf16),
            line == newlines(s.take(k)),
            col8 == units(line_tail(s.take(k)), PositionEncoding::Utf8),
            col16 == units(line_tail(s.take(k)), PositionEncoding::Utf16),
            col32 == units(line_tail(s.take(k)), PositionEncoding::Utf32),
    {
        if !done {
            if utf16_count == offset {
                done = true;
            } else {
                proof {
                    lemma_take_step(s, k);
                    let p = s.take(k + 1);
                    lemma_prefix_le(s, k + 1, PositionEncoding::Utf8);
                    lemma_units_le_utf8(p, PositionEncoding::Utf16);
                    lemma_units_le_utf8(p, PositionEncoding::Utf32);
                    lemma_tail_le(p, PositionEncoding::Utf8);
                    lemma_tail_le(p, PositionEncoding::Utf16);
                    lemma_tail_le(p, PositionEncoding::Utf32);
                    if ch != '\n' {
                        let t = line_tail(s.take(k));
                        assert(t.push(ch).drop_last() =~= t);
                    }
                }
                let u8len = char_utf8_len(ch);
                let u16len = char_utf16_len(ch);
                if ch == '\n' {
                    line = line + 1;
                    col8 = 0;
                    col16 = 0;
                    col32 = 0;
                } else {
                    col8 = col8 + u8len;
                    col16 = col16 + u16len;
                    col32 = col32 + 1;
                }
                utf16_count = utf16_count + u16len as usize;
                proof {
                    k = k + 1;
                }
            }
        }
    }
    let character = match encoding {
        PositionEncoding::Utf8 => col8,
        PositionEncoding::Utf16 => col16,
        PositionEncoding::Utf32 => col32,
    };
    Position { line, character }
}

/// The characters of `s` from the start of its line `line` (0-based) on;
/// empty when `s` has no such line.
pub open spec fn from_line(s: Seq<char>, line: nat) -> Seq<char>
    decreases s.len(),
{
    if line == 0 || s.len() == 0 {
        s
    } else if s[0] == '\n' {
        from_line(s.drop_first(), (line - 1) as nat)
    } else {
        from_line(s.drop_first(), line)
    }
}

/// Units in encoding `enc` of the characters at the start of `s` that are
/// walked over while fewer than `budget` 16-bit units have been consumed,
/// stopping at the end of `s` or at a line feed.
pub open spec fn walk_units(s: Seq<char>, budget: int, enc: PositionEncoding) -> nat
    decreases s.len(),
{
    if s.len() == 0 || budget <= 0 || s[0] == '\n' {
        0
    } else {
        unit_len(s[0], enc) + walk_units(s.drop_first(), budget - utf16_len(s[0]), enc)
    }
}

/// The 0-based column in 16-bit units of the linter's 1-based column; a
/// column of 0 counts as 1.
pub open spec fn column_units16(column: nat) -> nat {
    if column == 0 {
        0
    } else {
        (column - 1) as nat
    }
}

/// The character, in encoding `enc`, of the linter's 1-based `column` (in
/// 16-bit units) on the 0-based line `line` of `s`, clamped to the end of
/// that line.
pub open spec fn column_character(s: Seq<char>, line: nat, column: nat, enc: PositionEncoding) -> nat {
    match enc {
        PositionEncoding::Utf16 => column_units16(column),
        _ => walk_units(from_line(s, line), column_units16(column) as int, enc),
    }
}

/// Converts the linter's 1-based column, counted in 16-bit units, on the
/// 0-based line `line_0based` into a 0-based character in `encoding`. A
/// column past the end of its line is clamped to the end of that line.
pub fn textlint_column_to_character(
    text: &str,
    line_0based: u32,
    column_1based: u32,
    encoding: PositionEncoding,
) -> (r: u32)
    requires
        fits_u32(text@),
    ensures
        r == column_character(text@, line_0based as nat, column_1based as nat, encoding),
{
    if encoding == PositionEncoding::Utf16 {
        return column_1based.saturating_sub(1);
    }
    let target: u32 = column_1based.saturating_sub(1);
    let ghost s = text@;
    let ghost goal = walk_units(from_line(s, line_0based as nat), target as int, encoding);
    let mut remaining: u32 = line_0based;
    let mut walked: u32 = 0;
    let mut result: u32 = 0;
    let mut stopped: bool = false;
    proof {
        assert(s.skip(0) =~= s);
    }
    for ch in it: text.chars()
        invariant
            s == text@,
            it.seq() == s,
            fits_u32(s),
            encoding != PositionEncoding::Utf16,
            target == column_units16(column_1based as nat),
            goal == walk_units(from_line(s, line_0based as nat), target as int, encoding),
            0 <= it.index() <= s.len(),
            remaining > 0 ==> result == 0 && walked == 0 && !stopped && from_line(
                s.skip(it.index()),
                remaining as nat,
            ) == from_line(s, line_0based as nat),
            remaining == 0 && !stopped ==> result + walk_units(
                s.skip(it.index()),
                target - walked,
                encoding,
            ) == goal,
            stopped ==> result == goal,
            result <= units(s.take(it.index()), PositionEncoding::Utf8),
            walked <= units(s.take(it.index()), PositionEncoding::Utf8),
    {
        let ghost i = it.index();
        proof {
            lemma_take_step(s, i);
            lemma_prefix_le(s, i + 1, PositionEncoding::Utf8);
            assert(s.skip(i).drop_first() =~= s.skip(i + 1));
            assert(s.skip(i)[0] == ch);
        }
        if remaining > 0 {
            if ch == '\n' {
                remaining = remaining - 1;
                proof {
                    if remaining == 0 {
                        assert(from_line(s.skip(i + 1), 0) == s.skip(i + 1));
                    }
                }
            }
        } else if !stopped {
            if walked >= target || ch == '\n' {
                stopped = true;
            } else {
                let step: u32 = match encoding {
                    PositionEncoding::Utf8 => char_utf8_len(ch),
                    _ => 1,
                };
                result = result + step;
                walked = walked + char_utf16_len(ch);
            }
        }
    }
    proof {
        if !stopped {
            assert(s.skip(s.len() as int).len() == 0);
            if remaining > 0 {
                assert(from_line(s.skip(s.len() as int), remaining as nat) == s.skip(
                    s.len() as int,
                ));
            }
        }
    }
    result
}

/// One file's findings, as the linter reports them.
#[derive(Clone, Debug, PartialEq)]
pub struct TextlintResult {
    pub file_path: String,
    pub messages: Vec<TextlintMessage>,
}

/// One finding of the linter: `line` and `column` are 1-based, `column` in
/// 16-bit units; `severity` 1 is a warning and any other value an error.
#[derive(Clone, Debug, PartialEq)]
pub struct TextlintMessage {
    pub rule_id: String,
    pub message: String,
    pub line: u32,
    pub column: u32,
    pub severity: u32,
    pub fix: Option<FixCommand>,
}

/// A proposed replacement of the half-open range `[range[0], range[1])`,
/// counted in 16-bit units of the text that was linted, by `text`.
#[derive(Clone, Debug, PartialEq)]
pub struct FixCommand {
    pub range: [usize; 2],
    pub text: String,
}

/// The 0-based line of a linter's 1-based line; line 0 counts as line 1.
pub open spec fn line_index(line: u32) -> u32 {
    if line == 0 {
        0
    } else {
        (line - 1) as u32
    }
}

/// Every character of `s` is ASCII.
pub open spec fn ascii_text(s: Seq<char>) -> bool {
    forall|i: int| 0 <= i < s.len() ==> (s[i] as u32) < 0x80
}

/// In ASCII text every encoding counts one unit per character.
pub proof fn lemma_ascii_units(p: Seq<char>, enc: PositionEncoding)
    requires
        ascii_text(p),
    ensures
        units(p, enc) == p.len(),
        units(line_tail(p), enc) == line_tail(p).len(),
    decreases p.len(),
{
    if p.len() > 0 {
        let q = p.drop_last();
        assert(ascii_text(q));
        assert((p.last() as u32) < 0x80);
        lemma_ascii_units(q, enc);
        if p.last() != '\n' {
            let t = line_tail(q);
            assert(t.push(p.last()).drop_last() =~= t);
        }
    }
}

/// On ASCII text, an offset yields the same position in every encoding.
pub proof fn lemma_ascii_encodings_agree(
    s: Seq<char>,
    offset: nat,
    a: PositionEncoding,
    b: PositionEncoding,
)
    requires
        ascii_text(s),
    ensures
        offset_character(s, offset, a) == offset_character(s, offset, b),
{
    let p = s.take(stop_index(s, offset) as int);
    assert(stop_index(s, offset) <= s.len()) by {
        lemma_stop_from_le(s, offset, 0);
    }
    assert(ascii_text(p));
    lemma_ascii_units(p, a);
    lemma_ascii_units(p, b);
}

/// The scan never stops past the end of the text.
pub proof fn lemma_stop_from_le(s: Seq<char>, offset: nat, i: nat)
    requires
        i <= s.len(),
    ensures
        i <= stop_from(s, offset, i) <= s.len(),
    decreases s.len() - i,
{
    if i < s.len() && units(s.take(i as int), PositionEncoding::Utf16) != offset {
        lemma_stop_from_le(s, offset, i + 1);
    }
}

/// A column of 0 is read as column 1.
pub proof fn lemma_column_zero_is_one(s: Seq<char>, line: nat, enc: PositionEncoding)
    ensures
        column_character(s, line, 0, enc) == column_character(s, line, 1, enc),
{
}

/// The messages of all `results`, file after file, each file's in order.
pub open spec fn all_messages(results: Seq<TextlintResult>) -> Seq<TextlintMessage>
    decreases results.len(),
{
    if results.len() == 0 {
        Seq::empty()
    } else {
        all_messages(results.drop_last()) + results.last().messages@
    }
}

/// Gathers the messages of all files of one lint pass, in order.
pub fn flatten_messages(results: Vec<TextlintResult>) -> (r: Vec<TextlintMessage>)
    ensures
        r@ == all_messages(results@),
{
    let ghost rs = results@;
    let mut out: Vec<TextlintMessage> = Vec::new();
    for res in it: results.into_iter()
        invariant
            it.seq() == rs,
            0 <= it.index() <= rs.len(),
            out@ == all_messages(rs.take(it.index())),
    {
        let ghost i = it.index();
        proof {
            assert(rs.take(i + 1).drop_last() =~= rs.take(i));
        }
        let mut ms = res.messages;
        out.append(&mut ms);
    }
    proof {
        assert(rs.take(rs.len() as int) =~= rs);
    }
    out
}

/// Whether every count that a position in `text` can hold fits in 32 bits,
/// which the conversions ask of their text.
pub fn text_fits(text: &str) -> (r: bool)
    ensures
        r == fits_u32(text@),
{
    let ghost s = text@;
    let mut total: u32 = 0;
    let mut over: bool = false;
    for ch in it: text.chars()
        invariant
            s == text@,
            it.seq() == s,
            0 <= it.index() <= s.len(),
            !over ==> total == units(s.take(it.index()), PositionEncoding::Utf8),
            over ==> units(s.take(it.index()), PositionEncoding::Utf8) > u32::MAX,
    {
        let ghost i = it.index();
        proof {
            lemma_take_step(s, i);
        }
        if !over {
            let step = char_utf8_len(ch);
            if total > u32::MAX - step {
                over = true;
            } else {
                total = total + step;
            }
        }
    }
    proof {
        assert(s.take(s.len() as int) =~= s);
    }
    !over
}

/// Units in encoding `enc` before the start of line `line` of `s`.
pub open spec fn line_start_units(s: Seq<char>, line: nat, enc: PositionEncoding) -> nat {
    units(s.take(s.len() - from_line(s, line).len()), enc)
}

/// Skipping `a` lines and then `b` more is skipping `a + b` lines.
pub proof fn lemma_from_line_add(s: Seq<char>, a: nat, b: nat)
    ensures
        from_line(s, a + b) == from_line(from_line(s, a), b),
    decreases s.len(),
{
    if a > 0 && s.len() > 0 {
        if s[0] == '\n' {
            lemma_from_line_add(s.drop_first(), (a - 1) as nat, b);
            assert((a - 1) as nat + b == (a + b - 1) as nat);
        } else {
            lemma_from_line_add(s.drop_first(), a, b);
        }
    }
}

/// From index `j`, with no line feed before the one at `k`, the next line
/// starts just after `k`.
pub proof fn lemma_next_line(s: Seq<char>, j: int, k: int)
    requires
        0 <= j <= k < s.len(),
        s[k] == '\n',
        forall|i: int| j <= i < k ==> s[i] != '\n',
    ensures
        from_line(s.skip(j), 1) == s.skip(k + 1),
    decreases k - j,
{
    assert(s.skip(j).drop_first() =~= s.skip(j + 1));
    assert(s.skip(j)[0] == s[j]);
    if j < k {
        lemma_next_line(s, j + 1, k);
    } else {
        assert(from_line(s.skip(j + 1), 0) == s.skip(j + 1));
    }
}

/// The current line is a suffix of the prefix and holds no line feed.
pub proof fn lemma_line_tail_suffix(p: Seq<char>)
    ensures
        line_tail(p).len() <= p.len(),
        line_tail(p) == p.skip(p.len() - line_tail(p).len()),
        forall|i: int| 0 <= i < line_tail(p).len() ==> line_tail(p)[i] != '\n',
    decreases p.len(),
{
    if p.len() == 0 {
        assert(p.skip(0) =~= p);
    } else if p.last() == '\n' {
        assert(p.skip(p.len() as int) =~= Seq::<char>::empty());
    } else {
        let q = p.drop_last();
        lemma_line_tail_suffix(q);
        let t = line_tail(q);
        assert(t.push(p.last()) =~= p.skip(p.len() - (t.len() + 1)));
    }
}

/// The line of the first `k` characters of `s` starts where their current
/// line does.
pub proof fn lemma_line_start(s: Seq<char>, k: int)
    requires
        0 <= k <= s.len(),
    ensures
        line_tail(s.take(k)).len() <= k,
        from_line(s, newlines(s.take(k))) == s.skip(k - line_tail(s.take(k)).len()),
    decreases k,
{
    let p = s.take(k);
    lemma_line_tail_suffix(p);
    if k == 0 {
        assert(s.skip(0) =~= s);
    } else {
        lemma_line_start(s, k - 1);
        lemma_take_step(s, k - 1);
        let q = s.take(k - 1);
        let n = newlines(q);
        let t = line_tail(q).len();
        if s[k - 1] == '\n' {
            lemma_line_tail_suffix(q);
            lemma_from_line_add(s, n, 1);
            assert forall|i: int| k - 1 - t <= i < k - 1 implies s[i] != '\n' by {
                assert(s[i] == q[i]);
                assert(q[i] == line_tail(q)[i - (k - 1 - t)]);
            }
            lemma_next_line(s, k - 1 - t, k - 1);
        } else {
            let tl = line_tail(q);
            assert(tl.push(s[k - 1]).len() == t + 1);
        }
    }
}

/// Where the scan counts one unit per character, it stops at the offset.
pub proof fn lemma_ascii_stop(s: Seq<char>, offset: nat, i: nat)
    requires
        ascii_text(s),
        i <= offset <= s.len(),
    ensures
        stop_from(s, offset, i) == offset,
    decreases offset - i,
{
    assert(ascii_text(s.take(i as int)));
    lemma_ascii_units(s.take(i as int), PositionEncoding::Utf16);
    if i < offset {
        lemma_ascii_stop(s, offset, i + 1);
    }
}

/// On ASCII text, the offset of a position's line start plus its character
/// gives back the offset the position was computed from, in every encoding.
pub proof fn lemma_ascii_round_trip(s: Seq<char>, offset: nat, enc: PositionEncoding)
    requires
        ascii_text(s),
        offset <= s.len(),
    ensures
        line_start_units(s, offset_line(s, offset), enc) + offset_character(s, offset, enc)
            == offset,
{
    lemma_ascii_stop(s, offset, 0);
    let k = offset as int;
    let p = s.take(k);
    lemma_line_start(s, k);
    let t = line_tail(p).len();
    assert(from_line(s, newlines(p)).len() == s.len() - (k - t));
    assert(ascii_text(p));
    lemma_ascii_units(p, enc);
    assert(ascii_text(s.take(k - t)));
    lemma_ascii_units(s.take(k - t), enc);
}

/// The encoding of a session: the first of those that the client offers, in
/// its order of preference; UTF-16, which every client supports, when it
/// offers none.
pub fn negotiate_encoding(offered: &Vec<PositionEncoding>) -> (r: PositionEncoding)
    ensures
        offered.len() > 0 ==> r == offered@[0],
        offered.len() == 0 ==> r == PositionEncoding::Utf16,
{
    if offered.len() > 0 {
        offered[0]
    } else {
        PositionEncoding::Utf16
    }
}

} // verus!
