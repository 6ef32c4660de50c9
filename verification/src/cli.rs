//! What the command line computes before it prints or writes: where a
//! diagnostic points in the source, the report printed for it, the page
//! limit given on the command line, and output file names.
use vstd::prelude::*;

use crate::diagnostic::{Diagnostic, Severity, SourceRange, diagnostics_view};
use crate::model::{find_char_after, first_index_of};
use crate::text::{
    byte_len, char_width, chars_of, decimal, lemma_utf8_len_monotonic, lemma_utf8_len_take_step,
    push_char, push_decimal, push_str, string_from_range, utf8_len,
};

verus! {

// ---------------------------------------------------------------------------
// Source locations
/// The character index at which byte `b` falls, rounded down to the start
/// of its character.
pub open spec fn floor_index(s: Seq<char>, b: nat) -> int {
    choose|i: int|
        0 <= i <= s.len() && utf8_len(#[trigger] s.take(i)) <= b && (i == s.len() || utf8_len(
            s.take(i + 1),
        ) > b)
}

/// The number of line feeds in `s`.
pub open spec fn line_feeds(s: Seq<char>) -> nat
    decreases s.len(),
{
    if s.len() == 0 {
        0
    } else {
        line_feeds(s.drop_last()) + if s.last() == '\n' {
            1nat
        } else {
            0nat
        }
    }
}

/// The index just after the last line feed of `s`, or 0.
pub open spec fn last_line_start(s: Seq<char>) -> int
    decreases s.len(),
{
    if s.len() == 0 {
        0
    } else if s.last() == '\n' {
        s.len() as int
    } else {
        last_line_start(s.drop_last())
    }
}

/// The number of carriage returns at the end of `s`.
pub open spec fn trailing_returns(s: Seq<char>) -> nat
    decreases s.len(),
{
    if s.len() == 0 || s.last() != '\r' {
        0
    } else {
        1 + trailing_returns(s.drop_last())
    }
}

/// A 1-based line and column, counted in characters, and the text of that
/// line without its line ending.
pub struct SourceLocation {
    pub line: usize,
    pub column: usize,
    pub text: String,
}

/// The value of a [`SourceLocation`].
pub struct SpecLocation {
    pub line: nat,
    pub column: nat,
    pub text: Seq<char>,
}

impl View for SourceLocation {
    type V = SpecLocation;

    open spec fn view(&self) -> SpecLocation {
        SpecLocation { line: self.line as nat, column: self.column as nat, text: self.text@ }
    }
}

/// Where byte `start` of `s` lies: clamped to the source, rounded down to a
/// character, with the line and column it falls on and the line's text.
pub open spec fn location_of(s: Seq<char>, start: nat) -> SpecLocation {
    let b = if start < utf8_len(s) {
        start
    } else {
        utf8_len(s)
    };
    let i = floor_index(s, b);
    let line_start = last_line_start(s.take(i));
    let line_end = match first_index_of(s.skip(i), '\n') {
        Some(k) => i + k,
        None => s.len() as int,
    };
    let line = s.subrange(line_start, line_end);
    SpecLocation {
        line: line_feeds(s.take(i)) + 1,
        column: (i - line_start + 1) as nat,
        text: line.take(line.len() - trailing_returns(line)),
    }
}

proof fn lemma_floor_index(s: Seq<char>, b: nat, i: int)
    requires
        0 <= i <= s.len(),
        utf8_len(s.take(i)) <= b,
        i == s.len() || utf8_len(s.take(i + 1)) > b,
    ensures
        floor_index(s, b) == i,
{
    let k = floor_index(s, b);
    assert(0 <= k <= s.len() && utf8_len(s.take(k)) <= b && (k == s.len() || utf8_len(
        s.take(k + 1),
    ) > b));
    if k < i {
        lemma_utf8_len_monotonic(s, k + 1, i);
    }
    if i < k {
        lemma_utf8_len_monotonic(s, i + 1, k);
    }
}

/// The character index at which byte `b` falls, rounded down.
fn floor_char_index(chars: &[char], b: usize) -> (i: usize)
    ensures
        i == floor_index(chars@, b as nat),
        i <= chars@.len(),
{
    let n = chars.len();
    let mut i: usize = 0;
    let mut offset: usize = 0;
    while i < n && char_width(chars[i]) <= b - offset
        invariant
            n == chars@.len(),
            i <= n,
            offset == utf8_len(chars@.take(i as int)),
            offset <= b,
        decreases n - i,
    {
        proof {
            lemma_utf8_len_take_step(chars@, i as int);
        }
        offset = offset + char_width(chars[i]);
        i = i + 1;
    }
    proof {
        if i < n {
            lemma_utf8_len_take_step(chars@, i as int);
        }
        lemma_floor_index(chars@, b as nat, i as int);
    }
    i
}

/// The line feeds among the first `i` characters, and where the line
/// holding character `i` starts.
fn line_facts(chars: &[char], i: usize) -> (facts: (usize, usize))
    requires
        i <= chars@.len(),
    ensures
        facts.0 == line_feeds(chars@.take(i as int)),
        facts.1 == last_line_start(chars@.take(i as int)),
        facts.0 <= i,
        facts.1 <= i,
{
    let mut feeds: usize = 0;
    let mut line_start: usize = 0;
    for k in 0..i
        invariant
            i <= chars@.len(),
            feeds == line_feeds(chars@.take(k as int)),
            line_start == last_line_start(chars@.take(k as int)),
            feeds <= k,
            line_start <= k,
    {
        let ghost t = chars@.take(k + 1);
        proof {
            assert(t.drop_last() =~= chars@.take(k as int));
            assert(t.last() == chars@[k as int]);
        }
        if chars[k] == '\n' {
            feeds = feeds + 1;
            line_start = k + 1;
        }
    }
    (feeds, line_start)
}

/// The characters `chars[from..to]` without carriage returns at the end.
fn line_text(chars: &[char], from: usize, to: usize) -> (text: String)
    requires
        from <= to <= chars@.len(),
    ensures
        text@ == chars@.subrange(from as int, to as int).take(
            chars@.subrange(from as int, to as int).len() - trailing_returns(
                chars@.subrange(from as int, to as int),
            ),
        ),
{
    let mut end = to;
    let ghost line = chars@.subrange(from as int, to as int);
    while end > from && chars[end - 1] == '\r'
        invariant
            from <= end <= to <= chars@.len(),
            line == chars@.subrange(from as int, to as int),
            trailing_returns(line) == (to - end) + trailing_returns(
                chars@.subrange(from as int, end as int),
            ),
        decreases end,
    {
        proof {
            let u = chars@.subrange(from as int, end as int);
            assert(u.drop_last() =~= chars@.subrange(from as int, end - 1));
        }
        end = end - 1;
    }
    proof {
        let u = chars@.subrange(from as int, end as int);
        assert(trailing_returns(u) == 0);
        assert(line.take(line.len() - trailing_returns(line)) =~= u);
    }
    string_from_range(chars, from, end)
}

/// Where `range` starts in `source`: the line and column, counted from 1 in
/// characters, and the text of that line.
pub fn source_location(source: &str, range: SourceRange) -> (location: SourceLocation)
    requires
        utf8_len(source@) < usize::MAX,
    ensures
        location@ == location_of(source@, range.start as nat),
        location.column >= 1,
{
    let length = byte_len(source);
    let chars = chars_of(source);
    let n = chars.len();
    let b = if range.start < length {
        range.start
    } else {
        length
    };
    let i = floor_char_index(chars.as_slice(), b);
    let (feeds, line_start) = line_facts(chars.as_slice(), i);
    proof {
        crate::text::lemma_encoded_len(source@);
        assert(n <= utf8_len(source@)) by {
            lemma_chars_at_most_bytes(chars@);
        }
    }
    let line_end = match find_char_after(chars.as_slice(), i, '\n') {
        Some(k) => i + k,
        None => n,
    };
    let text = line_text(chars.as_slice(), line_start, line_end);
    SourceLocation { line: feeds + 1, column: i - line_start + 1, text }
}

proof fn lemma_chars_at_most_bytes(s: Seq<char>)
    ensures
        s.len() <= utf8_len(s),
    decreases s.len(),
{
    if s.len() > 0 {
        lemma_chars_at_most_bytes(s.drop_last());
    }
}

// ---------------------------------------------------------------------------
// Reports
/// `n` spaces.
pub open spec fn spaces(n: nat) -> Seq<char> {
    Seq::new(n, |i: int| ' ')
}

/// The first line of a diagnostic's report.
pub open spec fn report_heading(input: Seq<char>, d: crate::diagnostic::SpecDiagnostic, location: Option<SpecLocation>) -> Seq<char> {
    let name = d.severity.name() + "["@ + d.code.name() + "]"@;
    match location {
        Some(l) => name + " at "@ + input + ":"@ + decimal(l.line) + ":"@ + decimal(l.column),
        None => name + " in "@ + input,
    }
}

/// The lines printed for a diagnostic of the source `source`, read from the
/// file named `input`: a heading with the place, the message, the source
/// line with a caret under the column when the line has text, and the help.
pub open spec fn report_lines(input: Seq<char>, source: Seq<char>, d: crate::diagnostic::SpecDiagnostic) -> Seq<
    Seq<char>,
> {
    let location = match d.range {
        Some(r) => Some(location_of(source, r.start as nat)),
        None => None,
    };
    let head = seq![report_heading(input, d, location), "  "@ + d.message];
    let excerpt = excerpt_lines(location);
    let help = match d.help {
        Some(h) => seq!["  help: "@ + h],
        None => seq![],
    };
    head + excerpt + help
}

pub open spec fn lines_view(lines: Seq<String>) -> Seq<Seq<char>> {
    lines.map_values(|l: String| l@)
}

fn push_line(lines: &mut Vec<String>, line: String)
    ensures
        lines_view(final(lines)@) == lines_view(old(lines)@).push(line@),
{
    lines.push(line);
    proof {
        assert(lines_view(lines@) =~= lines_view(old(lines)@).push(line@));
    }
}

/// The first line of a diagnostic's report.
fn report_heading_line(input: &str, diagnostic: &Diagnostic, location: &Option<SourceLocation>) -> (line: String)
    ensures
        line@ == report_heading(
            input@,
            diagnostic@,
            match location {
                Some(l) => Some(l@),
                None => None,
            },
        ),
{
    let mut heading = String::from_str(diagnostic.severity.as_str());
    push_str(&mut heading, "[");
    push_str(&mut heading, diagnostic.code.as_str());
    push_str(&mut heading, "]");
    match location {
        Some(l) => {
            push_str(&mut heading, " at ");
            push_str(&mut heading, input);
            push_str(&mut heading, ":");
            push_decimal(&mut heading, l.line as u64);
            push_str(&mut heading, ":");
            push_decimal(&mut heading, l.column as u64);
        },
        None => {
            push_str(&mut heading, " in ");
            push_str(&mut heading, input);
        },
    }
    heading
}

/// The source line and the caret under its column, when the line has text.
pub open spec fn excerpt_lines(location: Option<SpecLocation>) -> Seq<Seq<char>> {
    match location {
        Some(l) => if l.text.len() > 0 {
            seq!["  | "@ + l.text, "  | "@ + spaces((l.column - 1) as nat) + "^"@]
        } else {
            seq![]
        },
        None => seq![],
    }
}

fn excerpt(location: &Option<SourceLocation>) -> (lines: Vec<String>)
    requires
        location matches Some(l) ==> l.column >= 1,
    ensures
        lines_view(lines@) == excerpt_lines(
            match location {
                Some(l) => Some(l@),
                None => None,
            },
        ),
{
    let mut lines: Vec<String> = Vec::new();
    match location {
        Some(l) => {
            if !l.text.as_str().is_empty() {
                let mut text_line = String::from_str("  | ");
                push_str(&mut text_line, l.text.as_str());
                let mut caret = String::from_str("  | ");
                let width = l.column - 1;
                for k in 0..width
                    invariant
                        caret@ == "  | "@ + spaces(k as nat),
                {
                    push_char(&mut caret, ' ');
                    proof {
                        assert(spaces((k + 1) as nat) =~= spaces(k as nat).push(' '));
                        assert(caret@ =~= "  | "@ + spaces((k + 1) as nat));
                    }
                }
                push_str(&mut caret, "^");
                push_line(&mut lines, text_line);
                push_line(&mut lines, caret);
            }
        },
        None => {},
    }
    proof {
        if lines@.len() == 0 {
            assert(lines_view(lines@) =~= Seq::<Seq<char>>::empty());
        }
    }
    lines
}

/// The lines printed for `diagnostic`.
pub fn diagnostic_report(input: &str, source: &str, diagnostic: &Diagnostic) -> (lines: Vec<String>)
    requires
        utf8_len(source@) < usize::MAX,
    ensures
        lines_view(lines@) == report_lines(input@, source@, diagnostic@),
{
    let location: Option<SourceLocation> = match diagnostic.range {
        Some(range) => Some(source_location(source, range)),
        None => None,
    };
    let mut lines: Vec<String> = Vec::new();
    push_line(&mut lines, report_heading_line(input, diagnostic, &location));
    let mut message = String::from_str("  ");
    push_str(&mut message, diagnostic.message.as_str());
    push_line(&mut lines, message);
    let ghost head = lines_view(lines@);
    let mut more = excerpt(&location);
    let ghost middle = lines_view(more@);
    lines.append(&mut more);
    proof {
        assert(lines_view(lines@) =~= head + middle);
    }
    let ghost with_excerpt = lines_view(lines@);
    match &diagnostic.help {
        Some(help) => {
            let mut help_line = String::from_str("  help: ");
            push_str(&mut help_line, help.as_str());
            push_line(&mut lines, help_line);
        },
        None => {},
    }
    proof {
        let spec = report_lines(input@, source@, diagnostic@);
        assert(lines_view(lines@) =~= spec);
    }
    lines
}

// ---------------------------------------------------------------------------
// Counting errors, page limits and file names
/// The number of error diagnostics.
pub open spec fn errors_in(diagnostics: Seq<crate::diagnostic::SpecDiagnostic>) -> nat
    decreases diagnostics.len(),
{
    if diagnostics.len() == 0 {
        0
    } else {
        errors_in(diagnostics.drop_last()) + if diagnostics.last().severity == Severity::Error {
            1nat
        } else {
            0nat
        }
    }
}

/// The number of error diagnostics.
pub fn error_count(diagnostics: &Vec<Diagnostic>) -> (count: usize)
    ensures
        count == errors_in(diagnostics_view(diagnostics@)),
{
    let n = diagnostics.len();
    let mut count: usize = 0;
    let ghost all = diagnostics_view(diagnostics@);
    for i in 0..n
        invariant
            n == diagnostics@.len(),
            all == diagnostics_view(diagnostics@),
            count == errors_in(all.take(i as int)),
            count <= i,
    {
        proof {
            let t = all.take(i + 1);
            assert(t.drop_last() =~= all.take(i as int));
            assert(t.last() == diagnostics@[i as int]@);
        }
        if let Severity::Error = diagnostics[i].severity {
            count = count + 1;
        }
    }
    proof {
        assert(all.take(n as int) =~= all);
    }
    count
}

/// Whether `c` is an ASCII digit.
pub open spec fn is_digit(c: char) -> bool {
    '0' <= c && c <= '9'
}

/// The number that the ASCII digits `s` spell in base ten.
pub open spec fn digits_value(s: Seq<char>) -> nat
    decreases s.len(),
{
    if s.len() == 0 {
        0
    } else {
        digits_value(s.drop_last()) * 10 + ((s.last() as u32) - ('0' as u32)) as nat
    }
}

/// `s` without a leading `+`.
pub open spec fn unsigned_digits(s: Seq<char>) -> Seq<char> {
    if s.len() > 0 && s[0] == '+' {
        s.drop_first()
    } else {
        s
    }
}

/// Whether every character of `s` is an ASCII digit.
pub open spec fn all_digits(s: Seq<char>) -> bool {
    forall|i: int| 0 <= i < s.len() ==> is_digit(#[trigger] s[i])
}

/// The unsigned number written in `s`: an optional `+` and at least one
/// ASCII digit, no larger than `usize::MAX`.
pub open spec fn parse_count(s: Seq<char>) -> Option<usize> {
    let digits = unsigned_digits(s);
    if digits.len() > 0 && all_digits(digits) && digits_value(digits) <= usize::MAX {
        Some(digits_value(digits) as usize)
    } else {
        None
    }
}

/// What the command line makes of a maximum page count.
pub open spec fn page_limit_of(s: Seq<char>) -> Result<usize, Seq<char>> {
    match parse_count(s) {
        None => Err("the maximum page count must be a positive integer"@),
        Some(0usize) => Err("the maximum page count must be at least one"@),
        Some(n) => Ok(n),
    }
}

/// Reads the maximum page count given on the command line.
pub fn parse_page_limit(value: &str) -> (result: Result<usize, String>)
    ensures
        match result {
            Ok(n) => page_limit_of(value@) == Ok::<usize, Seq<char>>(n),
            Err(message) => page_limit_of(value@) == Err::<usize, Seq<char>>(message@),
        },
{
    match parse_unsigned(value) {
        None => Err(String::from_str("the maximum page count must be a positive integer")),
        Some(0) => Err(String::from_str("the maximum page count must be at least one")),
        Some(n) => Ok(n),
    }
}

/// Reads an unsigned decimal number: an optional `+` and ASCII digits.
fn parse_unsigned(value: &str) -> (result: Option<usize>)
    ensures
        result == parse_count(value@),
{
    let chars = chars_of(value);
    let n = chars.len();
    let start: usize = if n > 0 && chars[0] == '+' {
        1
    } else {
        0
    };
    let ghost digits = unsigned_digits(value@);
    proof {
        assert(digits =~= chars@.skip(start as int));
    }
    if start == n {
        return None;
    }
    let mut total: usize = 0;
    for i in start..n
        invariant
            n == chars@.len(),
            start <= n,
            digits == chars@.skip(start as int),
            digits == unsigned_digits(value@),
            forall|j: int| 0 <= j < i - start ==> is_digit(#[trigger] digits[j]),
            total == digits_value(digits.take(i - start)),
    {
        let c = chars[i];
        let ghost t = digits.take(i - start + 1);
        proof {
            assert(t.drop_last() =~= digits.take(i - start));
            assert(t.last() == c);
        }
        if !('0' <= c && c <= '9') {
            assert(!is_digit(digits[i - start]));
            return None;
        }
        let digit = (c as u32 - '0' as u32) as usize;
        match total.checked_mul(10) {
            None => {
                proof {
                    if all_digits(digits) {
                        lemma_digits_value_grows(digits, i - start + 1);
                    }
                }
                return None;
            },
            Some(scaled) => match scaled.checked_add(digit) {
                None => {
                    proof {
                        if all_digits(digits) {
                            lemma_digits_value_grows(digits, i - start + 1);
                        }
                    }
                    return None;
                },
                Some(next) => {
                    total = next;
                },
            },
        }
    }
    proof {
        assert(digits.take(n - start) =~= digits);
    }
    Some(total)
}

/// A number spelled by more digits is no smaller.
proof fn lemma_digits_value_grows(digits: Seq<char>, k: int)
    requires
        0 <= k <= digits.len(),
        forall|j: int| 0 <= j < digits.len() ==> is_digit(#[trigger] digits[j]),
    ensures
        digits_value(digits.take(k)) <= digits_value(digits),
    decreases digits.len() - k,
{
    if k < digits.len() {
        let t = digits.take(k + 1);
        assert(t.drop_last() =~= digits.take(k));
        lemma_digits_value_grows(digits, k + 1);
    } else {
        assert(digits.take(k) =~= digits);
    }
}

/// The name of the SVG file for page `page_number` of the output `name`.
pub fn svg_file_name(output_name: &str, page_number: usize) -> (file: String)
    ensures
        file@ == output_name@ + "-"@ + decimal(page_number as nat) + ".svg"@,
{
    let mut file = String::from_str(output_name);
    push_str(&mut file, "-");
    push_decimal(&mut file, page_number as u64);
    push_str(&mut file, ".svg");
    file
}

// ---------------------------------------------------------------------------
// What a source location counts
proof fn lemma_line_feeds_counted(s: Seq<char>, pred: spec_fn(char) -> bool)
    requires
        forall|c: char| #[trigger] pred(c) == (c == '\n'),
    ensures
        line_feeds(s) == s.filter(pred).len(),
    decreases s.len(),
{
    reveal(Seq::filter);
    if s.len() > 0 {
        lemma_line_feeds_counted(s.drop_last(), pred);
        assert(pred(s.last()) == (s.last() == '\n'));
    }
}

proof fn lemma_last_line_start(s: Seq<char>)
    ensures
        0 <= last_line_start(s) <= s.len(),
        last_line_start(s) == 0 || s[last_line_start(s) - 1] == '\n',
        forall|j: int| last_line_start(s) <= j < s.len() ==> s[j] != '\n',
    decreases s.len(),
{
    if s.len() > 0 {
        let p = s.drop_last();
        lemma_last_line_start(p);
        if s.last() != '\n' {
            assert forall|j: int| last_line_start(s) <= j < s.len() implies s[j] != '\n' by {
                if j < p.len() {
                    assert(s[j] == p[j]);
                }
            }
            if last_line_start(p) > 0 {
                assert(s[last_line_start(p) - 1] == p[last_line_start(p) - 1]);
            }
        }
    }
}

/// Where a character of the source is reported: its line is one more than
/// the number of line feeds (`\n`) before it, so carriage returns and all
/// other characters never move it to another line; its column is one more
/// than the number of characters between it and the last line feed before
/// it, or the start of the source.
pub proof fn law_location_counts_line_feeds(s: Seq<char>, i: int)
    requires
        0 <= i <= s.len(),
    ensures
        location_of(s, utf8_len(s.take(i))).line == s.take(i).filter(|c: char| c == '\n').len()
            + 1,
        ({
            let column = location_of(s, utf8_len(s.take(i))).column;
            let line_start = i - (column - 1);
            &&& 1 <= column <= i + 1
            &&& line_start == 0 || s[line_start - 1] == '\n'
            &&& forall|j: int| line_start <= j < i ==> s[j] != '\n'
        }),
{
    let b = utf8_len(s.take(i));
    assert(s.take(s.len() as int) =~= s);
    lemma_utf8_len_monotonic(s, i, s.len() as int);
    if i < s.len() {
        lemma_utf8_len_monotonic(s, i, i + 1);
    }
    lemma_floor_index(s, b, i);
    let t = s.take(i);
    lemma_line_feeds_counted(t, |c: char| c == '\n');
    lemma_last_line_start(t);
    assert forall|j: int| last_line_start(t) <= j < i implies s[j] != '\n' by {
        assert(s[j] == t[j]);
    }
    if last_line_start(t) > 0 {
        assert(s[last_line_start(t) - 1] == t[last_line_start(t) - 1]);
    }
}

} // verus!
