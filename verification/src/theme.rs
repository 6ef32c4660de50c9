//! Portable Resumark theme files: a Typst source that starts with a JSON
//! manifest of the controls a user may edit.
use vstd::prelude::*;

use crate::diagnostic::option_text;
use crate::model::{find_char_after, first_index_of};
use crate::text::{
    byte_len, char_width, chars_of, count_leading_whitespace, lemma_utf8_len_take_step,
    string_from_range, decimal, leading_whitespace,
    lemma_utf8_len_monotonic, occurs_at, occurs_at_index, prefix_byte_len, push_decimal, push_str,
    trim, trimmed, utf8_len,
};

verus! {

/// A byte range in the theme source.
#[derive(Debug, Clone, Copy, PartialEq, Eq, Structural)]
pub struct ThemeRange {
    pub start: usize,
    pub end: usize,
}

/// A theme-file error that can be shown beside its source.
#[derive(Debug, Clone, PartialEq, Eq)]
pub struct ThemeFileError {
    pub message: String,
    pub range: Option<ThemeRange>,
}

/// The value of a [`ThemeFileError`].
pub struct SpecThemeFileError {
    pub message: Seq<char>,
    pub range: Option<ThemeRange>,
}

impl View for ThemeFileError {
    type V = SpecThemeFileError;

    open spec fn view(&self) -> SpecThemeFileError {
        SpecThemeFileError { message: self.message@, range: self.range }
    }
}

/// An error that points at no particular place.
pub fn theme_error(message: String) -> (error: ThemeFileError)
    ensures
        error@ == (SpecThemeFileError { message: message@, range: None }),
{
    ThemeFileError { message, range: None }
}

/// An error that points at the whole manifest.
pub fn at_manifest(message: String, manifest: ThemeRange) -> (error: ThemeFileError)
    ensures
        error@ == (SpecThemeFileError { message: message@, range: Some(manifest) }),
{
    ThemeFileError { message, range: Some(manifest) }
}


// ---------------------------------------------------------------------------
// Finding the manifest
/// The first index at which `p` occurs in `s`, if it occurs.
#[verifier::opaque]
pub open spec fn first_occurrence(s: Seq<char>, p: Seq<char>) -> Option<int> {
    if exists|i: int| occurs_at(s, i, p) {
        Some(
            choose|i: int| occurs_at(s, i, p) && forall|j: int| 0 <= j < i ==> !occurs_at(s, j, p),
        )
    } else {
        None
    }
}

proof fn lemma_first_occurrence(s: Seq<char>, p: Seq<char>, i: int)
    requires
        occurs_at(s, i, p),
        forall|j: int| 0 <= j < i ==> !occurs_at(s, j, p),
    ensures
        first_occurrence(s, p) == Some(i),
{
    reveal(first_occurrence);
    let k = choose|k: int| occurs_at(s, k, p) && forall|j: int| 0 <= j < k ==> !occurs_at(s, j, p);
    assert(occurs_at(s, k, p) && forall|j: int| 0 <= j < k ==> !occurs_at(s, j, p));
    if k < i {
        assert(!occurs_at(s, k, p));
    }
    if i < k {
        assert(!occurs_at(s, i, p));
    }
}

proof fn lemma_occurs_after(s: Seq<char>, d: int, k: int, p: Seq<char>)
    requires
        0 <= d <= s.len(),
        0 <= k,
    ensures
        occurs_at(s.skip(d), k, p) <==> occurs_at(s, d + k, p),
{
    if k + p.len() <= s.len() - d {
        assert(s.skip(d).subrange(k, k + p.len()) =~= s.subrange(d + k, d + k + p.len()));
    }
}

/// The line that opens a theme manifest.
pub open spec fn manifest_opening() -> Seq<char> {
    "/* resumark-theme\n"@
}

/// The text that closes a theme manifest.
pub open spec fn manifest_closing() -> Seq<char> {
    "\n*/"@
}

/// The character index after a leading byte-order mark.
pub open spec fn content_start(s: Seq<char>) -> int {
    if s.len() > 0 && s[0] == '\u{feff}' {
        1
    } else {
        0
    }
}

/// The character index of the first non-whitespace character after any
/// byte-order mark, or the end of the source.
pub open spec fn manifest_lead(s: Seq<char>) -> int {
    content_start(s) + leading_whitespace(s.skip(content_start(s)))
}

/// Where the JSON manifest of a theme source lies, in bytes, or why it
/// cannot be found: the source is at most 256 KiB, starts (after a
/// byte-order mark and whitespace) with the opening line, contains the
/// closing `*/` line after it, and the JSON between them is at most 32 KiB.
pub open spec fn manifest_location(s: Seq<char>) -> Result<ThemeRange, SpecThemeFileError> {
    let length = utf8_len(s);
    if length > 262144 {
        Err(
            SpecThemeFileError {
                message: "theme source is "@ + decimal(length) + " bytes; the limit is 262144"@,
                range: None,
            },
        )
    } else {
        let lead = manifest_lead(s);
        let lead_byte = utf8_len(s.take(lead)) as usize;
        if !occurs_at(s, lead, manifest_opening()) {
            Err(
                SpecThemeFileError {
                    message: "theme must start with a `resumark-theme` manifest"@,
                    range: Some(ThemeRange { start: lead_byte, end: lead_byte }),
                },
            )
        } else {
            closed_manifest(s, lead + manifest_opening().len(), lead_byte)
        }
    }
}

/// Where the manifest that starts at character `json_start` ends: at the
/// first closing line, within 32 KiB.
pub open spec fn closed_manifest(s: Seq<char>, json_start: int, lead_byte: usize) -> Result<
    ThemeRange,
    SpecThemeFileError,
> {
    let start_byte = utf8_len(s.take(json_start)) as usize;
    match first_occurrence(s.skip(json_start), manifest_closing()) {
        None => Err(
            SpecThemeFileError {
                message: "theme manifest is missing its closing `*/`"@,
                range: Some(ThemeRange { start: lead_byte, end: utf8_len(s) as usize }),
            },
        ),
        Some(k) => {
            let end_byte = utf8_len(s.take(json_start + k)) as usize;
            if end_byte - start_byte > 32768 {
                Err(
                    SpecThemeFileError {
                        message: "theme manifest exceeds 32768 bytes"@,
                        range: Some(ThemeRange { start: start_byte, end: end_byte }),
                    },
                )
            } else {
                Ok(ThemeRange { start: start_byte, end: end_byte })
            }
        },
    }
}

/// The index of the first closing `*/` line at or after `from`.
fn find_closing(chars: &[char], from: usize) -> (found: Option<usize>)
    requires
        from <= chars@.len(),
    ensures
        match found {
            Some(i) => from <= i <= chars@.len() && first_occurrence(
                chars@.skip(from as int),
                manifest_closing(),
            ) == Some(i - from),
            None => first_occurrence(chars@.skip(from as int), manifest_closing()) is None,
        },
{
    let n = chars.len();
    let ghost rest = chars@.skip(from as int);
    proof {
        reveal_strlit("\n*/");
    }
    for i in from..n
        invariant
            n == chars@.len(),
            from <= n,
            rest == chars@.skip(from as int),
            forall|j: int| from <= j < i ==> !occurs_at(chars@, j, manifest_closing()),
    {
        if occurs_at_index(chars, i, "\n*/") {
            proof {
                let k = i - from;
                lemma_occurs_after(chars@, from as int, k, manifest_closing());
                assert forall|j: int| 0 <= j < k implies !occurs_at(rest, j, manifest_closing()) by {
                    lemma_occurs_after(chars@, from as int, j, manifest_closing());
                }
                lemma_first_occurrence(rest, manifest_closing(), k);
            }
            return Some(i);
        }
    }
    proof {
        reveal(first_occurrence);
        assert forall|k: int| !occurs_at(rest, k, manifest_closing()) by {
            if 0 <= k {
                lemma_occurs_after(chars@, from as int, k, manifest_closing());
            }
        }
    }
    None
}

/// Finds where the manifest that starts at `json_start` ends.
fn closing_of(chars: &[char], json_start: usize, lead_byte: usize) -> (result: Result<
    ThemeRange,
    ThemeFileError,
>)
    requires
        json_start <= chars@.len(),
        utf8_len(chars@) <= 262144,
    ensures
        match result {
            Ok(range) => closed_manifest(chars@, json_start as int, lead_byte) == Ok::<
                _,
                SpecThemeFileError,
            >(range),
            Err(error) => closed_manifest(chars@, json_start as int, lead_byte) == Err::<
                ThemeRange,
                _,
            >(error@),
        },
{
    let n = chars.len();
    proof {
        assert(chars@.take(n as int) =~= chars@);
    }
    let start_byte = prefix_byte_len(chars, json_start);
    match find_closing(chars, json_start) {
        None => {
            let length = prefix_byte_len(chars, n);
            Err(
                ThemeFileError {
                    message: String::from_str("theme manifest is missing its closing `*/`"),
                    range: Some(ThemeRange { start: lead_byte, end: length }),
                },
            )
        },
        Some(json_end) => {
            proof {
                lemma_utf8_len_monotonic(chars@, json_start as int, json_end as int);
            }
            let end_byte = prefix_byte_len(chars, json_end);
            if end_byte - start_byte > 32768 {
                return Err(
                    ThemeFileError {
                        message: String::from_str("theme manifest exceeds 32768 bytes"),
                        range: Some(ThemeRange { start: start_byte, end: end_byte }),
                    },
                );
            }
            Ok(ThemeRange { start: start_byte, end: end_byte })
        },
    }
}

/// Finds the JSON manifest at the start of a theme source: the checks that
/// come before the manifest is read.
pub fn locate_manifest(source: &str) -> (result: Result<ThemeRange, ThemeFileError>)
    ensures
        match result {
            Ok(range) => manifest_location(source@) == Ok::<_, SpecThemeFileError>(range),
            Err(error) => manifest_location(source@) == Err::<ThemeRange, _>(error@),
        },
{
    let length = byte_len(source);
    if length > 262144 {
        let mut message = String::from_str("theme source is ");
        push_decimal(&mut message, length as u64);
        push_str(&mut message, " bytes; the limit is 262144");
        return Err(theme_error(message));
    }
    let chars = chars_of(source);
    let n = chars.len();
    let start: usize = if n > 0 && chars[0] == '\u{feff}' {
        1
    } else {
        0
    };
    proof {
        assert(chars@.subrange(start as int, n as int) =~= chars@.skip(start as int));
    }
    let lead = start + count_leading_whitespace(chars.as_slice(), start, n);
    let lead_byte = prefix_byte_len(chars.as_slice(), lead);
    if !occurs_at_index(chars.as_slice(), lead, "/* resumark-theme\n") {
        return Err(
            ThemeFileError {
                message: String::from_str("theme must start with a `resumark-theme` manifest"),
                range: Some(ThemeRange { start: lead_byte, end: lead_byte }),
            },
        );
    }
    proof {
        reveal_strlit("/* resumark-theme\n");
    }
    closing_of(chars.as_slice(), lead + 18, lead_byte)
}


// ---------------------------------------------------------------------------
// Pointing at a manifest that cannot be read
/// The character index just after the `k`-th line feed of `s`, counting
/// from zero, if `s` has that many.
pub open spec fn after_line_feed(s: Seq<char>, k: nat) -> Option<int>
    decreases s.len(),
{
    if s.len() == 0 {
        None
    } else if s[0] == '\n' && k == 0 {
        Some(1)
    } else {
        match after_line_feed(
            s.drop_first(),
            if s[0] == '\n' {
                (k - 1) as nat
            } else {
                k
            },
        ) {
            Some(i) => Some(i + 1),
            None => None,
        }
    }
}

/// `o` moved `d` places along.
pub open spec fn shifted(o: Option<int>, d: int) -> Option<int> {
    match o {
        Some(i) => Some(i + d),
        None => None,
    }
}

/// The character a JSON parser's 1-based `line` and `column` are taken to
/// point at: the line starts after line feed number `line - 2` (or at the
/// start), and the column is clamped to the end of that line.
#[verifier::opaque]
pub open spec fn json_offset_chars(json: Seq<char>, line: nat, column: nat) -> int {
    let line_start = match after_line_feed(
        json,
        if line >= 2 {
            (line - 2) as nat
        } else {
            0
        },
    ) {
        Some(i) => i,
        None => 0,
    };
    let rest = json.skip(line_start);
    let line_length = match first_index_of(rest, '\n') {
        Some(i) => i,
        None => rest.len() as int,
    };
    let col = if column >= 1 {
        column - 1
    } else {
        0
    };
    line_start + if col < line_length {
        col
    } else {
        line_length
    }
}

/// Finds the index just after the `k`-th line feed.
fn find_after_line_feed(chars: &[char], k: usize) -> (found: Option<usize>)
    ensures
        match found {
            Some(i) => after_line_feed(chars@, k as nat) == Some(i as int) && i <= chars@.len(),
            None => after_line_feed(chars@, k as nat) is None,
        },
{
    let n = chars.len();
    let mut count: usize = 0;
    proof {
        assert(chars@.skip(0) =~= chars@);
    }
    for i in 0..n
        invariant
            n == chars@.len(),
            count <= k,
            after_line_feed(chars@, k as nat) == shifted(
                after_line_feed(chars@.skip(i as int), (k - count) as nat),
                i as int,
            ),
    {
        let ghost rest = chars@.skip(i as int);
        proof {
            assert(rest[0] == chars@[i as int]);
            assert(rest.drop_first() =~= chars@.skip(i + 1));
        }
        if chars[i] == '\n' {
            if count == k {
                return Some(i + 1);
            }
            count = count + 1;
        }
    }
    proof {
        assert(chars@.skip(n as int) =~= Seq::<char>::empty());
    }
    None
}

/// The byte offset in `json` that a JSON parser's 1-based `line` and
/// `column` point at.
pub fn json_offset(json: &str, line: usize, column: usize) -> (offset: usize)
    ensures
        offset == utf8_len(json@.take(json_offset_chars(json@, line as nat, column as nat))),
        offset <= utf8_len(json@),
{
    let length = byte_len(json);
    let chars = chars_of(json);
    let n = chars.len();
    let target: usize = if line >= 2 {
        line - 2
    } else {
        0
    };
    let line_start: usize = match find_after_line_feed(chars.as_slice(), target) {
        Some(i) => i,
        None => 0,
    };
    let line_length: usize = match find_char_after(chars.as_slice(), line_start, '\n') {
        Some(i) => i,
        None => n - line_start,
    };
    let col: usize = if column >= 1 {
        column - 1
    } else {
        0
    };
    let within = if col < line_length {
        col
    } else {
        line_length
    };
    proof {
        reveal(json_offset_chars);
        lemma_utf8_len_monotonic(chars@, line_start + within, n as int);
        assert(chars@.take(n as int) =~= chars@);
    }
    prefix_byte_len(chars.as_slice(), line_start + within)
}

/// The error for a manifest whose JSON cannot be read: `detail` says why,
/// and the range covers the character the parser points at (or nothing,
/// at the manifest's end).
pub open spec fn manifest_read_error_spec(
    json: Seq<char>,
    manifest: ThemeRange,
    line: nat,
    column: nat,
    detail: Seq<char>,
) -> SpecThemeFileError {
    let start = manifest.start + utf8_len(json.take(json_offset_chars(json, line, column)));
    SpecThemeFileError {
        message: "could not read theme manifest: "@ + detail,
        range: Some(
            ThemeRange {
                start: start as usize,
                end: if start + 1 <= manifest.end {
                    (start + 1) as usize
                } else {
                    manifest.end
                },
            },
        ),
    }
}

/// The error for a manifest `json`, found at `manifest`, that the JSON
/// parser refused at `line` and `column` for the reason `detail`.
pub fn manifest_read_error(
    json: &str,
    manifest: ThemeRange,
    line: usize,
    column: usize,
    detail: &str,
) -> (error: ThemeFileError)
    requires
        manifest.start + utf8_len(json@) < usize::MAX,
    ensures
        error@ == manifest_read_error_spec(json@, manifest, line as nat, column as nat, detail@),
{
    let offset = json_offset(json, line, column);
    let start = manifest.start + offset;
    let end = if start + 1 <= manifest.end {
        start + 1
    } else {
        manifest.end
    };
    let mut message = String::from_str("could not read theme manifest: ");
    push_str(&mut message, detail);
    ThemeFileError { message, range: Some(ThemeRange { start, end }) }
}

// ---------------------------------------------------------------------------
// Checking the manifest
/// What a control offers, as the manifest checks read it.
#[derive(Debug, Clone, PartialEq, Eq)]
pub enum ControlKind {
    /// A number control. Whether its value, bounds and step are usable (all
    /// finite, the minimum at most the maximum, the value between them, and a
    /// positive step) is decided where the floating-point numbers are held.
    Number { bounds_valid: bool },
    Color { value: String },
    Font { value: String, options: Vec<String> },
}

/// One manifest control, as the manifest checks read it.
#[derive(Debug, Clone, PartialEq, Eq)]
pub struct ControlSummary {
    pub key: String,
    pub label: String,
    pub group: String,
    pub kind: ControlKind,
}

/// A theme manifest, as the manifest checks read it.
#[derive(Debug, Clone, PartialEq, Eq)]
pub struct ManifestSummary {
    pub version: u32,
    pub name: String,
    pub description: String,
    pub controls: Vec<ControlSummary>,
}

/// The value of a [`ControlKind`].
pub enum SpecControlKind {
    Number { bounds_valid: bool },
    Color(Seq<char>),
    Font { value: Seq<char>, options: Seq<Seq<char>> },
}

/// The value of a [`ControlSummary`].
pub struct SpecControl {
    pub key: Seq<char>,
    pub label: Seq<char>,
    pub group: Seq<char>,
    pub kind: SpecControlKind,
}

/// The value of a [`ManifestSummary`].
pub struct SpecManifest {
    pub version: u32,
    pub name: Seq<char>,
    pub description: Seq<char>,
    pub controls: Seq<SpecControl>,
}

pub open spec fn strings_view(strings: Seq<String>) -> Seq<Seq<char>> {
    strings.map_values(|t: String| t@)
}

impl View for ControlKind {
    type V = SpecControlKind;

    open spec fn view(&self) -> SpecControlKind {
        match self {
            ControlKind::Number { bounds_valid } => SpecControlKind::Number {
                bounds_valid: *bounds_valid,
            },
            ControlKind::Color { value } => SpecControlKind::Color(value@),
            ControlKind::Font { value, options } => SpecControlKind::Font {
                value: value@,
                options: strings_view(options@),
            },
        }
    }
}

impl View for ControlSummary {
    type V = SpecControl;

    open spec fn view(&self) -> SpecControl {
        SpecControl {
            key: self.key@,
            label: self.label@,
            group: self.group@,
            kind: self.kind@,
        }
    }
}

pub open spec fn controls_view(controls: Seq<ControlSummary>) -> Seq<SpecControl> {
    controls.map_values(|c: ControlSummary| c@)
}

impl View for ManifestSummary {
    type V = SpecManifest;

    open spec fn view(&self) -> SpecManifest {
        SpecManifest {
            version: self.version,
            name: self.name@,
            description: self.description@,
            controls: controls_view(self.controls@),
        }
    }
}

/// A lowercase ASCII letter.
pub open spec fn is_key_start(c: char) -> bool {
    'a' <= c && c <= 'z'
}

/// A lowercase ASCII letter, an ASCII digit or `_`.
pub open spec fn is_key_char(c: char) -> bool {
    ('a' <= c && c <= 'z') || ('0' <= c && c <= '9') || c == '_'
}

/// A control key: a lowercase letter, then lowercase letters, digits and
/// underscores.
pub open spec fn valid_key(key: Seq<char>) -> bool {
    key.len() > 0 && is_key_start(key[0]) && forall|i: int| 1 <= i < key.len() ==> is_key_char(#[trigger] key[i])
}

/// An ASCII hexadecimal digit.
pub open spec fn is_hex_digit(c: char) -> bool {
    ('0' <= c && c <= '9') || ('a' <= c && c <= 'f') || ('A' <= c && c <= 'F')
}

/// A `#RRGGBB` color.
pub open spec fn valid_color(value: Seq<char>) -> bool {
    value.len() == 7 && value[0] == '#' && forall|i: int| 1 <= i < 7 ==> is_hex_digit(#[trigger] value[i])
}

/// The font families bundled with Resumark.
pub open spec fn bundled_font(family: Seq<char>) -> bool {
    family == "Libertinus Serif"@ || family == "Source Sans 3"@
}

/// `"`key` "` + `rest`: a message about the control `key`.
pub open spec fn about_key(key: Seq<char>, rest: Seq<char>) -> Seq<char> {
    "`"@ + key + rest
}

/// What is wrong with a control on its own, if anything.
pub open spec fn control_problem(c: SpecControl) -> Option<Seq<char>> {
    if trim(c.label).len() == 0 || trim(c.group).len() == 0 {
        Some(about_key(c.key, "` must have a label and group"@))
    } else {
        match c.kind {
            SpecControlKind::Number { bounds_valid } => if !bounds_valid {
                Some(about_key(c.key, "` has invalid numeric bounds or value"@))
            } else {
                None
            },
            SpecControlKind::Color(value) => if !valid_color(value) {
                Some(about_key(c.key, "` must use a #RRGGBB color"@))
            } else {
                None
            },
            SpecControlKind::Font { value, options } => if options.len() == 0 || !(forall|i: int|
                0 <= i < options.len() ==> bundled_font(#[trigger] options[i])) || !options.contains(
                value,
            ) {
                Some(about_key(c.key, "` must select from the bundled font families"@))
            } else {
                None
            },
        }
    }
}

/// What is wrong with the last of `controls`, given the ones before it.
pub open spec fn last_control_problem(controls: Seq<SpecControl>) -> Option<Seq<char>> {
    let c = controls.last();
    let earlier = controls.drop_last();
    if !valid_key(c.key) {
        Some(about_key(c.key, "` is not a valid control key"@))
    } else if exists|j: int| 0 <= j < earlier.len() && #[trigger] earlier[j].key == c.key {
        Some("theme contains more than one `"@ + c.key + "` control"@)
    } else {
        control_problem(c)
    }
}

/// The first problem among the controls, in order.
pub open spec fn controls_problem(controls: Seq<SpecControl>) -> Option<Seq<char>>
    decreases controls.len(),
{
    if controls.len() == 0 {
        None
    } else {
        match controls_problem(controls.drop_last()) {
            Some(message) => Some(message),
            None => last_control_problem(controls),
        }
    }
}

/// The first problem of a manifest: its version, name, description, the
/// number of controls, then each control in order.
pub open spec fn manifest_problem(m: SpecManifest) -> Option<Seq<char>> {
    if m.version != 1 {
        Some("unsupported theme version "@ + decimal(m.version as nat) + "; expected 1"@)
    } else if trim(m.name).len() == 0 || m.name.len() > 80 {
        Some("theme name must contain 1 to 80 characters"@)
    } else if m.description.len() > 240 {
        Some("theme description cannot exceed 240 characters"@)
    } else if m.controls.len() > 32 {
        Some("theme has too many controls; the limit is 32"@)
    } else {
        controls_problem(m.controls)
    }
}

/// Whether `key` is a control key.
pub fn is_valid_key(key: &str) -> (valid: bool)
    ensures
        valid == valid_key(key@),
{
    let chars = chars_of(key);
    let n = chars.len();
    if n == 0 || !('a' <= chars[0] && chars[0] <= 'z') {
        return false;
    }
    for i in 1..n
        invariant
            n == chars@.len(),
            chars@ == key@,
            forall|j: int| 1 <= j < i ==> is_key_char(#[trigger] chars@[j]),
    {
        let c = chars[i];
        if !(('a' <= c && c <= 'z') || ('0' <= c && c <= '9') || c == '_') {
            return false;
        }
    }
    true
}

/// Whether `value` is a `#RRGGBB` color.
pub fn is_valid_color(value: &str) -> (valid: bool)
    ensures
        valid == valid_color(value@),
{
    let chars = chars_of(value);
    if chars.len() != 7 || chars[0] != '#' {
        return false;
    }
    for i in 1..7usize
        invariant
            chars@.len() == 7,
            chars@ == value@,
            forall|j: int| 1 <= j < i ==> is_hex_digit(#[trigger] chars@[j]),
    {
        let c = chars[i];
        if !(('0' <= c && c <= '9') || ('a' <= c && c <= 'f') || ('A' <= c && c <= 'F')) {
            return false;
        }
    }
    true
}

fn message_about_key(key: &String, rest: &str) -> (m: String)
    ensures
        m@ == about_key(key@, rest@),
{
    let mut m = String::from_str("`");
    push_str(&mut m, key.as_str());
    push_str(&mut m, rest);
    m
}

/// Whether `options` is a nonempty list of bundled families containing
/// `value`.
fn valid_font_choice(value: &String, options: &Vec<String>) -> (valid: bool)
    ensures
        valid == !(options@.len() == 0 || !(forall|i: int|
            0 <= i < options@.len() ==> bundled_font(#[trigger] strings_view(options@)[i]))
            || !strings_view(options@).contains(value@)),
{
    let n = options.len();
    if n == 0 {
        return false;
    }
    let ghost view = strings_view(options@);
    let libertinus = String::from_str("Libertinus Serif");
    let source_sans = String::from_str("Source Sans 3");
    let mut contains = false;
    for i in 0..n
        invariant
            n == options@.len(),
            view == strings_view(options@),
            libertinus@ == "Libertinus Serif"@,
            source_sans@ == "Source Sans 3"@,
            forall|j: int| 0 <= j < i ==> bundled_font(#[trigger] view[j]),
            contains <==> exists|j: int| 0 <= j < i && #[trigger] view[j] == value@,
    {
        let option = &options[i];
        assert(view[i as int] == option@);
        if !(*option == libertinus || *option == source_sans) {
            return false;
        }
        if *option == *value {
            contains = true;
        }
    }
    proof {
        if contains {
            let j = choose|j: int| 0 <= j < n && #[trigger] view[j] == value@;
            assert(view.contains(value@));
        } else {
            assert(!view.contains(value@));
        }
    }
    contains
}

/// What is wrong with a control on its own, if anything.
fn check_control(c: &ControlSummary) -> (problem: Option<String>)
    ensures
        option_text(problem) == control_problem(c@),
{
    let label = chars_of(c.label.as_str());
    let group = chars_of(c.group.as_str());
    let label_text = trimmed(label.as_slice());
    let group_text = trimmed(group.as_slice());
    if label_text.as_str().is_empty() || group_text.as_str().is_empty() {
        return Some(message_about_key(&c.key, "` must have a label and group"));
    }
    match &c.kind {
        ControlKind::Number { bounds_valid } => if !*bounds_valid {
            Some(message_about_key(&c.key, "` has invalid numeric bounds or value"))
        } else {
            None
        },
        ControlKind::Color { value } => if !is_valid_color(value.as_str()) {
            Some(message_about_key(&c.key, "` must use a #RRGGBB color"))
        } else {
            None
        },
        ControlKind::Font { value, options } => if !valid_font_choice(value, options) {
            Some(message_about_key(&c.key, "` must select from the bundled font families"))
        } else {
            None
        },
    }
}

/// Checks a manifest read from the JSON at `manifest`; an error points at
/// the whole manifest.
pub fn validate_manifest(manifest: &ManifestSummary, range: ThemeRange) -> (result: Result<
    (),
    ThemeFileError,
>)
    ensures
        match result {
            Ok(()) => manifest_problem(manifest@) is None,
            Err(error) => manifest_problem(manifest@) == Some(error@.message) && error@.range
                == Some(range),
        },
{
    if manifest.version != 1 {
        let mut m = String::from_str("unsupported theme version ");
        push_decimal(&mut m, manifest.version as u64);
        push_str(&mut m, "; expected 1");
        return Err(at_manifest(m, range));
    }
    let name = chars_of(manifest.name.as_str());
    let trimmed_name = trimmed(name.as_slice());
    if trimmed_name.as_str().is_empty() || name.len() > 80 {
        return Err(at_manifest(String::from_str("theme name must contain 1 to 80 characters"), range));
    }
    let description = chars_of(manifest.description.as_str());
    if description.len() > 240 {
        return Err(
            at_manifest(String::from_str("theme description cannot exceed 240 characters"), range),
        );
    }
    if manifest.controls.len() > 32 {
        return Err(
            at_manifest(String::from_str("theme has too many controls; the limit is 32"), range),
        );
    }
    match check_controls(&manifest.controls) {
        Some(message) => Err(at_manifest(message, range)),
        None => Ok(()),
    }
}

/// The first problem among the controls, in order.
fn check_controls(controls: &Vec<ControlSummary>) -> (problem: Option<String>)
    ensures
        option_text(problem) == controls_problem(controls_view(controls@)),
{
    let n = controls.len();
    let ghost all = controls_view(controls@);
    for i in 0..n
        invariant
            n == controls@.len(),
            all == controls_view(controls@),
            controls_problem(all.take(i as int)) is None,
    {
        let ghost prefix = all.take(i + 1);
        proof {
            assert(prefix.drop_last() =~= all.take(i as int));
            assert(prefix.last() == controls@[i as int]@);
        }
        let c = &controls[i];
        let problem = if !is_valid_key(c.key.as_str()) {
            Some(message_about_key(&c.key, "` is not a valid control key"))
        } else {
            let mut duplicate = false;
            for j in 0..i
                invariant
                    i < n == controls@.len(),
                    all == controls_view(controls@),
                    prefix == all.take(i + 1),
                    c == controls@[i as int],
                    duplicate <==> exists|k: int|
                        0 <= k < j && #[trigger] prefix.drop_last()[k].key == c.key@,
            {
                assert(prefix.drop_last()[j as int] == controls@[j as int]@);
                assert(prefix.drop_last()[j as int].key == controls@[j as int].key@);
                if controls[j].key == c.key {
                    duplicate = true;
                }
            }
            if duplicate {
                let mut m = String::from_str("theme contains more than one `");
                push_str(&mut m, c.key.as_str());
                push_str(&mut m, "` control");
                Some(m)
            } else {
                check_control(c)
            }
        };
        if problem.is_some() {
            proof {
                assert(all.take(n as int) =~= all);
                lemma_controls_problem_prefix(all, i as int + 1);
            }
            return problem;
        }
    }
    proof {
        assert(all.take(n as int) =~= all);
    }
    None
}

/// A problem among the first controls is the first problem of all of them.
proof fn lemma_controls_problem_prefix(controls: Seq<SpecControl>, k: int)
    requires
        0 <= k <= controls.len(),
        controls_problem(controls.take(k)) is Some,
    ensures
        controls_problem(controls) == controls_problem(controls.take(k)),
    decreases controls.len() - k,
{
    if k < controls.len() {
        let next = controls.take(k + 1);
        assert(next.drop_last() =~= controls.take(k));
        lemma_controls_problem_prefix(controls, k + 1);
    } else {
        assert(controls.take(k) =~= controls);
    }
}

// ---------------------------------------------------------------------------
// Changing a control
/// A new value offered for a control.
#[derive(Debug, Clone, PartialEq, Eq)]
pub enum NewValue {
    /// A number; whether it is finite and within the control's bounds is
    /// decided where the floating-point numbers are held.
    Number { within_bounds: bool },
    Text(String),
}

/// The value of a [`NewValue`].
pub enum SpecNewValue {
    Number { within_bounds: bool },
    Text(Seq<char>),
}

impl View for NewValue {
    type V = SpecNewValue;

    open spec fn view(&self) -> SpecNewValue {
        match self {
            NewValue::Number { within_bounds } => SpecNewValue::Number {
                within_bounds: *within_bounds,
            },
            NewValue::Text(text) => SpecNewValue::Text(text@),
        }
    }
}

/// The index of the first control with `key`, if any.
pub open spec fn control_index(controls: Seq<SpecControl>, key: Seq<char>) -> Option<int> {
    if exists|i: int| 0 <= i < controls.len() && #[trigger] controls[i].key == key {
        Some(
            choose|i: int|
                0 <= i < controls.len() && #[trigger] controls[i].key == key && forall|j: int|
                    0 <= j < i ==> controls[j].key != key,
        )
    } else {
        None
    }
}

/// Whether a control accepts `value`: a number within its bounds, a
/// `#RRGGBB` color, or one of its font options.
pub open spec fn accepts(c: SpecControl, value: SpecNewValue) -> bool {
    match (c.kind, value) {
        (SpecControlKind::Number { .. }, SpecNewValue::Number { within_bounds }) => within_bounds,
        (SpecControlKind::Color(_), SpecNewValue::Text(next)) => valid_color(next),
        (SpecControlKind::Font { options, .. }, SpecNewValue::Text(next)) => options.contains(next),
        _ => false,
    }
}

/// Which control a new value for `key` changes, or why it cannot.
pub open spec fn value_target(controls: Seq<SpecControl>, key: Seq<char>, value: SpecNewValue) -> Result<
    int,
    Seq<char>,
> {
    match control_index(controls, key) {
        None => Err("theme has no `"@ + key + "` control"@),
        Some(i) => if accepts(controls[i], value) {
            Ok(i)
        } else {
            Err("invalid value for `"@ + key + "`"@)
        },
    }
}

/// Finds the first control with `key`.
pub fn find_control(controls: &Vec<ControlSummary>, key: &str) -> (found: Option<usize>)
    ensures
        match found {
            Some(i) => control_index(controls_view(controls@), key@) == Some(i as int) && i
                < controls@.len(),
            None => control_index(controls_view(controls@), key@) is None,
        },
{
    let n = controls.len();
    let ghost all = controls_view(controls@);
    let wanted = String::from_str(key);
    for i in 0..n
        invariant
            n == controls@.len(),
            all == controls_view(controls@),
            wanted@ == key@,
            forall|j: int| 0 <= j < i ==> #[trigger] all[j].key != key@,
    {
        assert(all[i as int] == controls@[i as int]@);
        if controls[i].key == wanted {
            proof {
                let k = choose|k: int|
                    0 <= k < all.len() && #[trigger] all[k].key == key@ && forall|j: int|
                        0 <= j < k ==> all[j].key != key@;
                assert(all[i as int].key == key@);
                if k < i {
                    assert(all[k].key != key@);
                }
                if i < k {
                    assert(all[i as int].key != key@);
                }
            }
            return Some(i);
        }
    }
    None
}

/// Finds the control that a new value for `key` changes, and checks that
/// the control accepts it.
pub fn check_new_value(controls: &Vec<ControlSummary>, key: &str, value: &NewValue) -> (result: Result<
    usize,
    ThemeFileError,
>)
    ensures
        match result {
            Ok(i) => value_target(controls_view(controls@), key@, value@) == Ok::<int, Seq<char>>(
                i as int,
            ) && i < controls@.len(),
            Err(error) => value_target(controls_view(controls@), key@, value@) == Err::<
                int,
                Seq<char>,
            >(error@.message) && error@.range is None,
        },
{
    let ghost all = controls_view(controls@);
    let found = find_control(controls, key);
    match found {
        None => {
            let mut m = String::from_str("theme has no `");
            push_str(&mut m, key);
            push_str(&mut m, "` control");
            Err(theme_error(m))
        },
        Some(i) => {
            proof {
                assert(all[i as int] == controls@[i as int]@);
            }
            let accepted = match (&controls[i].kind, value) {
                (ControlKind::Number { .. }, NewValue::Number { within_bounds }) => *within_bounds,
                (ControlKind::Color { .. }, NewValue::Text(next)) => is_valid_color(next.as_str()),
                (ControlKind::Font { options, .. }, NewValue::Text(next)) => contains_string(
                    options,
                    next,
                ),
                _ => false,
            };
            if accepted {
                Ok(i)
            } else {
                let mut m = String::from_str("invalid value for `");
                push_str(&mut m, key);
                push_str(&mut m, "`");
                Err(theme_error(m))
            }
        },
    }
}

/// Whether `options` holds `value`.
fn contains_string(options: &Vec<String>, value: &String) -> (found: bool)
    ensures
        found == strings_view(options@).contains(value@),
{
    let n = options.len();
    let ghost view = strings_view(options@);
    for i in 0..n
        invariant
            n == options@.len(),
            view == strings_view(options@),
            forall|j: int| 0 <= j < i ==> #[trigger] view[j] != value@,
    {
        assert(view[i as int] == options@[i as int]@);
        if options[i] == *value {
            assert(view.contains(value@));
            return true;
        }
    }
    false
}

/// The character index at which the first `b` bytes of `s` end, when they
/// end at a character boundary.
pub open spec fn char_index_at(s: Seq<char>, b: nat) -> int {
    choose|i: int| 0 <= i <= s.len() && utf8_len(s.take(i)) == b
}

/// Whether the first `b` bytes of `s` end at a character boundary.
pub open spec fn is_boundary(s: Seq<char>, b: nat) -> bool {
    exists|i: int| 0 <= i <= s.len() && utf8_len(s.take(i)) == b
}

proof fn lemma_char_index_at(s: Seq<char>, b: nat, i: int)
    requires
        0 <= i <= s.len(),
        utf8_len(s.take(i)) == b,
    ensures
        char_index_at(s, b) == i,
{
    let k = char_index_at(s, b);
    assert(0 <= k <= s.len() && utf8_len(s.take(k)) == b);
    if k < i {
        lemma_utf8_len_monotonic(s, k, i);
    }
    if i < k {
        lemma_utf8_len_monotonic(s, i, k);
    }
}

/// Finds the character index at which the first `b` bytes end.
fn index_at_byte(chars: &[char], b: usize) -> (i: usize)
    requires
        is_boundary(chars@, b as nat),
    ensures
        i == char_index_at(chars@, b as nat),
        i <= chars@.len(),
{
    let n = chars.len();
    let mut i: usize = 0;
    let mut offset: usize = 0;
    let ghost target = choose|k: int| 0 <= k <= chars@.len() && utf8_len(chars@.take(k)) == b;
    while offset < b
        invariant
            n == chars@.len(),
            0 <= target <= n,
            utf8_len(chars@.take(target)) == b,
            i <= target,
            offset == utf8_len(chars@.take(i as int)),
        decreases target - i,
    {
        proof {
            if target <= i {
                assert(i == target);
            }
            lemma_utf8_len_take_step(chars@, i as int);
            lemma_utf8_len_monotonic(chars@, i + 1, target);
        }
        offset = offset + char_width(chars[i]);
        i = i + 1;
    }
    proof {
        if i < target {
            lemma_utf8_len_monotonic(chars@, i as int, target);
        }
        lemma_char_index_at(chars@, b as nat, i as int);
    }
    i
}

/// Puts `json` in place of the manifest at `manifest`, keeping the rest of
/// the source as it was, and gives the rewritten source and the range its
/// manifest now takes.
pub fn replace_manifest(source: &str, manifest: ThemeRange, json: &str) -> (result: (
    String,
    ThemeRange,
))
    requires
        manifest.start <= manifest.end,
        is_boundary(source@, manifest.start as nat),
        is_boundary(source@, manifest.end as nat),
        manifest.start + utf8_len(json@) <= usize::MAX,
    ensures
        result.0@ == source@.take(char_index_at(source@, manifest.start as nat)) + json@
            + source@.skip(char_index_at(source@, manifest.end as nat)),
        result.1 == (ThemeRange {
            start: manifest.start,
            end: (manifest.start + utf8_len(json@)) as usize,
        }),
{
    let chars = chars_of(source);
    let n = chars.len();
    let from = index_at_byte(chars.as_slice(), manifest.start);
    let to = index_at_byte(chars.as_slice(), manifest.end);
    let json_length = byte_len(json);
    let mut rewritten = string_from_range(chars.as_slice(), 0, from);
    push_str(&mut rewritten, json);
    let rest = string_from_range(chars.as_slice(), to, n);
    push_str(&mut rewritten, rest.as_str());
    proof {
        assert(chars@.subrange(0, from as int) =~= source@.take(from as int));
        assert(chars@.subrange(to as int, n as int) =~= source@.skip(to as int));
    }
    (rewritten, ThemeRange { start: manifest.start, end: manifest.start + json_length })
}

/// The source that results from putting `json` in place of the manifest at
/// `manifest`.
pub open spec fn rewritten(s: Seq<char>, manifest: ThemeRange, json: Seq<char>) -> Seq<char> {
    s.take(char_index_at(s, manifest.start as nat)) + json + s.skip(
        char_index_at(s, manifest.end as nat),
    )
}

/// Rewriting the manifest keeps the rest of the theme: the text before it
/// and after it is unchanged, and the new manifest range covers exactly the
/// new JSON.
pub proof fn law_rewrite_keeps_typst_source(s: Seq<char>, manifest: ThemeRange, json: Seq<char>)
    requires
        manifest.start <= manifest.end,
        is_boundary(s, manifest.start as nat),
        is_boundary(s, manifest.end as nat),
    ensures
        ({
            let from = char_index_at(s, manifest.start as nat);
            let to = char_index_at(s, manifest.end as nat);
            let r = rewritten(s, manifest, json);
            &&& r.take(from) == s.take(from)
            &&& r.skip(from + json.len()) == s.skip(to)
            &&& r.subrange(from, from + json.len()) == json
            &&& utf8_len(r.take(from)) == manifest.start
            &&& utf8_len(r.take(from + json.len())) == manifest.start + utf8_len(json)
        }),
{
    let from = char_index_at(s, manifest.start as nat);
    let to = char_index_at(s, manifest.end as nat);
    let r = rewritten(s, manifest, json);
    assert(r.take(from) =~= s.take(from));
    assert(r.skip(from + json.len()) =~= s.skip(to));
    assert(r.subrange(from, from + json.len()) =~= json);
    assert(r.take(from + json.len()) =~= s.take(from) + json);
    crate::text::lemma_utf8_len_concat(s.take(from), json);
}

/// A rewritten theme is read back the same way: when the new JSON holds no
/// closing `*/` line and the limits still hold, the manifest of the
/// rewritten source is found exactly where the new JSON was put.
#[verifier::spinoff_prover]
#[verifier::rlimit(40)]
pub proof fn law_rewrite_is_found_again(s: Seq<char>, manifest: ThemeRange, json: Seq<char>)
    requires
        manifest_location(s) == Ok::<ThemeRange, SpecThemeFileError>(manifest),
        first_occurrence(json, manifest_closing()) is None,
        utf8_len(json) <= 32768,
        utf8_len(rewritten(s, manifest, json)) <= 262144,
    ensures
        manifest_location(rewritten(s, manifest, json)) == Ok::<ThemeRange, SpecThemeFileError>(
            ThemeRange { start: manifest.start, end: (manifest.start + utf8_len(json)) as usize },
        ),
{
    reveal_strlit("/* resumark-theme\n");
    reveal_strlit("\n*/");
    let lead = manifest_lead(s);
    let json_start = lead + manifest_opening().len();
    let rest = s.skip(json_start);
    let k = first_occurrence(rest, manifest_closing())->0;
    let r = rewritten(s, manifest, json);
    crate::text::lemma_leading_whitespace(s.skip(content_start(s)));
    lemma_first_occurrence_found(rest, manifest_closing());
    // The manifest's ends, as character indices.
    assert(s.take(s.len() as int) =~= s);
    lemma_utf8_len_monotonic(s, json_start, s.len() as int);
    lemma_utf8_len_monotonic(s, json_start + k, s.len() as int);
    lemma_char_index_at(s, manifest.start as nat, json_start);
    lemma_char_index_at(s, manifest.end as nat, json_start + k);
    assert(r == s.take(json_start) + json + s.skip(json_start + k));
    // Everything up to the JSON is unchanged.
    assert(r.take(json_start) =~= s.take(json_start));
    assert(r[0] == s[0]);
    let cs = content_start(s);
    assert(content_start(r) == cs);
    assert(r.skip(cs).take(json_start - cs) =~= s.skip(cs).take(json_start - cs));
    crate::text::lemma_leading_whitespace_prefix(s.skip(cs), r.skip(cs), json_start - cs);
    assert(manifest_lead(r) == lead);
    assert(r.subrange(lead, lead + manifest_opening().len()) =~= s.subrange(
        lead,
        lead + manifest_opening().len(),
    ));
    // The first closing line after the opening one is the one after the JSON.
    let after = r.skip(json_start);
    assert(after =~= json + s.skip(json_start + k));
    assert(s.skip(json_start + k).take(3) =~= rest.subrange(k, k + 3));
    assert(after.subrange(json.len() as int, json.len() as int + 3) =~= rest.subrange(k, k + 3));
    assert(rest.subrange(k, k + 3) == manifest_closing());
    assert(after[json.len() as int] == after.subrange(json.len() as int, json.len() as int + 3)[0]);
    assert(after[json.len() as int] == '\n');
    assert forall|j: int| 0 <= j < json.len() implies !occurs_at(after, j, manifest_closing()) by {
        if j + 3 <= json.len() {
            assert(after.subrange(j, j + 3) =~= json.subrange(j, j + 3));
            reveal(first_occurrence);
            if occurs_at(json, j, manifest_closing()) {
                assert(exists|i: int| occurs_at(json, i, manifest_closing()));
            }
        } else {
            assert(after[json.len() as int] == '\n');
            if j == json.len() - 1 {
                assert(after.subrange(j, j + 3)[1] == after[json.len() as int]);
            } else {
                assert(after.subrange(j, j + 3)[2] == after[json.len() as int]);
            }
        }
    }
    lemma_first_occurrence(after, manifest_closing(), json.len() as int);
    // The byte offsets.
    assert(r.take(json_start + json.len()) =~= s.take(json_start) + json);
    crate::text::lemma_utf8_len_concat(s.take(json_start), json);
}

proof fn lemma_first_occurrence_found(s: Seq<char>, p: Seq<char>)
    requires
        first_occurrence(s, p) is Some,
    ensures
        ({
            let k = first_occurrence(s, p)->0;
            &&& occurs_at(s, k, p)
            &&& forall|j: int| 0 <= j < k ==> !occurs_at(s, j, p)
        }),
{
    reveal(first_occurrence);
    let i = choose|i: int| occurs_at(s, i, p);
    lemma_least_occurrence(s, p, i);
}

proof fn lemma_least_occurrence(s: Seq<char>, p: Seq<char>, i: int)
    requires
        occurs_at(s, i, p),
    ensures
        exists|m: int| occurs_at(s, m, p) && forall|j: int| 0 <= j < m ==> !occurs_at(s, j, p),
    decreases i,
{
    if exists|j: int| 0 <= j < i && occurs_at(s, j, p) {
        let j = choose|j: int| 0 <= j < i && occurs_at(s, j, p);
        lemma_least_occurrence(s, p, j);
    } else {
        assert(occurs_at(s, i, p) && forall|j: int| 0 <= j < i ==> !occurs_at(s, j, p));
    }
}
/// A new font for a font control is accepted exactly when it is one of the
/// control's options, wherever among them it is listed; it then changes
/// that control.
pub proof fn law_font_accepted_iff_offered(
    controls: Seq<SpecControl>,
    key: Seq<char>,
    i: int,
    current: Seq<char>,
    options: Seq<Seq<char>>,
    next: Seq<char>,
)
    requires
        control_index(controls, key) == Some(i),
        controls[i].kind == (SpecControlKind::Font { value: current, options }),
    ensures
        (value_target(controls, key, SpecNewValue::Text(next)) == Ok::<int, Seq<char>>(i)) <==> (
        exists|j: int| 0 <= j < options.len() && options[j] == next),
        value_target(controls, key, SpecNewValue::Text(next)) is Ok ==> value_target(
            controls,
            key,
            SpecNewValue::Text(next),
        ) == Ok::<int, Seq<char>>(i),
{
    if exists|j: int| 0 <= j < options.len() && options[j] == next {
        let j = choose|j: int| 0 <= j < options.len() && options[j] == next;
        assert(options.contains(next));
    }
}

/// A description is measured in characters, not bytes: any description of
/// at most 240 characters, whatever its UTF-8 length, leaves the verdict on
/// a manifest as it would be with any other such description; one longer
/// than 240 characters is refused once the version and name pass.
pub proof fn law_description_counted_in_characters(
    m: SpecManifest,
    other: Seq<char>,
    long: Seq<char>,
)
    requires
        m.description.len() <= 240,
        other.len() <= 240,
    ensures
        manifest_problem(m) == manifest_problem(SpecManifest { description: other, ..m }),
        long.len() > 240 && m.version == 1 && trim(m.name).len() > 0 && m.name.len() <= 80
            ==> manifest_problem(SpecManifest { description: long, ..m }) == Some(
            "theme description cannot exceed 240 characters"@,
        ),
{
}

} // verus!
