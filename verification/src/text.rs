//! Character-level helpers shared by the Markdown analyzer, the theme reader
//! and the command-line reports: UTF-8 byte widths, Unicode whitespace,
//! trimming, ASCII case folding and decimal and hexadecimal numerals.
use vstd::prelude::*;
use vstd::utf8::*;

verus! {

/// Number of bytes in the UTF-8 encoding of `c`.
pub open spec fn utf8_width(c: char) -> nat {
    if (c as u32) <= 0x7f {
        1
    } else if (c as u32) <= 0x7ff {
        2
    } else if (c as u32) <= 0xffff {
        3
    } else {
        4
    }
}

/// Number of bytes in the UTF-8 encoding of `s`.
pub open spec fn utf8_len(s: Seq<char>) -> nat
    decreases s.len(),
{
    if s.len() == 0 {
        0
    } else {
        utf8_len(s.drop_last()) + utf8_width(s.last())
    }
}

pub proof fn lemma_utf8_len_concat(a: Seq<char>, b: Seq<char>)
    ensures
        utf8_len(a + b) == utf8_len(a) + utf8_len(b),
    decreases b.len(),
{
    if b.len() > 0 {
        assert((a + b).drop_last() =~= a + b.drop_last());
        lemma_utf8_len_concat(a, b.drop_last());
    } else {
        assert(a + b =~= a);
    }
}

pub proof fn lemma_utf8_len_push(s: Seq<char>, c: char)
    ensures
        utf8_len(s.push(c)) == utf8_len(s) + utf8_width(c),
{
    assert(s.push(c).drop_last() =~= s);
}

pub proof fn lemma_utf8_len_take_step(s: Seq<char>, i: int)
    requires
        0 <= i < s.len(),
    ensures
        utf8_len(s.take(i + 1)) == utf8_len(s.take(i)) + utf8_width(s[i]),
{
    assert(s.take(i + 1) =~= s.take(i).push(s[i]));
    lemma_utf8_len_push(s.take(i), s[i]);
}

pub proof fn lemma_utf8_len_monotonic(s: Seq<char>, i: int, j: int)
    requires
        0 <= i <= j <= s.len(),
    ensures
        utf8_len(s.take(i)) <= utf8_len(s.take(j)),
        i < j ==> utf8_len(s.take(i)) < utf8_len(s.take(j)),
    decreases j - i,
{
    if i < j {
        lemma_utf8_len_take_step(s, j - 1);
        lemma_utf8_len_monotonic(s, i, j - 1);
    }
}

pub proof fn lemma_utf8_width_is_encoded_width(c: char)
    ensures
        encode_scalar(c as u32).len() == utf8_width(c),
{
    char_is_scalar(c);
}

/// The byte length that `str::len` reports agrees with `utf8_len`.
pub proof fn lemma_encoded_len(s: Seq<char>)
    ensures
        encode_utf8(s).len() == utf8_len(s),
    decreases s.len(),
{
    if s.len() > 0 {
        lemma_encoded_len(s.drop_first());
        lemma_utf8_width_is_encoded_width(s[0]);
        lemma_utf8_len_concat(seq![s[0]], s.drop_first());
        assert(seq![s[0]] + s.drop_first() =~= s);
        assert(seq![s[0]].drop_last() =~= Seq::<char>::empty());
        assert(utf8_len(Seq::<char>::empty()) == 0);
        assert(seq![s[0]] =~= Seq::<char>::empty().push(s[0]));
        lemma_utf8_len_push(Seq::<char>::empty(), s[0]);
        assert(encode_utf8(s) == encode_scalar(s[0] as u32) + encode_utf8(s.drop_first()));
    }
}

/// Byte length of a string, in the terms of its characters.
pub fn byte_len(s: &str) -> (n: usize)
    ensures
        n == utf8_len(s@),
{
    proof {
        lemma_encoded_len(s@);
    }
    s.as_bytes().len()
}

/// The UTF-8 width of `c`, as `char::len_utf8` would report it.
pub fn char_width(c: char) -> (w: usize)
    ensures
        w == utf8_width(c),
        1 <= w <= 4,
{
    let code = c as u32;
    if code <= 0x7f {
        1
    } else if code <= 0x7ff {
        2
    } else if code <= 0xffff {
        3
    } else {
        4
    }
}

/// The characters of `s`, in order.
pub fn chars_of(s: &str) -> (v: Vec<char>)
    ensures
        v@ == s@,
{
    let mut v: Vec<char> = Vec::new();
    for c in iter: s.chars()
        invariant
            v@ == iter.seq().take(iter.index() as int),
            iter.seq() == s@,
    {
        v.push(c);
    }
    v
}

/// Appends one character with `String::push`. The contract claims what
/// `String::push` documents: the string's characters afterwards are the old
/// ones followed by `c`.
#[verifier::external_body]
pub(crate) fn push_char(s: &mut String, c: char)
    ensures
        final(s)@ == old(s)@.push(c),
{
    s.push(c);
}

/// Appends a string slice.
pub fn push_str(s: &mut String, t: &str)
    ensures
        final(s)@ == old(s)@ + t@,
{
    s.append(t);
}

/// A string holding the characters `chars[from..to]`.
pub fn string_from_range(chars: &[char], from: usize, to: usize) -> (s: String)
    requires
        from <= to <= chars@.len(),
    ensures
        s@ == chars@.subrange(from as int, to as int),
{
    let mut s = String::new();
    let mut i = from;
    while i < to
        invariant
            from <= i <= to <= chars@.len(),
            s@ == chars@.subrange(from as int, i as int),
        decreases to - i,
    {
        push_char(&mut s, chars[i]);
        assert(chars@.subrange(from as int, i + 1) =~= chars@.subrange(from as int, i as int).push(
            chars@[i as int],
        ));
        i = i + 1;
    }
    s
}

/// Whether `c` has the Unicode `White_Space` property, which is what
/// `char::is_whitespace` and `str::trim` test.
pub open spec fn is_whitespace(c: char) -> bool {
    let u = c as u32;
    ||| 0x09 <= u <= 0x0d
    ||| u == 0x20
    ||| u == 0x85
    ||| u == 0xa0
    ||| u == 0x1680
    ||| 0x2000 <= u <= 0x200a
    ||| u == 0x2028
    ||| u == 0x2029
    ||| u == 0x202f
    ||| u == 0x205f
    ||| u == 0x3000
}

pub fn char_is_whitespace(c: char) -> (b: bool)
    ensures
        b == is_whitespace(c),
{
    let u = c as u32;
    (0x09 <= u && u <= 0x0d) || u == 0x20 || u == 0x85 || u == 0xa0 || u == 0x1680 || (0x2000
        <= u && u <= 0x200a) || u == 0x2028 || u == 0x2029 || u == 0x202f || u == 0x205f || u
        == 0x3000
}

/// Number of whitespace characters at the start of `s`.
pub open spec fn leading_whitespace(s: Seq<char>) -> nat
    decreases s.len(),
{
    if s.len() == 0 || !is_whitespace(s[0]) {
        0
    } else {
        1 + leading_whitespace(s.drop_first())
    }
}

/// Number of whitespace characters at the end of `s`.
pub open spec fn trailing_whitespace(s: Seq<char>) -> nat
    decreases s.len(),
{
    if s.len() == 0 || !is_whitespace(s.last()) {
        0
    } else {
        1 + trailing_whitespace(s.drop_last())
    }
}

/// `s` with leading and trailing Unicode whitespace removed, as `str::trim` does.
pub open spec fn trim(s: Seq<char>) -> Seq<char> {
    let front = s.skip(leading_whitespace(s) as int);
    front.take(front.len() - trailing_whitespace(front))
}

pub proof fn lemma_leading_whitespace(s: Seq<char>)
    ensures
        leading_whitespace(s) <= s.len(),
        forall|i: int| 0 <= i < leading_whitespace(s) ==> is_whitespace(#[trigger] s[i]),
        leading_whitespace(s) < s.len() ==> !is_whitespace(s[leading_whitespace(s) as int]),
    decreases s.len(),
{
    if s.len() > 0 && is_whitespace(s[0]) {
        lemma_leading_whitespace(s.drop_first());
        assert forall|i: int| 0 <= i < leading_whitespace(s) implies is_whitespace(#[trigger] s[i]) by {
            if i > 0 {
                assert(s[i] == s.drop_first()[i - 1]);
            }
        }
    }
}

/// Leading whitespace is decided by the characters up to the first other
/// one.
pub proof fn lemma_leading_whitespace_prefix(a: Seq<char>, b: Seq<char>, m: int)
    requires
        0 <= m <= a.len(),
        m <= b.len(),
        a.take(m) == b.take(m),
        leading_whitespace(a) < m,
    ensures
        leading_whitespace(b) == leading_whitespace(a),
    decreases a.len(),
{
    assert(a[0] == a.take(m)[0]);
    assert(b[0] == b.take(m)[0]);
    if is_whitespace(a[0]) {
        assert(a.drop_first().take(m - 1) =~= b.drop_first().take(m - 1)) by {
            assert forall|i: int| 0 <= i < m - 1 implies a.drop_first()[i] == b.drop_first()[i] by {
                assert(a.take(m)[i + 1] == b.take(m)[i + 1]);
                assert(a.take(m)[i + 1] == a[i + 1]);
                assert(b.take(m)[i + 1] == b[i + 1]);
            }
        }
        lemma_leading_whitespace_prefix(a.drop_first(), b.drop_first(), m - 1);
    }
}

pub proof fn lemma_trailing_whitespace(s: Seq<char>)
    ensures
        trailing_whitespace(s) <= s.len(),
        forall|i: int|
            s.len() - trailing_whitespace(s) <= i < s.len() ==> is_whitespace(#[trigger] s[i]),
        trailing_whitespace(s) < s.len() ==> !is_whitespace(
            s[s.len() - trailing_whitespace(s) - 1],
        ),
    decreases s.len(),
{
    if s.len() > 0 && is_whitespace(s.last()) {
        lemma_trailing_whitespace(s.drop_last());
        assert forall|i: int|
            s.len() - trailing_whitespace(s) <= i < s.len() implies is_whitespace(
            #[trigger] s[i],
        ) by {
            if i < s.len() - 1 {
                assert(s[i] == s.drop_last()[i]);
            }
        }
    }
}

/// Counts the leading whitespace of `chars[from..to]`.
pub fn count_leading_whitespace(chars: &[char], from: usize, to: usize) -> (n: usize)
    requires
        from <= to <= chars@.len(),
    ensures
        n == leading_whitespace(chars@.subrange(from as int, to as int)),
        from + n <= to,
{
    let ghost s = chars@.subrange(from as int, to as int);
    let mut i = from;
    while i < to && char_is_whitespace(chars[i])
        invariant
            from <= i <= to <= chars@.len(),
            s == chars@.subrange(from as int, to as int),
            leading_whitespace(s) == (i - from) + leading_whitespace(
                chars@.subrange(i as int, to as int),
            ),
        decreases to - i,
    {
        assert(chars@.subrange(i as int, to as int).drop_first() =~= chars@.subrange(
            i + 1,
            to as int,
        ));
        i = i + 1;
    }
    i - from
}

/// Counts the trailing whitespace of `chars[from..to]`.
pub fn count_trailing_whitespace(chars: &[char], from: usize, to: usize) -> (n: usize)
    requires
        from <= to <= chars@.len(),
    ensures
        n == trailing_whitespace(chars@.subrange(from as int, to as int)),
        from + n <= to,
{
    let ghost s = chars@.subrange(from as int, to as int);
    let mut i = to;
    while i > from && char_is_whitespace(chars[i - 1])
        invariant
            from <= i <= to <= chars@.len(),
            s == chars@.subrange(from as int, to as int),
            trailing_whitespace(s) == (to - i) + trailing_whitespace(
                chars@.subrange(from as int, i as int),
            ),
        decreases i - from,
    {
        assert(chars@.subrange(from as int, i as int).drop_last() =~= chars@.subrange(
            from as int,
            i - 1,
        ));
        i = i - 1;
    }
    to - i
}

/// The characters of `s` with surrounding whitespace removed.
pub fn trimmed(s: &[char]) -> (t: String)
    ensures
        t@ == trim(s@),
{
    let n = s.len();
    let lead = count_leading_whitespace(s, 0, n);
    let trail = count_trailing_whitespace(s, lead, n);
    proof {
        assert(s@.subrange(0, n as int) =~= s@);
        assert(s@.subrange(lead as int, n as int) =~= s@.skip(lead as int));
    }
    let t = string_from_range(s, lead, n - trail);
    proof {
        assert(s@.subrange(lead as int, (n - trail) as int) =~= s@.skip(lead as int).take(
            s@.skip(lead as int).len() - trail,
        ));
    }
    t
}

/// ASCII lowercase of one character; other characters are unchanged.
pub open spec fn ascii_lower(c: char) -> char {
    if 'A' <= c && c <= 'Z' {
        ((c as u32) + 32) as char
    } else {
        c
    }
}

/// ASCII lowercase of a character sequence, as `str::to_ascii_lowercase`.
pub open spec fn ascii_lowercase(s: Seq<char>) -> Seq<char> {
    s.map_values(|c: char| ascii_lower(c))
}

pub fn char_ascii_lower(c: char) -> (l: char)
    ensures
        l == ascii_lower(c),
{
    if 'A' <= c && c <= 'Z' {
        let u = (c as u32) + 32;
        proof {
            vstd::utf8::char_is_scalar(c);
        }
        // `u` lies in 'a'..='z'
        assert(0x61 <= u <= 0x7a);
        char_from_ascii(u)
    } else {
        c
    }
}

fn char_from_ascii(u: u32) -> (c: char)
    requires
        u < 0x80,
    ensures
        c == u as char,
{
    let b = u as u8;
    b as char
}

/// Whether `p` occurs in `s` starting at index `i`.
pub open spec fn occurs_at(s: Seq<char>, i: int, p: Seq<char>) -> bool {
    0 <= i && i + p.len() <= s.len() && s.subrange(i, i + p.len()) == p
}

/// Whether `b` occurs in `a` starting at index `from`.
pub fn occurs_at_index(a: &[char], from: usize, b: &str) -> (found: bool)
    ensures
        found == occurs_at(a@, from as int, b@),
{
    let b_chars = chars_of(b);
    let m = b_chars.len();
    let n = a.len();
    if from > n || n - from < m {
        return false;
    }
    for j in 0..m
        invariant
            n == a@.len(),
            m == b_chars@.len(),
            b_chars@ == b@,
            from + m <= a@.len(),
            forall|k: int| 0 <= k < j ==> a@[from + k] == b_chars@[k],
    {
        if a[from + j] != b_chars[j] {
            assert(a@.subrange(from as int, from + m)[j as int] == a@[from + j]);
            return false;
        }
    }
    assert(a@.subrange(from as int, from + m) =~= b@);
    true
}

/// The UTF-8 length of the first `i` characters of `chars`.
pub fn prefix_byte_len(chars: &[char], i: usize) -> (n: usize)
    requires
        i <= chars@.len(),
        utf8_len(chars@) <= usize::MAX,
    ensures
        n == utf8_len(chars@.take(i as int)),
{
    let mut n: usize = 0;
    for k in 0..i
        invariant
            i <= chars@.len(),
            utf8_len(chars@) <= usize::MAX,
            n == utf8_len(chars@.take(k as int)),
    {
        proof {
            lemma_utf8_len_take_step(chars@, k as int);
            lemma_utf8_len_monotonic(chars@, k + 1, chars@.len() as int);
            assert(chars@.take(chars@.len() as int) =~= chars@);
        }
        n = n + char_width(chars[k]);
    }
    n
}

/// Whether the ASCII lowercase of `a[from..to]` equals `b`.
pub fn lower_range_equals(a: &[char], from: usize, to: usize, b: &str) -> (eq: bool)
    requires
        from <= to <= a@.len(),
    ensures
        eq == (ascii_lowercase(a@.subrange(from as int, to as int)) == b@),
{
    let b_chars = chars_of(b);
    let ghost lower = ascii_lowercase(a@.subrange(from as int, to as int));
    if to - from != b_chars.len() {
        return false;
    }
    let mut i = from;
    while i < to
        invariant
            from <= i <= to <= a@.len(),
            to - from == b_chars@.len(),
            b_chars@ == b@,
            lower == ascii_lowercase(a@.subrange(from as int, to as int)),
            forall|j: int| 0 <= j < i - from ==> lower[j] == b_chars@[j],
        decreases to - i,
    {
        if char_ascii_lower(a[i]) != b_chars[i - from] {
            assert(lower[i - from] == ascii_lower(a@[i as int]));
            return false;
        }
        i = i + 1;
    }
    assert(lower =~= b@);
    true
}

/// Decimal digit character for `d < 10`.
pub open spec fn digit_char(d: nat) -> char {
    (('0' as u32) + d) as char
}

/// Hexadecimal uppercase digit character for `d < 16`.
pub open spec fn hex_char(d: nat) -> char {
    if d < 10 {
        (('0' as u32) + d) as char
    } else {
        (('A' as u32) + d - 10) as char
    }
}

/// The decimal numeral of `n`, as `format!("{}", n)` writes it.
pub open spec fn decimal(n: nat) -> Seq<char>
    decreases n,
{
    if n < 10 {
        seq![digit_char(n)]
    } else {
        decimal(n / 10).push(digit_char(n % 10))
    }
}

/// The uppercase hexadecimal numeral of `n`, without padding.
pub open spec fn hex_upper(n: nat) -> Seq<char>
    decreases n,
{
    if n < 16 {
        seq![hex_char(n)]
    } else {
        hex_upper(n / 16).push(hex_char(n % 16))
    }
}

/// The uppercase hexadecimal numeral of `n`, zero-padded to at least four
/// digits, as `format!("{:04X}", n)` writes it.
pub open spec fn hex_upper_4(n: nat) -> Seq<char> {
    let digits = hex_upper(n);
    if digits.len() < 4 {
        Seq::new((4 - digits.len()) as nat, |i: int| '0') + digits
    } else {
        digits
    }
}

fn digit(d: u64) -> (c: char)
    requires
        d < 10,
    ensures
        c == digit_char(d as nat),
{
    char_from_ascii(0x30 + d as u32)
}

fn hex_digit(d: u32) -> (c: char)
    requires
        d < 16,
    ensures
        c == hex_char(d as nat),
{
    if d < 10 {
        char_from_ascii(0x30 + d)
    } else {
        char_from_ascii(0x41 + d - 10)
    }
}

/// Appends the decimal numeral of `n`.
pub fn push_decimal(out: &mut String, n: u64)
    ensures
        final(out)@ == old(out)@ + decimal(n as nat),
    decreases n,
{
    if n < 10 {
        push_char(out, digit(n));
        assert(old(out)@.push(digit_char(n as nat)) =~= old(out)@ + decimal(n as nat));
    } else {
        push_decimal(out, n / 10);
        push_char(out, digit(n % 10));
        assert(old(out)@ + decimal((n / 10) as nat) + seq![digit_char((n % 10) as nat)]
            =~= old(out)@ + decimal(n as nat));
    }
}

pub proof fn lemma_hex_upper_len(n: nat)
    ensures
        hex_upper(n).len() >= 1,
        n < 0x10000 ==> hex_upper(n).len() <= 4,
        n < 0x10 ==> hex_upper(n).len() == 1,
        0x10 <= n < 0x100 ==> hex_upper(n).len() == 2,
        0x100 <= n < 0x1000 ==> hex_upper(n).len() == 3,
        0x1000 <= n ==> hex_upper(n).len() >= 4,
    decreases n,
{
    if n >= 16 {
        lemma_hex_upper_len(n / 16);
    }
}

fn push_hex(out: &mut String, n: u32)
    ensures
        final(out)@ == old(out)@ + hex_upper(n as nat),
    decreases n,
{
    if n < 16 {
        push_char(out, hex_digit(n));
        assert(old(out)@.push(hex_char(n as nat)) =~= old(out)@ + hex_upper(n as nat));
    } else {
        push_hex(out, n / 16);
        push_char(out, hex_digit(n % 16));
        assert(old(out)@ + hex_upper((n / 16) as nat) + seq![hex_char((n % 16) as nat)]
            =~= old(out)@ + hex_upper(n as nat));
    }
}

/// Appends the uppercase hexadecimal numeral of `n`, padded to four digits.
pub fn push_hex4(out: &mut String, n: u32)
    ensures
        final(out)@ == old(out)@ + hex_upper_4(n as nat),
{
    proof {
        lemma_hex_upper_len(n as nat);
    }
    let ghost start = out@;
    let pad: usize = if n < 0x10 {
        3
    } else if n < 0x100 {
        2
    } else if n < 0x1000 {
        1
    } else {
        0
    };
    let mut i: usize = 0;
    while i < pad
        invariant
            i <= pad <= 3,
            out@ == start + Seq::new(i as nat, |k: int| '0'),
        decreases pad - i,
    {
        push_char(out, '0');
        assert(start + Seq::new((i + 1) as nat, |k: int| '0') =~= (start + Seq::new(
            i as nat,
            |k: int| '0',
        )).push('0'));
        i = i + 1;
    }
    push_hex(out, n);
    proof {
        let digits = hex_upper(n as nat);
        if digits.len() < 4 {
            assert(pad == 4 - digits.len());
        } else {
            assert(pad == 0);
            assert(Seq::new(0, |k: int| '0') =~= Seq::<char>::empty());
        }
        assert(start + Seq::new(pad as nat, |k: int| '0') + digits =~= start + hex_upper_4(
            n as nat,
        ));
    }
}

} // verus!
