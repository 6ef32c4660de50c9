//! Output settings chosen by the user.
use vstd::prelude::*;

use crate::text::{ascii_lowercase, chars_of, lower_range_equals, push_str};

verus! {

/// A supported physical page size for preview and PDF output.
#[derive(Debug, Clone, Copy, PartialEq, Eq, Structural)]
pub enum PaperSize {
    Letter,
    A4,
}

/// A paper-size name outside Resumark's supported settings.
#[derive(Debug, Clone, PartialEq, Eq)]
pub struct InvalidPaperSize(String);

impl PaperSize {
    /// The lowercase name used on the command line and in messages.
    pub open spec fn name(self) -> Seq<char> {
        match self {
            PaperSize::Letter => "letter"@,
            PaperSize::A4 => "a4"@,
        }
    }

    /// The lowercase name used on the command line and in messages.
    pub fn as_str(&self) -> (name: &'static str)
        ensures
            name@ == self.name(),
    {
        match self {
            PaperSize::Letter => "letter",
            PaperSize::A4 => "a4",
        }
    }

    /// Reads a paper-size name, ignoring ASCII case.
    pub fn parse_name(value: &str) -> (result: Result<PaperSize, InvalidPaperSize>)
        ensures
            ascii_lowercase(value@) == "letter"@ ==> result == Ok::<_, InvalidPaperSize>(
                PaperSize::Letter,
            ),
            ascii_lowercase(value@) == "a4"@ ==> result == Ok::<_, InvalidPaperSize>(
                PaperSize::A4,
            ),
            ascii_lowercase(value@) != "letter"@ && ascii_lowercase(value@) != "a4"@ ==> (
            result matches Err(e) && e@ == value@),
    {
        let chars = chars_of(value);
        let n = chars.len();
        proof {
            assert(chars@.subrange(0, n as int) =~= value@);
            reveal_strlit("letter");
            reveal_strlit("a4");
            assert("letter"@.len() != "a4"@.len());
        }
        if lower_range_equals(chars.as_slice(), 0, n, "letter") {
            Ok(PaperSize::Letter)
        } else if lower_range_equals(chars.as_slice(), 0, n, "a4") {
            Ok(PaperSize::A4)
        } else {
            Err(InvalidPaperSize(String::from_str(value)))
        }
    }
}

/// Reading a paper size's name gives the paper size back: each name is
/// already lowercase, and the two names differ.
pub proof fn law_paper_name_round_trip(paper: PaperSize, other: PaperSize)
    ensures
        ascii_lowercase(paper.name()) == paper.name(),
        paper.name() == other.name() ==> paper == other,
{
    reveal_strlit("letter");
    reveal_strlit("a4");
    assert(ascii_lowercase("letter"@) =~= "letter"@);
    assert(ascii_lowercase("a4"@) =~= "a4"@);
    assert("letter"@.len() != "a4"@.len());
}

impl Default for PaperSize {
    fn default() -> (paper: Self)
        ensures
            paper == PaperSize::Letter,
    {
        PaperSize::Letter
    }
}

impl std::str::FromStr for PaperSize {
    type Err = InvalidPaperSize;

    fn from_str(value: &str) -> (result: Result<Self, Self::Err>)
        ensures
            ascii_lowercase(value@) == "letter"@ ==> result == Ok::<_, InvalidPaperSize>(
                PaperSize::Letter,
            ),
            ascii_lowercase(value@) == "a4"@ ==> result == Ok::<_, InvalidPaperSize>(
                PaperSize::A4,
            ),
            ascii_lowercase(value@) != "letter"@ && ascii_lowercase(value@) != "a4"@ ==> (
            result matches Err(e) && e@ == value@),
    {
        PaperSize::parse_name(value)
    }
}

impl InvalidPaperSize {
    /// The rejected name.
    pub closed spec fn name(self) -> Seq<char> {
        self.0@
    }

    pub open spec fn spec_message(self) -> Seq<char> {
        "unsupported paper size `"@ + self.name() + "`; use `letter` or `a4`"@
    }

    /// The message shown for this error.
    pub fn message(&self) -> (m: String)
        ensures
            m@ == self.spec_message(),
    {
        let mut m = String::from_str("unsupported paper size `");
        push_str(&mut m, self.0.as_str());
        push_str(&mut m, "`; use `letter` or `a4`");
        m
    }
}

impl View for InvalidPaperSize {
    type V = Seq<char>;

    open spec fn view(&self) -> Seq<char> {
        self.name()
    }
}

} // verus!
