//! Cell text paired with its display width.
//!
//! A [`WidthString`] stores a string together with the number of terminal
//! columns it occupies, measured once at construction.  The width comes from
//! the East-Asian-width rules of the `unicode-width` crate, so wide scripts
//! pad correctly; characters of the Ambiguous class count as one column.

use vstd::prelude::*;
use vstd::string::StringExecFns;

verus! {

/// The display width of a string: the number of monospaced terminal columns
/// it occupies, per Unicode Standard Annex 11, with Ambiguous characters one
/// column wide.  It is a function of the characters alone.
pub uninterp spec fn display_width_of(s: Seq<char>) -> nat;

/// Relies on `unicode_width::UnicodeWidthStr::width`: the string's displayed
/// width in columns per Unicode Standard Annex 11 (Ambiguous as 1 column),
/// computed as a fold over the characters, so it depends on the characters
/// alone, and an empty string has width 0.
#[verifier::external_body]
fn str_display_width(s: &str) -> (w: usize)
    ensures
        w == display_width_of(s@),
        s@.len() == 0 ==> w == 0,
{
    unicode_width::UnicodeWidthStr::width(s)
}

/// Relies on `String::push`: appends the given character to the string.
#[verifier::external_body]
pub(crate) fn push_char(s: &mut String, c: char)
    ensures
        final(s)@ == old(s)@.push(c),
{
    s.push(c)
}

/// The mathematical value of a [`WidthString`]: its text and cached width.
pub ghost struct CellView {
    pub text: Seq<char>,
    pub width: nat,
}

/// A string measured into (text, display width) at construction.
#[derive(Clone)]
pub struct WidthString {
    string: String,
    width: usize,
}

impl View for WidthString {
    type V = CellView;

    closed spec fn view(&self) -> CellView {
        CellView { text: self.string@, width: self.width as nat }
    }
}

impl WidthString {
    /// The cached width is the display width of the text.
    pub open spec fn wf(self) -> bool {
        self@.width == display_width_of(self@.text)
    }

    /// Renders `thing` to text and measures its display width.
    pub fn new<T: core::fmt::Display>(thing: T) -> (r: WidthString)
        ensures
            r.wf(),
            exists|s: String|
                vstd::string::to_string_from_display_ensures::<T>(&thing, s) && r@.text == s@,
    {
        let string = thing.to_string();
        let width = str_display_width(string.as_str());
        WidthString { string, width }
    }

    /// Measures a borrowed string directly, without going through `Display`.
    pub fn from_str(s: &str) -> (r: WidthString)
        ensures
            r.wf(),
            r@.text == s@,
            r@.width == display_width_of(s@),
    {
        let string = String::from_str(s);
        let width = str_display_width(string.as_str());
        WidthString { string, width }
    }

    /// The display width of the text, as measured at construction.
    pub fn width(&self) -> (w: usize)
        ensures
            w == self@.width,
    {
        self.width
    }

    /// The text itself.
    pub fn as_str(&self) -> (r: &str)
        ensures
            r@ == self@.text,
    {
        self.string.as_str()
    }
}

} // verus!
