use vstd::prelude::*;
use crate::segments::byte_to_char;

verus! {

#[verifier::external_type_specification]
#[verifier::external_body]
pub struct ExRegex(regex::Regex);

/// Whether `regex::Regex::new` accepts `pattern`.
pub uninterp spec fn regex_compiles(pattern: Seq<char>) -> bool;

/// Whether the regex compiled from `pattern` matches somewhere in `text`
/// (`Regex::is_match`).
pub uninterp spec fn regex_is_match(pattern: Seq<char>, text: Seq<char>) -> bool;

/// The byte spans `(start, end)` of the successive non-overlapping matches of
/// the regex compiled from `pattern` in `text` (`Regex::find_iter`).
pub uninterp spec fn regex_find_spans(pattern: Seq<char>, text: Seq<char>) -> Seq<(usize, usize)>;

/// The shape `Regex::find_iter` documents for its matches in `text`: each
/// starts no later than it ends, both ends fall on character boundaries, and
/// the matches come in order without overlapping.
pub open spec fn well_formed_spans(text: Seq<char>, spans: Seq<(usize, usize)>) -> bool {
    &&& forall|i: int|
        0 <= i < spans.len() ==> #[trigger] spans[i].0 <= spans[i].1 && byte_to_char(
            text,
            spans[i].0 as int,
        ) is Some && byte_to_char(text, spans[i].1 as int) is Some
    &&& forall|i: int, j: int| 0 <= i < j < spans.len() ==> spans[i].1 <= spans[j].0
}

/// The characters that `regex::escape` puts a backslash before.
pub open spec fn is_meta_character(c: char) -> bool {
    c == '\\' || c == '.' || c == '+' || c == '*' || c == '?' || c == '(' || c == ')' || c == '|'
        || c == '[' || c == ']' || c == '{' || c == '}' || c == '^' || c == '$' || c == '#' || c
        == '&' || c == '-' || c == '~'
}

/// `regex::escape`: every meta character preceded by a backslash.
pub open spec fn escape_spec(s: Seq<char>) -> Seq<char>
    decreases s.len(),
{
    if s.len() == 0 {
        Seq::empty()
    } else {
        let rest = escape_spec(s.drop_last());
        if is_meta_character(s.last()) {
            rest.push('\\').push(s.last())
        } else {
            rest.push(s.last())
        }
    }
}

/// A regular expression together with the pattern text it was compiled from.
pub struct Pattern {
    source: String,
    compiled: regex::Regex,
}

impl View for Pattern {
    type V = Seq<char>;

    closed spec fn view(&self) -> Seq<char> {
        self.source@
    }
}

impl Pattern {
    /// Compiles `source` with `regex::Regex::new`; `None` when the regex crate
    /// rejects it. Which patterns it rejects is not stated: that is the regex
    /// crate's grammar and size limits.
    #[verifier::external_body]
    pub(crate) fn compile(source: &str) -> (r: Option<Pattern>)
        ensures
            r is Some <==> regex_compiles(source@),
            r matches Some(p) ==> p@ == source@,
    {
        match regex::Regex::new(source) {
            Ok(re) => Some(Pattern { source: source.to_string(), compiled: re }),
            Err(_) => None,
        }
    }

    /// `Regex::is_match` on `text`; what it matches is the regex crate's
    /// semantics and is only named here.
    #[verifier::external_body]
    pub(crate) fn is_match(&self, text: &str) -> (b: bool)
        ensures
            b == regex_is_match(self@, text@),
    {
        self.compiled.is_match(text)
    }

    /// The byte spans of `Regex::find_iter` on `text`: which they are is only
    /// named; their documented shape (`well_formed_spans`) is stated.
    #[verifier::external_body]
    pub(crate) fn find_spans(&self, text: &str) -> (v: Vec<(usize, usize)>)
        ensures
            v@ == regex_find_spans(self@, text@),
            well_formed_spans(text@, v@),
    {
        self.compiled.find_iter(text).map(|m| (m.start(), m.end())).collect()
    }

    /// The pattern text.
    pub fn source(&self) -> (s: &str)
        ensures
            s@ == self@,
    {
        self.source.as_str()
    }
}

/// `regex::escape`: the text with each regex meta character escaped by a backslash.
#[verifier::external_body]
pub(crate) fn escape(text: &str) -> (r: String)
    ensures
        r@ == escape_spec(text@),
{
    regex::escape(text)
}

} // verus!
