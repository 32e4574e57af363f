use vstd::prelude::*;

verus! {

#[verifier::external_type_specification]
#[verifier::external_body]
pub struct ExRegex(regex::Regex);

/// Whether `source` is a regular expression that the regex crate compiles.
pub uninterp spec fn regex_valid(source: Seq<char>) -> bool;

/// Whether the regular expression `pattern` matches somewhere in `text`.
pub uninterp spec fn regex_matches(pattern: Seq<char>, text: Seq<char>) -> bool;

/// `text` with every non-overlapping match of `pattern` replaced by the
/// expansion of `replacement`.
pub uninterp spec fn regex_replace_all(
    pattern: Seq<char>,
    text: Seq<char>,
    replacement: Seq<char>,
) -> Seq<char>;

/// `text` with the leftmost match of `pattern` replaced by the expansion of
/// `replacement`.
pub uninterp spec fn regex_replace_first(
    pattern: Seq<char>,
    text: Seq<char>,
    replacement: Seq<char>,
) -> Seq<char>;

/// The texts of the successive non-overlapping matches of `pattern` in `text`.
pub uninterp spec fn regex_find_all(pattern: Seq<char>, text: Seq<char>) -> Seq<Seq<char>>;

/// The text of capture group `group` in the leftmost match of `pattern`, if
/// there is a match and the group took part in it.
pub uninterp spec fn regex_capture(pattern: Seq<char>, text: Seq<char>, group: nat) -> Option<
    Seq<char>,
>;

/// For each successive match of `pattern` in `text`, the texts of the named
/// groups `first` and `second`.
pub uninterp spec fn regex_named_captures(
    pattern: Seq<char>,
    text: Seq<char>,
    first: Seq<char>,
    second: Seq<char>,
) -> Seq<(Option<Seq<char>>, Option<Seq<char>>)>;

/// A compiled regular expression together with its source text.
pub struct Pattern {
    source: String,
    regex: regex::Regex,
}

impl View for Pattern {
    type V = Seq<char>;

    closed spec fn view(&self) -> Seq<char> {
        self.source@
    }
}

/// Relies on regex::Regex::new: compiles `source`, or gives the error's text;
/// whether it compiles depends on `source` alone.
#[verifier::external_body]
fn compile(source: &str) -> (r: Result<regex::Regex, String>)
    ensures
        r is Ok <==> regex_valid(source@),
{
    regex::Regex::new(source).map_err(|e| e.to_string())
}

/// Relies on regex::Regex::is_match of a regex compiled from `p@`.
#[verifier::external_body]
fn is_match_of(p: &Pattern, text: &str) -> (r: bool)
    ensures
        r == regex_matches(p@, text@),
{
    p.regex.is_match(text)
}

/// Relies on regex::Regex::replace_all of a regex compiled from `p@`; without
/// a match the text comes back unchanged.
#[verifier::external_body]
fn replace_all_of(p: &Pattern, text: &str, replacement: &str) -> (r: String)
    ensures
        r@ == regex_replace_all(p@, text@, replacement@),
        !regex_matches(p@, text@) ==> r@ == text@,
{
    p.regex.replace_all(text, replacement).to_string()
}

/// Relies on regex::Regex::replace of a regex compiled from `p@`; without a
/// match the text comes back unchanged.
#[verifier::external_body]
fn replace_first_of(p: &Pattern, text: &str, replacement: &str) -> (r: String)
    ensures
        r@ == regex_replace_first(p@, text@, replacement@),
        !regex_matches(p@, text@) ==> r@ == text@,
{
    p.regex.replace(text, replacement).to_string()
}

/// Relies on regex::Regex::find_iter of a regex compiled from `p@`: the texts
/// of the matches, none when the regex does not match.
#[verifier::external_body]
fn find_all_of(p: &Pattern, text: &str) -> (r: Vec<String>)
    ensures
        r@.map_values(|s: String| s@) == regex_find_all(p@, text@),
        r@.len() == 0 <==> !regex_matches(p@, text@),
{
    p.regex.find_iter(text).map(|m| m.as_str().to_string()).collect()
}

/// Relies on regex::Regex::captures of a regex compiled from `p@`, and on
/// regex::Captures::get for group `group`.
#[verifier::external_body]
fn capture_of(p: &Pattern, text: &str, group: usize) -> (r: Option<String>)
    ensures
        opt_seq(r) == regex_capture(p@, text@, group as nat),
{
    p.regex.captures(text).and_then(|c| c.get(group)).map(|m| m.as_str().to_string())
}

/// Relies on regex::Regex::captures_iter of a regex compiled from `p@`, and on
/// regex::Captures::name for the groups `first` and `second`.
#[verifier::external_body]
fn named_captures_of(p: &Pattern, text: &str, first: &str, second: &str) -> (r: Vec<
    (Option<String>, Option<String>),
>)
    ensures
        r@.map_values(|x: (Option<String>, Option<String>)| (opt_seq(x.0), opt_seq(x.1)))
            == regex_named_captures(p@, text@, first@, second@),
{
    p.regex.captures_iter(text).map(|c| {
        (c.name(first).map(|m| m.as_str().to_string()), c.name(second).map(|m| m.as_str().to_string()))
    }).collect()
}

/// The view of an optional string.
pub open spec fn opt_seq(o: Option<String>) -> Option<Seq<char>> {
    match o {
        Some(s) => Some(s@),
        None => None,
    }
}

impl Pattern {
    /// Compiles `source`; the error holds the compiler's explanation.
    pub fn new(source: &str) -> (r: Result<Pattern, crate::error::Error>)
        ensures
            r is Ok <==> regex_valid(source@),
            r matches Ok(p) ==> p@ == source@,
            r matches Err(e) ==> e is PatternError,
    {
        match compile(source) {
            Ok(regex) => Ok(Pattern { source: String::from_str(source), regex }),
            Err(e) => Err(crate::error::Error::PatternError(e)),
        }
    }

    /// The source text of the pattern.
    pub fn as_str(&self) -> (r: &str)
        ensures
            r@ == self@,
    {
        self.source.as_str()
    }

    /// Whether the pattern matches somewhere in `text`.
    pub fn is_match(&self, text: &str) -> (r: bool)
        ensures
            r == regex_matches(self@, text@),
    {
        is_match_of(self, text)
    }

    /// `text` with every match replaced by the expansion of `replacement`.
    pub fn replace_all(&self, text: &str, replacement: &str) -> (r: String)
        ensures
            r@ == regex_replace_all(self@, text@, replacement@),
            !regex_matches(self@, text@) ==> r@ == text@,
    {
        replace_all_of(self, text, replacement)
    }

    /// `text` with the leftmost match replaced by the expansion of
    /// `replacement`.
    pub fn replace(&self, text: &str, replacement: &str) -> (r: String)
        ensures
            r@ == regex_replace_first(self@, text@, replacement@),
            !regex_matches(self@, text@) ==> r@ == text@,
    {
        replace_first_of(self, text, replacement)
    }

    /// The texts of the successive non-overlapping matches.
    pub fn find_all(&self, text: &str) -> (r: Vec<String>)
        ensures
            r@.map_values(|s: String| s@) == regex_find_all(self@, text@),
            r@.len() == 0 <==> !regex_matches(self@, text@),
    {
        find_all_of(self, text)
    }

    /// The text of a capture group in the leftmost match.
    pub fn capture(&self, text: &str, group: usize) -> (r: Option<String>)
        ensures
            opt_seq(r) == regex_capture(self@, text@, group as nat),
    {
        capture_of(self, text, group)
    }

    /// For each match, the texts of two named groups.
    pub fn named_captures(&self, text: &str, first: &str, second: &str) -> (r: Vec<
        (Option<String>, Option<String>),
    >)
        ensures
            r@.map_values(|x: (Option<String>, Option<String>)| (opt_seq(x.0), opt_seq(x.1)))
                == regex_named_captures(self@, text@, first@, second@),
    {
        named_captures_of(self, text, first, second)
    }
}

} // verus!
