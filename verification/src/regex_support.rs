//! The regular-expression engine (`regex_lite`) as the rest of the library
//! sees it: compiling a pattern, testing it against a line, listing its
//! matches, and escaping a literal.
use vstd::prelude::*;

verus! {

/// A compiled `regex_lite` expression.
#[verifier::external_type_specification]
#[verifier::external_body]
pub struct ExRegex(regex_lite::Regex);

/// What `regex_lite::Regex::new` makes of a pattern: `None` when it
/// compiles, otherwise the text of its error.
pub uninterp spec fn regex_compile_error(pattern: Seq<char>) -> Option<Seq<char>>;

/// Whether the compiled `pattern` matches somewhere in `text`
/// (`Regex::is_match`).
pub uninterp spec fn regex_finds(pattern: Seq<char>, text: Seq<char>) -> bool;

/// The successive non-overlapping matches of `pattern` in `text`
/// (`Regex::find_iter`, each match taken as its text).
pub uninterp spec fn regex_matches(pattern: Seq<char>, text: Seq<char>) -> Seq<Seq<char>>;

/// A regular expression together with the pattern it was compiled from.
/// `compile_regex` is its only constructor, so `re` is always the
/// compilation of `source`.
pub struct CompiledRegex {
    source: String,
    re: regex_lite::Regex,
}

impl CompiledRegex {
    /// The pattern this expression was compiled from.
    pub closed spec fn pattern(&self) -> Seq<char> {
        self.source@
    }
}

/// Compiles `pattern` with `regex_lite::Regex::new`. On success the result
/// remembers `pattern`; on failure it carries the error's display text.
/// The name `regex_compile_error` stands for which patterns compile and
/// what the error says: neither is stated here.
#[verifier::external_body]
pub fn compile_regex(pattern: &str) -> (r: Result<CompiledRegex, String>)
    ensures
        match r {
            Ok(c) => c.pattern() == pattern@ && regex_compile_error(pattern@) is None,
            Err(e) => regex_compile_error(pattern@) == Some(e@),
        },
{
    match regex_lite::Regex::new(pattern) {
        Ok(re) => Ok(CompiledRegex { source: pattern.to_string(), re }),
        Err(e) => Err(e.to_string()),
    }
}

/// `Regex::is_match`: whether the expression matches anywhere in `text`.
/// Its result is named by `regex_finds`, of the pattern and the text.
#[verifier::external_body]
pub fn regex_is_match(re: &CompiledRegex, text: &str) -> (r: bool)
    ensures
        r == regex_finds(re.pattern(), text@),
{
    re.re.is_match(text)
}

/// `Regex::find_iter`: the texts of the successive matches in `text`.
/// The list is named by `regex_matches`, of the pattern and the text; it
/// is empty exactly when `Regex::is_match` finds no match.
#[verifier::external_body]
pub fn regex_find_all(re: &CompiledRegex, text: &str) -> (r: Vec<String>)
    ensures
        r@.map_values(|s: String| s@) == regex_matches(re.pattern(), text@),
        (r@.len() > 0) == regex_finds(re.pattern(), text@),
{
    re.re.find_iter(text).map(|m| m.as_str().to_string()).collect()
}

/// The characters that `regex_lite::escape` precedes with a backslash.
pub open spec fn is_regex_meta(c: char) -> bool {
    c == '\\' || c == '.' || c == '+' || c == '*' || c == '?' || c == '(' || c == ')'
        || c == '|' || c == '[' || c == ']' || c == '{' || c == '}' || c == '^' || c == '$'
        || c == '#' || c == '&' || c == '-' || c == '~'
}

/// `s` with a backslash before every regex meta character.
pub open spec fn regex_escaped(s: Seq<char>) -> Seq<char>
    decreases s.len(),
{
    if s.len() == 0 {
        Seq::empty()
    } else if is_regex_meta(s.last()) {
        regex_escaped(s.drop_last()) + seq!['\\', s.last()]
    } else {
        regex_escaped(s.drop_last()).push(s.last())
    }
}

/// `regex_lite::escape`, which the crate documents as making `s` safe to use
/// as a literal in a pattern: it writes a backslash before each character
/// of its meta set (that of `is_regex_meta`) and copies every other
/// character. That the escaped pattern compiles and matches `s` is not
/// stated here (a long enough pattern exceeds the compiler's size limit).
#[verifier::external_body]
pub fn regex_escape(s: &str) -> (r: String)
    ensures
        r@ == regex_escaped(s@),
{
    regex_lite::escape(s)
}

} // verus!
