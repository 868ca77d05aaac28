//! Glob helper functions: detecting, escaping and unescaping glob patterns.
use vstd::prelude::*;
use crate::regex_support::{compile_regex, regex_compile_error, regex_finds, regex_is_match};
use crate::text::{chars_of, push_char, string_of, views_of};

verus! {

/// A filesystem path (`std::path::Path`), carried through unread.
#[verifier::external_type_specification]
#[verifier::external_body]
pub struct ExPath(std::path::Path);

/// The characters that make a word a standard glob pattern.
pub open spec fn is_plain_glob_char(c: char) -> bool {
    c == '*' || c == '?' || c == '['
}

/// The pattern of an extglob opener: one of `@*+?!` followed by `(`.
pub open spec fn extglob_pattern() -> Seq<char> {
    seq!['[', '@', '*', '+', '?', '!', ']', '\\', '(']
}

/// Whether `value` is a glob pattern, extglob forms counting when `extglob`.
pub open spec fn is_glob_pattern(value: Seq<char>, extglob: bool) -> bool {
    (exists|i: int| 0 <= i < value.len() && is_plain_glob_char(#[trigger] value[i]))
        || (extglob && regex_compile_error(extglob_pattern()) is None
            && regex_finds(extglob_pattern(), value))
}

/// Check if a string contains glob patterns, including extglob when enabled.
pub fn has_glob_pattern(value: &str, extglob: bool) -> (r: bool)
    ensures
        r == is_glob_pattern(value@, extglob),
{
    let v = chars_of(value);
    let mut i: usize = 0;
    while i < v.len()
        invariant
            i <= v.len(),
            v@ == value@,
            forall|j: int| 0 <= j < i ==> !is_plain_glob_char(#[trigger] v@[j]),
        decreases v.len() - i,
    {
        if v[i] == '*' || v[i] == '?' || v[i] == '[' {
            assert(is_plain_glob_char(value@[i as int]));
            return true;
        }
        i = i + 1;
    }
    if extglob {
        let pattern = "[@*+?!]\\(";
        proof {
            reveal_strlit("[@*+?!]\\(");
            assert(pattern@ =~= extglob_pattern());
        }
        match compile_regex(pattern) {
            Ok(re) => {
                if regex_is_match(&re, value) {
                    return true;
                }
            },
            Err(_) => {},
        }
    }
    false
}

/// `pattern` with each backslash-escape replaced by the character it escapes
/// (a trailing lone backslash stays).
pub open spec fn glob_unescaped(p: Seq<char>) -> Seq<char>
    decreases p.len(),
{
    if p.len() == 0 {
        Seq::empty()
    } else if p[0] == '\\' && p.len() >= 2 {
        seq![p[1]] + glob_unescaped(p.skip(2))
    } else {
        seq![p[0]] + glob_unescaped(p.skip(1))
    }
}

/// Unescape a glob pattern - convert escaped glob chars to literal chars.
/// For example, [\]_ (escaped pattern) becomes [\\]_ (literal string).
///
/// This is used when we need to take a pattern that was built with escaped
/// glob characters and convert it back to a literal string (e.g., for
/// no-match fallback when nullglob is off).
pub fn unescape_glob_pattern(pattern: &str) -> (r: String)
    ensures
        r@ == glob_unescaped(pattern@),
{
    let chars = chars_of(pattern);
    let mut out: Vec<char> = Vec::new();
    let mut i: usize = 0;
    assert(chars@.skip(0) =~= chars@);
    assert(out@ + glob_unescaped(chars@) =~= glob_unescaped(chars@));
    while i < chars.len()
        invariant
            i <= chars.len(),
            out@ + glob_unescaped(chars@.skip(i as int)) == glob_unescaped(chars@),
        decreases chars.len() - i,
    {
        let ghost rest = chars@.skip(i as int);
        if chars[i] == '\\' && i + 1 < chars.len() {
            out.push(chars[i + 1]);
            assert(rest.skip(2) =~= chars@.skip(i + 2));
            assert(rest[1] == chars@[i + 1]);
            i = i + 2;
        } else {
            out.push(chars[i]);
            assert(rest.skip(1) =~= chars@.skip(i + 1));
            i = i + 1;
        }
    }
    assert(chars@.skip(chars.len() as int) =~= Seq::<char>::empty());
    assert(out@ + Seq::<char>::empty() =~= out@);
    string_of(out.as_slice())
}

/// The characters that `escape_glob_chars` escapes, extglob ones included.
pub open spec fn is_glob_meta(c: char) -> bool {
    c == '*' || c == '?' || c == '[' || c == ']' || c == '\\' || c == '(' || c == ')' || c == '|'
}

/// The characters that `escape_regex_chars` escapes.
pub open spec fn is_regex_special(c: char) -> bool {
    c == '\\' || c == '^' || c == '$' || c == '.' || c == '*' || c == '+' || c == '?' || c == '('
        || c == ')' || c == '[' || c == ']' || c == '{' || c == '}' || c == '|'
}

/// `s` with a backslash before each character of the set `meta`.
pub open spec fn escaped_with(s: Seq<char>, meta: spec_fn(char) -> bool) -> Seq<char>
    decreases s.len(),
{
    if s.len() == 0 {
        Seq::empty()
    } else if meta(s[0]) {
        seq!['\\', s[0]] + escaped_with(s.skip(1), meta)
    } else {
        seq![s[0]] + escaped_with(s.skip(1), meta)
    }
}

proof fn lemma_escaped_with_push(s: Seq<char>, c: char, meta: spec_fn(char) -> bool)
    ensures
        escaped_with(s.push(c), meta) == escaped_with(s, meta) + (if meta(c) {
            seq!['\\', c]
        } else {
            seq![c]
        }),
    decreases s.len(),
{
    if s.len() == 0 {
        assert(s.push(c).skip(1) =~= Seq::<char>::empty());
        assert(s =~= Seq::<char>::empty());
    } else {
        lemma_escaped_with_push(s.skip(1), c, meta);
        assert(s.push(c).skip(1) =~= s.skip(1).push(c));
        assert(s.push(c)[0] == s[0]);
    }
}

fn escape_chars_with(s: &str, glob: bool) -> (r: String)
    ensures
        r@ == escaped_with(s@, if glob { |c: char| is_glob_meta(c) } else { |c: char| is_regex_special(c) }),
{
    let ghost meta = if glob { |c: char| is_glob_meta(c) } else { |c: char| is_regex_special(c) };
    let chars = chars_of(s);
    let mut out = String::new();
    let mut i: usize = 0;
    while i < chars.len()
        invariant
            i <= chars.len(),
            chars@ == s@,
            meta == (if glob { |c: char| is_glob_meta(c) } else { |c: char| is_regex_special(c) }),
            out@ == escaped_with(chars@.take(i as int), meta),
        decreases chars.len() - i,
    {
        let c = chars[i];
        let special = if glob {
            c == '*' || c == '?' || c == '[' || c == ']' || c == '\\' || c == '(' || c == ')' || c == '|'
        } else {
            c == '\\' || c == '^' || c == '$' || c == '.' || c == '*' || c == '+' || c == '?'
                || c == '(' || c == ')' || c == '[' || c == ']' || c == '{' || c == '}' || c == '|'
        };
        assert(special == meta(c));
        if special {
            push_char(&mut out, '\\');
        }
        push_char(&mut out, c);
        proof {
            lemma_escaped_with_push(chars@.take(i as int), c, meta);
            assert(chars@.take(i + 1) =~= chars@.take(i as int).push(c));
        }
        i = i + 1;
    }
    assert(chars@.take(chars.len() as int) =~= chars@);
    out
}

/// `s` with glob metacharacters escaped for literal matching.
pub open spec fn glob_escaped(s: Seq<char>) -> Seq<char> {
    escaped_with(s, |c: char| is_glob_meta(c))
}

/// `s` with regex metacharacters escaped for literal matching.
pub open spec fn regex_special_escaped(s: Seq<char>) -> Seq<char> {
    escaped_with(s, |c: char| is_regex_special(c))
}

/// Escape glob metacharacters in a string for literal matching.
/// Includes extglob metacharacters: ( ) |
pub fn escape_glob_chars(s: &str) -> (r: String)
    ensures
        r@ == glob_escaped(s@),
{
    escape_chars_with(s, true)
}

/// Escape regex metacharacters in a string for literal matching.
/// Used when quoted patterns are used with =~ operator.
pub fn escape_regex_chars(s: &str) -> (r: String)
    ensures
        r@ == regex_special_escaped(s@),
{
    escape_chars_with(s, false)
}

proof fn lemma_unescape_inverts_escape(s: Seq<char>, meta: spec_fn(char) -> bool)
    requires
        meta('\\'),
    ensures
        glob_unescaped(escaped_with(s, meta)) == s,
    decreases s.len(),
{
    if s.len() > 0 {
        lemma_unescape_inverts_escape(s.skip(1), meta);
        let e = escaped_with(s, meta);
        let tail = escaped_with(s.skip(1), meta);
        if meta(s[0]) {
            assert(e.skip(2) =~= tail);
            assert(e[1] == s[0]);
        } else {
            assert(e.skip(1) =~= tail);
            assert(e[0] == s[0]);
        }
        assert(seq![s[0]] + s.skip(1) =~= s);
    }
}

/// Unescaping undoes glob escaping: `unescape_glob_pattern(escape_glob_chars(s)) == s`.
pub proof fn unescape_glob_escape_roundtrip(s: Seq<char>)
    ensures
        glob_unescaped(glob_escaped(s)) == s,
{
    lemma_unescape_inverts_escape(s, |c: char| is_glob_meta(c));
}

/// Unescaping also undoes regex escaping: `unescape_glob_pattern(escape_regex_chars(s)) == s`.
pub proof fn unescape_regex_escape_roundtrip(s: Seq<char>)
    ensures
        glob_unescaped(regex_special_escaped(s)) == s,
{
    lemma_unescape_inverts_escape(s, |c: char| is_regex_special(c));
}

/// Whether `t` has no character of `special` that is not escaped: read
/// from the left, a backslash escapes the character after it.
pub open spec fn no_bare_special(t: Seq<char>, special: spec_fn(char) -> bool) -> bool
    decreases t.len(),
{
    if t.len() == 0 {
        true
    } else if t[0] == '\\' && t.len() >= 2 {
        no_bare_special(t.skip(2), special)
    } else {
        !special(t[0]) && no_bare_special(t.skip(1), special)
    }
}

/// How many characters of `s` are in `special`.
pub open spec fn count_special(s: Seq<char>, special: spec_fn(char) -> bool) -> nat
    decreases s.len(),
{
    if s.len() == 0 {
        0
    } else {
        (if special(s[0]) { 1nat } else { 0nat }) + count_special(s.skip(1), special)
    }
}

proof fn lemma_escaped_quotes_special(s: Seq<char>, meta: spec_fn(char) -> bool, special: spec_fn(char) -> bool)
    requires
        meta('\\'),
        forall|c: char| #[trigger] meta(c) == special(c),
    ensures
        no_bare_special(escaped_with(s, meta), special),
        escaped_with(s, meta).len() == s.len() + count_special(s, special),
    decreases s.len(),
{
    if s.len() > 0 {
        lemma_escaped_quotes_special(s.skip(1), meta, special);
        let e = escaped_with(s, meta);
        let tail = escaped_with(s.skip(1), meta);
        assert(meta(s[0]) == special(s[0]));
        if meta(s[0]) {
            assert(e.skip(2) =~= tail);
        } else {
            assert(s[0] != '\\');
            assert(e.skip(1) =~= tail);
        }
    }
}

/// `escape_regex_chars` quotes exactly the regex metacharacters
/// `\ ^ $ . * + ? ( ) [ ] { } |`: in the result none of them is left
/// unescaped, one backslash is added for each of them and for nothing
/// else, and removing the escapes gives the input back.
pub proof fn escape_regex_quotes_metacharacters(s: Seq<char>)
    ensures
        no_bare_special(regex_special_escaped(s), |c: char| c == '\\' || c == '^' || c == '$' || c == '.'
            || c == '*' || c == '+' || c == '?' || c == '(' || c == ')' || c == '[' || c == ']'
            || c == '{' || c == '}' || c == '|'),
        regex_special_escaped(s).len() == s.len() + count_special(s, |c: char| c == '\\' || c == '^'
            || c == '$' || c == '.' || c == '*' || c == '+' || c == '?' || c == '(' || c == ')'
            || c == '[' || c == ']' || c == '{' || c == '}' || c == '|'),
        glob_unescaped(regex_special_escaped(s)) == s,
{
    let special = |c: char| c == '\\' || c == '^' || c == '$' || c == '.' || c == '*' || c == '+'
        || c == '?' || c == '(' || c == ')' || c == '[' || c == ']' || c == '{' || c == '}' || c == '|';
    lemma_escaped_quotes_special(s, |c: char| is_regex_special(c), special);
    lemma_unescape_inverts_escape(s, |c: char| is_regex_special(c));
}

/// `escape_glob_chars` quotes exactly the glob metacharacters
/// `* ? [ ] \ ( ) |`, in the same sense.
pub proof fn escape_glob_quotes_metacharacters(s: Seq<char>)
    ensures
        no_bare_special(glob_escaped(s), |c: char| c == '*' || c == '?' || c == '[' || c == ']'
            || c == '\\' || c == '(' || c == ')' || c == '|'),
        glob_escaped(s).len() == s.len() + count_special(s, |c: char| c == '*' || c == '?' || c == '['
            || c == ']' || c == '\\' || c == '(' || c == ')' || c == '|'),
        glob_unescaped(glob_escaped(s)) == s,
{
    let special = |c: char| c == '*' || c == '?' || c == '[' || c == ']' || c == '\\' || c == '('
        || c == ')' || c == '|';
    lemma_escaped_quotes_special(s, |c: char| is_glob_meta(c), special);
    lemma_unescape_inverts_escape(s, |c: char| is_glob_meta(c));
}

/// The error of `split_and_glob_expand` for a word that has no match.
pub open spec fn no_match_message(word: Seq<char>) -> Seq<char> {
    seq!['n', 'o', ' ', 'm', 'a', 't', 'c', 'h', ':', ' '] + word
}

/// The fields that `split_and_glob_expand` makes of `words` when no
/// filesystem is consulted (every glob has no match).
pub open spec fn glob_expanded(
    words: Seq<Seq<char>>,
    failglob: bool,
    nullglob: bool,
    noglob: bool,
    extglob: bool,
) -> Result<Seq<Seq<char>>, Seq<char>>
    decreases words.len(),
{
    if words.len() == 0 {
        Ok(Seq::empty())
    } else {
        let w = words[0];
        let active = !noglob && is_glob_pattern(w, extglob);
        if active && failglob {
            Err(no_match_message(w))
        } else {
            match glob_expanded(words.skip(1), failglob, nullglob, noglob, extglob) {
                Err(e) => Err(e),
                Ok(ws) => Ok(
                    if !active {
                        seq![w] + ws
                    } else if nullglob {
                        ws
                    } else {
                        seq![glob_unescaped(w)] + ws
                    },
                ),
            }
        }
    }
}

/// `r` with `out` put in front of its fields.
pub open spec fn fields_after(out: Seq<Seq<char>>, r: Result<Seq<Seq<char>>, Seq<char>>) -> Result<Seq<Seq<char>>, Seq<char>> {
    match r {
        Ok(ws) => Ok(out + ws),
        Err(e) => Err(e),
    }
}

/// Per-field pathname expansion for already-split words (e.g. after `$@` / `$*` IFS split).
///
/// When no virtual filesystem is in play, glob-active fields behave as if
/// there were no matches (no host path scan).
pub fn split_and_glob_expand(
    words: &[String],
    _cwd: &std::path::Path,
    failglob: bool,
    nullglob: bool,
    noglob: bool,
    extglob: bool,
) -> (r: Result<Vec<String>, String>)
    ensures
        match r {
            Ok(v) => glob_expanded(views_of(words@), failglob, nullglob, noglob, extglob)
                == Ok::<Seq<Seq<char>>, Seq<char>>(views_of(v@)),
            Err(e) => glob_expanded(views_of(words@), failglob, nullglob, noglob, extglob)
                == Err::<Seq<Seq<char>>, Seq<char>>(e@),
        },
{
    let ghost all = views_of(words@);
    let mut out: Vec<String> = Vec::new();
    let mut i: usize = 0;
    assert(all.skip(0) =~= all);
    assert(views_of(out@) =~= Seq::<Seq<char>>::empty());
    while i < words.len()
        invariant
            i <= words.len(),
            all == views_of(words@),
            glob_expanded(all, failglob, nullglob, noglob, extglob)
                == fields_after(views_of(out@), glob_expanded(all.skip(i as int), failglob, nullglob, noglob, extglob)),
        decreases words.len() - i,
    {
        let word = &words[i];
        let ghost rest = all.skip(i as int);
        assert(rest[0] == word@);
        assert(rest.skip(1) =~= all.skip(i + 1));
        let ghost before = views_of(out@);
        if noglob || !has_glob_pattern(word.as_str(), extglob) {
            out.push(word.clone());
            assert(views_of(out@) =~= before.push(word@));
        } else if failglob {
            let mut msg = String::new();
            let prefix = "no match: ";
            proof {
                reveal_strlit("no match: ");
            }
            crate::text::push_str_chars(&mut msg, prefix);
            crate::text::push_str_chars(&mut msg, word.as_str());
            assert(msg@ =~= no_match_message(word@));
            return Err(msg);
        } else if nullglob {
        } else {
            let u = unescape_glob_pattern(word.as_str());
            out.push(u);
            assert(views_of(out@) =~= before.push(glob_unescaped(word@)));
        }
        proof {
            match glob_expanded(all.skip(i + 1), failglob, nullglob, noglob, extglob) {
                Ok(ws) => {
                    assert(before + (seq![word@] + ws) =~= before.push(word@) + ws);
                    assert(before + (seq![glob_unescaped(word@)] + ws) =~= before.push(glob_unescaped(word@)) + ws);
                },
                Err(_) => {},
            }
        }
        i = i + 1;
    }
    assert(all.skip(words.len() as int) =~= Seq::<Seq<char>>::empty());
    assert(views_of(out@) + Seq::<Seq<char>>::empty() =~= views_of(out@));
    Ok(out)
}

} // verus!
