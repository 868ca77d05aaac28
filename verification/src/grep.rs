//! `grep`: option parsing, pattern building and per-file line selection.
use vstd::prelude::*;
use crate::arg_helpers::{files_or_stdin, help_flag, wants_help};
use crate::builtin_dispatch::ExecResult;
use crate::regex_support::{
    compile_regex, regex_compile_error, regex_escape, regex_escaped, regex_find_all, regex_finds,
    regex_is_match, regex_matches, CompiledRegex,
};
use crate::text::{
    chars_eq_str, chars_of, chars_start_with_str, push_char, push_decimal,
    push_str_chars, push_string, string_from, string_of, views_of, decimal, lines_of,
    char_vec_views, text_lines, split_char, split_newlines,
};

verus! {

/// The `grep` command.
pub struct GrepCommand;

impl GrepCommand {
    /// The command's name.
    pub fn name(&self) -> (r: &'static str)
        ensures
            r@ == "grep"@,
    {
        "grep"
    }
}

/// The options of one `grep` invocation.
pub struct GrepOptions {
    /// One or more patterns; multiple `-e` / `--regexp` are OR'd (GNU grep).
    pub pattern_parts: Vec<String>,
    pub ignore_case: bool,
    pub invert_match: bool,
    pub count_only: bool,
    pub files_with_matches: bool,
    pub files_without_matches: bool,
    pub line_number: bool,
    pub only_matching: bool,
    pub quiet: bool,
    pub fixed_strings: bool,
    pub max_count: Option<usize>,
    pub files: Vec<String>,
}

/// The options of `grep` as plain values.
pub struct GrepOptionsView {
    pub pattern_parts: Seq<Seq<char>>,
    pub ignore_case: bool,
    pub invert_match: bool,
    pub count_only: bool,
    pub files_with_matches: bool,
    pub files_without_matches: bool,
    pub line_number: bool,
    pub only_matching: bool,
    pub quiet: bool,
    pub fixed_strings: bool,
    pub max_count: Option<usize>,
    pub files: Seq<Seq<char>>,
}

impl View for GrepOptions {
    type V = GrepOptionsView;

    open spec fn view(&self) -> GrepOptionsView {
        GrepOptionsView {
            pattern_parts: views_of(self.pattern_parts@),
            ignore_case: self.ignore_case,
            invert_match: self.invert_match,
            count_only: self.count_only,
            files_with_matches: self.files_with_matches,
            files_without_matches: self.files_without_matches,
            line_number: self.line_number,
            only_matching: self.only_matching,
            quiet: self.quiet,
            fixed_strings: self.fixed_strings,
            max_count: self.max_count,
            files: views_of(self.files@),
        }
    }
}

/// No pattern, no flag, no file.
pub open spec fn default_grep_options() -> GrepOptionsView {
    GrepOptionsView {
        pattern_parts: Seq::empty(),
        ignore_case: false,
        invert_match: false,
        count_only: false,
        files_with_matches: false,
        files_without_matches: false,
        line_number: false,
        only_matching: false,
        quiet: false,
        fixed_strings: false,
        max_count: None,
        files: Seq::empty(),
    }
}

impl Default for GrepOptions {
    fn default() -> (r: GrepOptions)
        ensures
            r@ == default_grep_options(),
    {
        let r = GrepOptions {
            pattern_parts: Vec::new(),
            ignore_case: false,
            invert_match: false,
            count_only: false,
            files_with_matches: false,
            files_without_matches: false,
            line_number: false,
            only_matching: false,
            quiet: false,
            fixed_strings: false,
            max_count: None,
            files: Vec::new(),
        };
        assert(views_of(r.pattern_parts@) =~= Seq::<Seq<char>>::empty());
        assert(views_of(r.files@) =~= Seq::<Seq<char>>::empty());
        r
    }
}

/// Whether every character of `d` is an ASCII digit.
pub open spec fn all_ascii_digits(d: Seq<char>) -> bool {
    forall|i: int| 0 <= i < d.len() ==> '0' <= #[trigger] d[i] <= '9'
}

/// The value of a string of decimal digits.
pub open spec fn digits_value(d: Seq<char>) -> nat
    decreases d.len(),
{
    if d.len() == 0 {
        0
    } else {
        digits_value(d.drop_last()) * 10 + ((d.last() as nat) - ('0' as nat)) as nat
    }
}

/// What `str::parse::<usize>` gives: an optional `+` then one or more
/// ASCII digits whose value fits in `usize`; anything else fails.
pub open spec fn parsed_usize(s: Seq<char>) -> Option<usize> {
    let d = if s.len() > 0 && s[0] == '+' { s.skip(1) } else { s };
    if d.len() > 0 && all_ascii_digits(d) && digits_value(d) <= usize::MAX {
        Some(digits_value(d) as usize)
    } else {
        None
    }
}

proof fn lemma_digits_value_prefix(d: Seq<char>, k: int)
    requires
        0 <= k <= d.len(),
        all_ascii_digits(d),
    ensures
        digits_value(d.take(k)) <= digits_value(d),
    decreases d.len(),
{
    if k < d.len() {
        let init = d.drop_last();
        assert(all_ascii_digits(init)) by {
            assert forall|i: int| 0 <= i < init.len() implies '0' <= #[trigger] init[i] <= '9' by {
                assert(init[i] == d[i]);
            }
        }
        lemma_digits_value_prefix(init, k);
        assert(init.take(k) =~= d.take(k));
    } else {
        assert(d.take(k) =~= d);
    }
}

/// `str::parse::<usize>` with the error dropped (`.ok()`): an optional `+`
/// and then decimal digits, failing on any other character and on overflow.
fn parse_usize(s: &str) -> (r: Option<usize>)
    ensures
        r == parsed_usize(s@),
{
    let c = chars_of(s);
    let start: usize = if c.len() > 0 && c[0] == '+' { 1 } else { 0 };
    let ghost d = if s@.len() > 0 && s@[0] == '+' { s@.skip(1) } else { s@ };
    assert(c@.skip(start as int) =~= d);
    if start == c.len() {
        return None;
    }
    let mut v: usize = 0;
    let mut i: usize = start;
    assert(d.take(0) =~= Seq::<char>::empty());
    while i < c.len()
        invariant
            start <= i <= c.len(),
            start < c.len(),
            c@ == s@,
            d == (if s@.len() > 0 && s@[0] == '+' { s@.skip(1) } else { s@ }),
            d == c@.skip(start as int),
            all_ascii_digits(d.take(i - start)),
            v == digits_value(d.take(i - start)),
        decreases c.len() - i,
    {
        let ch = c[i];
        assert(d[i - start] == ch);
        if !('0' <= ch && ch <= '9') {
            assert(!all_ascii_digits(d));
            return None;
        }
        let dv: usize = ((ch as u32) - ('0' as u32)) as usize;
        let ghost next = d.take(i - start + 1);
        assert(next.drop_last() =~= d.take(i - start));
        assert(next.last() == ch);
        assert(all_ascii_digits(next)) by {
            assert forall|j: int| 0 <= j < next.len() implies '0' <= #[trigger] next[j] <= '9' by {
                if j < next.len() - 1 {
                    assert(next[j] == d.take(i - start)[j]);
                }
            }
        }
        assert(digits_value(next) == v * 10 + dv);
        if v > (usize::MAX - dv) / 10 {
            assert(v * 10 + dv > usize::MAX) by (nonlinear_arith)
                requires
                    v > (usize::MAX - dv) / 10,
                    dv <= 9,
            ;
            proof {
                if all_ascii_digits(d) {
                    lemma_digits_value_prefix(d, i - start + 1);
                }
            }
            return None;
        }
        assert(v * 10 + dv <= usize::MAX) by (nonlinear_arith)
            requires
                v <= (usize::MAX - dv) / 10,
                dv <= 9,
        ;
        v = v * 10 + dv;
        i = i + 1;
    }
    assert(d.take(i - start) =~= d);
    Some(v)
}

/// The flag that a boolean `grep` option sets, by its short letter.
pub open spec fn grep_flag_letter(arg: Seq<char>) -> Option<char> {
    if arg == "-i"@ || arg == "--ignore-case"@ { Some('i') }
    else if arg == "-v"@ || arg == "--invert-match"@ { Some('v') }
    else if arg == "-c"@ || arg == "--count"@ { Some('c') }
    else if arg == "-l"@ || arg == "--files-with-matches"@ { Some('l') }
    else if arg == "-L"@ || arg == "--files-without-match"@ { Some('L') }
    else if arg == "-n"@ || arg == "--line-number"@ { Some('n') }
    else if arg == "-o"@ || arg == "--only-matching"@ { Some('o') }
    else if arg == "-q"@ || arg == "--quiet"@ || arg == "--silent"@ { Some('q') }
    else if arg == "-F"@ || arg == "--fixed-strings"@ { Some('F') }
    else { None }
}

/// The effect of the boolean flag with letter `c`.
pub open spec fn grep_flag_effect(o: GrepOptionsView, c: char) -> GrepOptionsView {
    if c == 'i' { GrepOptionsView { ignore_case: true, ..o } }
    else if c == 'v' { GrepOptionsView { invert_match: true, ..o } }
    else if c == 'c' { GrepOptionsView { count_only: true, ..o } }
    else if c == 'l' { GrepOptionsView { files_with_matches: true, ..o } }
    else if c == 'L' { GrepOptionsView { files_without_matches: true, ..o } }
    else if c == 'n' { GrepOptionsView { line_number: true, ..o } }
    else if c == 'o' { GrepOptionsView { only_matching: true, ..o } }
    else if c == 'q' { GrepOptionsView { quiet: true, ..o } }
    else if c == 'F' { GrepOptionsView { fixed_strings: true, ..o } }
    else { o }
}

/// The options and positional words that `args[i..]` add to `o` and `pos`.
pub open spec fn grep_args_from(args: Seq<Seq<char>>, i: int, o: GrepOptionsView, pos: Seq<Seq<char>>) -> (GrepOptionsView, Seq<Seq<char>>)
    decreases args.len() - i,
{
    if i < 0 || i >= args.len() {
        (o, pos)
    } else {
        let arg = args[i];
        if (arg == "-e"@ || arg == "--regexp"@) && i + 1 < args.len() {
            grep_args_from(args, i + 2, GrepOptionsView { pattern_parts: o.pattern_parts.push(args[i + 1]), ..o }, pos)
        } else if grep_flag_letter(arg) is Some {
            grep_args_from(args, i + 1, grep_flag_effect(o, grep_flag_letter(arg)->0), pos)
        } else if arg == "-E"@ || arg == "--extended-regexp"@ {
            grep_args_from(args, i + 1, o, pos)
        } else if arg == "-m"@ && i + 1 < args.len() {
            grep_args_from(args, i + 2, GrepOptionsView { max_count: parsed_usize(args[i + 1]), ..o }, pos)
        } else if arg.len() >= 2 && arg.take(2) == "-m"@ {
            grep_args_from(args, i + 1, GrepOptionsView { max_count: parsed_usize(arg.skip(2)), ..o }, pos)
        } else if arg.len() >= 12 && arg.take(12) == "--max-count="@ {
            grep_args_from(args, i + 1, GrepOptionsView { max_count: parsed_usize(arg.skip(12)), ..o }, pos)
        } else if !(arg.len() > 0 && arg[0] == '-') {
            grep_args_from(args, i + 1, o, pos.push(arg))
        } else {
            grep_args_from(args, i + 1, o, pos)
        }
    }
}

/// The result of parsing the arguments of `grep`: the first positional word
/// is the pattern unless `-e` supplied one, the others are files.
pub open spec fn grep_parsed(args: Seq<Seq<char>>) -> Result<GrepOptionsView, Seq<char>> {
    let (o, pos) = grep_args_from(args, 0, default_grep_options(), Seq::empty());
    if o.pattern_parts.len() == 0 {
        if pos.len() == 0 {
            Err("grep: no pattern specified"@)
        } else {
            Ok(GrepOptionsView { pattern_parts: seq![pos[0]], files: pos.skip(1), ..o })
        }
    } else {
        Ok(GrepOptionsView { files: pos, ..o })
    }
}

fn grep_flag_letter_of(arg: &[char]) -> (r: Option<char>)
    ensures
        r == grep_flag_letter(arg@),
{
    if chars_eq_str(arg, "-i") || chars_eq_str(arg, "--ignore-case") { Some('i') }
    else if chars_eq_str(arg, "-v") || chars_eq_str(arg, "--invert-match") { Some('v') }
    else if chars_eq_str(arg, "-c") || chars_eq_str(arg, "--count") { Some('c') }
    else if chars_eq_str(arg, "-l") || chars_eq_str(arg, "--files-with-matches") { Some('l') }
    else if chars_eq_str(arg, "-L") || chars_eq_str(arg, "--files-without-match") { Some('L') }
    else if chars_eq_str(arg, "-n") || chars_eq_str(arg, "--line-number") { Some('n') }
    else if chars_eq_str(arg, "-o") || chars_eq_str(arg, "--only-matching") { Some('o') }
    else if chars_eq_str(arg, "-q") || chars_eq_str(arg, "--quiet") || chars_eq_str(arg, "--silent") { Some('q') }
    else if chars_eq_str(arg, "-F") || chars_eq_str(arg, "--fixed-strings") { Some('F') }
    else { None }
}

fn set_grep_flag(opts: &mut GrepOptions, c: char)
    ensures
        final(opts)@ == grep_flag_effect(old(opts)@, c),
{
    if c == 'i' { opts.ignore_case = true; }
    else if c == 'v' { opts.invert_match = true; }
    else if c == 'c' { opts.count_only = true; }
    else if c == 'l' { opts.files_with_matches = true; }
    else if c == 'L' { opts.files_without_matches = true; }
    else if c == 'n' { opts.line_number = true; }
    else if c == 'o' { opts.only_matching = true; }
    else if c == 'q' { opts.quiet = true; }
    else if c == 'F' { opts.fixed_strings = true; }
}

/// Parses the arguments of `grep`.
pub fn parse_grep_args(args: &[String]) -> (r: Result<GrepOptions, String>)
    ensures
        match r {
            Ok(o) => grep_parsed(views_of(args@)) == Ok::<GrepOptionsView, Seq<char>>(o@),
            Err(e) => grep_parsed(views_of(args@)) == Err::<GrepOptionsView, Seq<char>>(e@),
        },
{
    let ghost all = views_of(args@);
    let mut opts = GrepOptions::default();
    let mut positional: Vec<String> = Vec::new();
    let mut i: usize = 0;
    assert(views_of(positional@) =~= Seq::<Seq<char>>::empty());
    while i < args.len()
        invariant
            i <= args.len(),
            all == views_of(args@),
            grep_args_from(all, 0, default_grep_options(), Seq::empty())
                == grep_args_from(all, i as int, opts@, views_of(positional@)),
        decreases args.len() - i,
    {
        let arg = chars_of(args[i].as_str());
        let a = arg.as_slice();
        assert(all[i as int] == arg@);
        proof {
            reveal_strlit("-m");
            reveal_strlit("--max-count=");
        }
        if (chars_eq_str(a, "-e") || chars_eq_str(a, "--regexp")) && i + 1 < args.len() {
            assert(all[i + 1] == args@[i + 1]@);
            push_string(&mut opts.pattern_parts, args[i + 1].clone());
            i = i + 2;
        } else {
            match grep_flag_letter_of(a) {
                Some(c) => {
                    set_grep_flag(&mut opts, c);
                },
                None => {
                    if chars_eq_str(a, "-E") || chars_eq_str(a, "--extended-regexp") {
                    } else if chars_eq_str(a, "-m") && i + 1 < args.len() {
                        assert(all[i + 1] == args@[i + 1]@);
                        opts.max_count = parse_usize(args[i + 1].as_str());
                        i = i + 1;
                    } else if chars_start_with_str(a, "-m") {
                        let rest = string_of(a.split_at(2).1);
                        opts.max_count = parse_usize(rest.as_str());
                    } else if chars_start_with_str(a, "--max-count=") {
                        let rest = string_of(a.split_at(12).1);
                        opts.max_count = parse_usize(rest.as_str());
                    } else if !(a.len() > 0 && a[0] == '-') {
                        push_string(&mut positional, args[i].clone());
                    }
                },
            }
            i = i + 1;
        }
    }
    if opts.pattern_parts.len() == 0 {
        if positional.len() == 0 {
            return Err(string_from("grep: no pattern specified"));
        }
        let ghost before = views_of(positional@);
        let first = positional.remove(0);
        assert(views_of(positional@) =~= before.skip(1));
        assert(first@ == before[0]);
        push_string(&mut opts.pattern_parts, first);
        assert(views_of(opts.pattern_parts@) =~= seq![before[0]]);
    }
    opts.files = positional;
    Ok(opts)
}

/// The expression of one pattern: escaped when fixed strings are asked for.
pub open spec fn pattern_body(part: Seq<char>, fixed: bool) -> Seq<char> {
    if fixed { regex_escaped(part) } else { part }
}

/// The patterns as non-capturing groups joined by `|`.
pub open spec fn pattern_alternation(parts: Seq<Seq<char>>, fixed: bool) -> Seq<char>
    decreases parts.len(),
{
    if parts.len() == 0 {
        Seq::empty()
    } else if parts.len() == 1 {
        "(?:"@ + pattern_body(parts[0], fixed) + ")"@
    } else {
        pattern_alternation(parts.drop_last(), fixed) + "|"@ + "(?:"@ + pattern_body(parts.last(), fixed) + ")"@
    }
}

/// The patterns that `grep` looks for: with fixed strings each pattern
/// argument is a set of newline-separated strings, each a pattern of its own.
pub open spec fn pattern_items(parts: Seq<Seq<char>>, fixed: bool) -> Seq<Seq<char>>
    decreases parts.len(),
{
    if !fixed {
        parts
    } else if parts.len() == 0 {
        Seq::empty()
    } else {
        pattern_items(parts.drop_last(), fixed) + split_char(parts.last(), '\n')
    }
}

/// The regular expression that `grep` searches with: a single empty
/// pattern stays empty (it matches every line); `-i` prefixes `(?i)`.
pub open spec fn grep_pattern(parts: Seq<Seq<char>>, fixed: bool, ignore_case: bool) -> Seq<char> {
    let items = pattern_items(parts, fixed);
    let combined = if items.len() == 1 && pattern_body(items[0], fixed).len() == 0 {
        Seq::empty()
    } else {
        pattern_alternation(items, fixed)
    };
    if ignore_case { "(?i)"@ + combined } else { combined }
}

/// The patterns of `parts` as `pattern_items` lists them.
fn pattern_items_of(parts: &Vec<String>, fixed: bool) -> (r: Vec<String>)
    ensures
        views_of(r@) == pattern_items(views_of(parts@), fixed),
{
    let ghost all = views_of(parts@);
    let mut items: Vec<String> = Vec::new();
    let mut k: usize = 0;
    assert(views_of(items@) =~= Seq::<Seq<char>>::empty());
    assert(all.take(0) =~= Seq::<Seq<char>>::empty());
    while k < parts.len()
        invariant
            k <= parts.len(),
            all == views_of(parts@),
            views_of(items@) == pattern_items(all.take(k as int), fixed),
        decreases parts.len() - k,
    {
        assert(all.take(k + 1).drop_last() =~= all.take(k as int));
        assert(all.take(k + 1).last() == parts@[k as int]@);
        if fixed {
            let pieces = split_newlines(parts[k].as_str());
            let ghost base = views_of(items@);
            let mut j: usize = 0;
            assert(base + views_of(pieces@).take(0) =~= base);
            while j < pieces.len()
                invariant
                    j <= pieces.len(),
                    views_of(items@) == base + views_of(pieces@).take(j as int),
                decreases pieces.len() - j,
            {
                let ghost b2 = views_of(items@);
                push_string(&mut items, string_from(pieces[j].as_str()));
                assert(views_of(pieces@).take(j + 1) =~= views_of(pieces@).take(j as int).push(pieces@[j as int]@));
                assert(b2.push(pieces@[j as int]@) =~= base + views_of(pieces@).take(j + 1));
                j = j + 1;
            }
            assert(views_of(pieces@).take(pieces.len() as int) =~= views_of(pieces@));
        } else {
            push_string(&mut items, string_from(parts[k].as_str()));
            assert(all.take(k + 1) =~= all.take(k as int).push(all[k as int]));
        }
        k = k + 1;
    }
    assert(all.take(parts.len() as int) =~= all);
    items
}

/// Compiles the search expression of `opts`: the error text when no pattern
/// was given or when the expression does not compile.
pub fn build_regex(opts: &GrepOptions) -> (r: Result<CompiledRegex, String>)
    ensures
        opts@.pattern_parts.len() == 0 ==> (r matches Err(e) && e@ == "grep: no pattern specified"@),
        opts@.pattern_parts.len() > 0 ==> ({
            let p = grep_pattern(opts@.pattern_parts, opts.fixed_strings, opts.ignore_case);
            match r {
                Ok(re) => re.pattern() == p && regex_compile_error(p) is None,
                Err(e) => (regex_compile_error(p) matches Some(m) && e@ == "grep: invalid pattern: "@ + m),
            }
        }),
{
    if opts.pattern_parts.len() == 0 {
        return Err(string_from("grep: no pattern specified"));
    }
    let items = pattern_items_of(&opts.pattern_parts, opts.fixed_strings);
    let ghost parts = views_of(items@);
    let n = items.len();
    let mut combined = String::new();
    let mut idx: usize = 0;
    while idx < n
        invariant_except_break
            idx <= n,
            n == parts.len(),
            parts == views_of(items@),
            combined@ == pattern_alternation(parts.take(idx as int), opts.fixed_strings),
            idx == n ==> combined@ == pattern_alternation(parts, opts.fixed_strings),
            idx > 0 ==> !(n == 1 && pattern_body(parts[0], opts.fixed_strings).len() == 0),
        ensures
            n == parts.len(),
            combined@ == (if n == 1 && pattern_body(parts[0], opts.fixed_strings).len() == 0 {
                Seq::empty()
            } else {
                pattern_alternation(parts, opts.fixed_strings)
            }),
        decreases n - idx,
    {
        let part = items[idx].as_str();
        assert(parts[idx as int] == part@);
        let body = if opts.fixed_strings { regex_escape(part) } else { string_from(part) };
        let bc = chars_of(body.as_str());
        if n == 1 && bc.len() == 0 {
            combined = body;
            break;
        }
        if idx > 0 {
            push_char(&mut combined, '|');
        }
        push_str_chars(&mut combined, "(?:");
        push_str_chars(&mut combined, body.as_str());
        push_char(&mut combined, ')');
        proof {
            reveal_strlit("|");
            reveal_strlit(")");
            let t = parts.take(idx + 1);
            assert(t.drop_last() =~= parts.take(idx as int));
            assert(t.last() == part@);
            if idx == 0 {
                assert(t[0] == part@);
            }
            assert(combined@ =~= pattern_alternation(t, opts.fixed_strings));
        }
        proof {
            if idx == 0 {
                assert(!(n == 1 && pattern_body(parts[0], opts.fixed_strings).len() == 0));
            }
        }
        idx = idx + 1;
        if idx == n {
            assert(parts.take(n as int) =~= parts);
        }
    }
    let mut pattern = String::new();
    if opts.ignore_case {
        push_str_chars(&mut pattern, "(?i)");
    }
    push_str_chars(&mut pattern, combined.as_str());
    match compile_regex(pattern.as_str()) {
        Ok(re) => Ok(re),
        Err(e) => {
            let mut msg = string_from("grep: invalid pattern: ");
            push_str_chars(&mut msg, e.as_str());
            Err(msg)
        },
    }
}

/// The selected lines (1-based number and text): those the pattern matches,
/// or those it does not match when `invert`.
pub open spec fn selected_lines(lines: Seq<Seq<char>>, pattern: Seq<char>, invert: bool) -> Seq<(int, Seq<char>)>
    decreases lines.len(),
{
    if lines.len() == 0 {
        Seq::empty()
    } else {
        let prev = selected_lines(lines.drop_last(), pattern, invert);
        if regex_finds(pattern, lines.last()) != invert {
            prev.push((lines.len() as int, lines.last()))
        } else {
            prev
        }
    }
}

proof fn lemma_selected_partition(lines: Seq<Seq<char>>, pattern: Seq<char>)
    ensures
        selected_lines(lines, pattern, false).len() + selected_lines(lines, pattern, true).len() == lines.len(),
    decreases lines.len(),
{
    if lines.len() > 0 {
        lemma_selected_partition(lines.drop_last(), pattern);
    }
}

/// Without `-m`, every line of a file is counted either by `grep -c` or by
/// `grep -v -c`: the two counts add up to the number of lines.
pub proof fn grep_invert_partitions_lines(o: GrepOptionsView, pattern: Seq<char>, content: Seq<char>)
    requires
        o.max_count is None,
    ensures
        kept_lines(GrepOptionsView { invert_match: false, ..o }, pattern, content).len()
            + kept_lines(GrepOptionsView { invert_match: true, ..o }, pattern, content).len()
            == text_lines(content).len(),
{
    lemma_selected_partition(text_lines(content), pattern);
}

/// The selected lines that `grep` keeps: with `-m NUM` it stops after
/// `NUM` of them.
pub open spec fn capped_lines(s: Seq<(int, Seq<char>)>, max: Option<usize>) -> Seq<(int, Seq<char>)> {
    match max {
        Some(m) => if s.len() > m { s.take(m as int) } else { s },
        None => s,
    }
}

/// `-m NUM` stops after NUM selected lines: what is kept is at most NUM
/// lines, the first of those selected without the limit.
pub proof fn grep_max_count_keeps_first_lines(o: GrepOptionsView, pattern: Seq<char>, content: Seq<char>, m: usize)
    requires
        o.max_count == Some(m),
    ensures
        kept_lines(o, pattern, content).len() <= m,
        kept_lines(o, pattern, content) == kept_lines(GrepOptionsView { max_count: None, ..o }, pattern, content)
            .take(kept_lines(o, pattern, content).len() as int),
{
    let all = selected_lines(text_lines(content), pattern, o.invert_match);
    assert(all.take(all.len() as int) =~= all);
}

/// Whether `count` selected lines reach the `-m` limit.
fn cap_reached(max: Option<usize>, count: usize) -> (r: bool)
    ensures
        r == (max matches Some(m) && count >= m),
{
    match max {
        Some(m) => count >= m,
        None => false,
    }
}

/// The prefix of an output line: file name and/or line number.
pub open spec fn line_prefix(file: Seq<char>, show_filename: bool, line_number: bool, n: int) -> Seq<char> {
    if show_filename {
        if line_number { file + ":"@ + decimal(n as nat) + ":"@ } else { file + ":"@ }
    } else if line_number {
        decimal(n as nat) + ":"@
    } else {
        Seq::empty()
    }
}

/// Each of `ms` on a line of its own after `prefix`.
pub open spec fn prefixed_lines(ms: Seq<Seq<char>>, prefix: Seq<char>) -> Seq<char>
    decreases ms.len(),
{
    if ms.len() == 0 {
        Seq::empty()
    } else {
        prefixed_lines(ms.drop_last(), prefix) + prefix + ms.last() + "\n"@
    }
}

/// What `grep` prints for the kept lines of one file.
pub open spec fn matched_output(entries: Seq<(int, Seq<char>)>, pattern: Seq<char>, file: Seq<char>, show_filename: bool, line_number: bool, only_matching: bool) -> Seq<char>
    decreases entries.len(),
{
    if entries.len() == 0 {
        Seq::empty()
    } else {
        let e = entries.last();
        let prefix = line_prefix(file, show_filename, line_number, e.0);
        matched_output(entries.drop_last(), pattern, file, show_filename, line_number, only_matching)
            + if only_matching {
                prefixed_lines(regex_matches(pattern, e.1), prefix)
            } else {
                prefix + e.1 + "\n"@
            }
    }
}

/// The lines of `content` that `grep` keeps under `o` and `pattern`.
pub open spec fn kept_lines(o: GrepOptionsView, pattern: Seq<char>, content: Seq<char>) -> Seq<(int, Seq<char>)> {
    capped_lines(selected_lines(text_lines(content), pattern, o.invert_match), o.max_count)
}

/// What `grep` prints for one file whose text is `content`.
pub open spec fn grep_file_output(o: GrepOptionsView, pattern: Seq<char>, file: Seq<char>, content: Seq<char>, show_filename: bool) -> Seq<char> {
    let kept = kept_lines(o, pattern, content);
    let count = kept.len();
    if o.quiet {
        Seq::empty()
    } else if o.files_with_matches {
        if count > 0 { file + "\n"@ } else { Seq::empty() }
    } else if o.files_without_matches {
        if count == 0 { file + "\n"@ } else { Seq::empty() }
    } else if o.count_only {
        if show_filename { file + ":"@ + decimal(count) + "\n"@ } else { decimal(count) + "\n"@ }
    } else {
        matched_output(kept, pattern, file, show_filename, o.line_number, o.only_matching)
    }
}

/// The exit status after one file, from the status before it: 0 once a
/// file matched (for `-L`, once a file did not match).
pub open spec fn grep_file_status(o: GrepOptionsView, pattern: Seq<char>, content: Seq<char>, before: i32) -> i32 {
    let count = kept_lines(o, pattern, content).len();
    if count > 0 && !o.files_without_matches {
        0
    } else if count == 0 && o.files_without_matches && !o.quiet && !o.files_with_matches {
        0
    } else {
        before
    }
}

proof fn lemma_selected_len(lines: Seq<Seq<char>>, pattern: Seq<char>, invert: bool)
    ensures
        selected_lines(lines, pattern, invert).len() <= lines.len(),
        forall|k: int| 0 <= k < selected_lines(lines, pattern, invert).len()
            ==> 1 <= #[trigger] selected_lines(lines, pattern, invert)[k].0 <= lines.len(),
    decreases lines.len(),
{
    if lines.len() > 0 {
        lemma_selected_len(lines.drop_last(), pattern, invert);
    }
}

proof fn lemma_capped_stable(lines: Seq<Seq<char>>, i: int, j: int, pattern: Seq<char>, invert: bool, cap: int)
    requires
        0 <= i <= j <= lines.len(),
        cap >= 0,
        selected_lines(lines.take(i), pattern, invert).len() >= cap,
    ensures
        selected_lines(lines.take(j), pattern, invert).take(cap)
            == selected_lines(lines.take(i), pattern, invert).take(cap),
        selected_lines(lines.take(j), pattern, invert).len() >= cap,
    decreases j - i,
{
    if j > i {
        lemma_capped_stable(lines, i, j - 1, pattern, invert, cap);
        assert(lines.take(j).drop_last() =~= lines.take(j - 1));
        let prev = selected_lines(lines.take(j - 1), pattern, invert);
        assert(prev.push((j, lines.take(j).last())).take(cap) =~= prev.take(cap));
    }
}

/// Scans the lines of one file, prints what the options ask for, and
/// updates the exit status. Returns true when `-q` found a match, in which
/// case the command stops with status 0 and no output.
pub fn grep_file(
    opts: &GrepOptions,
    re: &CompiledRegex,
    file: &str,
    content: &str,
    show_filename: bool,
    stdout: &mut String,
    exit_code: &mut i32,
) -> (stop: bool)
    ensures
        stop == (opts.quiet && kept_lines(opts@, re.pattern(), content@).len() > 0),
        final(stdout)@ == old(stdout)@ + grep_file_output(opts@, re.pattern(), file@, content@, show_filename),
        *final(exit_code) == grep_file_status(opts@, re.pattern(), content@, *old(exit_code)),
{
    let ghost pattern = re.pattern();
    let lines = lines_of(content);
    let ghost all = char_vec_views(lines@);
    let mut matched: Vec<(usize, String)> = Vec::new();
    let mut count: usize = 0;
    let mut i: usize = 0;
    let ghost cap: int = match opts.max_count { Some(m) => m as int, None => 0int };
    assert(all.take(0) =~= Seq::<Seq<char>>::empty());
    assert(all.take(all.len() as int) =~= all);
    while i < lines.len() && !cap_reached(opts.max_count, count)
        invariant
            i <= lines.len(),
            pattern == re.pattern(),
            all.take(all.len() as int) == all,
            all == char_vec_views(lines@),
            all == text_lines(content@),
            count == matched@.len(),
            matched@.map_values(|p: (usize, String)| (p.0 as int, p.1@))
                == selected_lines(all.take(i as int), pattern, opts.invert_match),
            cap == (match opts.max_count { Some(m) => m as int, None => 0int }),
            opts.max_count is Some ==> count <= cap,
        decreases lines.len() - i,
    {
        let ghost before = matched@.map_values(|p: (usize, String)| (p.0 as int, p.1@));
        let line = string_of(lines[i].as_slice());
        assert(all[i as int] == line@);
        let is_match = regex_is_match(re, line.as_str());
        assert(all.take(i + 1).drop_last() =~= all.take(i as int));
        assert(all.take(i + 1).last() == line@);
        proof {
            lemma_selected_len(all.take(i as int), pattern, opts.invert_match);
        }
        let should_output = if opts.invert_match { !is_match } else { is_match };
        i = i + 1;
        if should_output {
            matched.push((i, line));
            count = count + 1;
            assert(matched@.map_values(|p: (usize, String)| (p.0 as int, p.1@)) =~= before.push((i as int, all.take(i as int).last())));
        }
    }
    proof {
        let sel_i = selected_lines(all.take(i as int), pattern, opts.invert_match);
        if opts.max_count is Some && count >= cap {
            lemma_capped_stable(all, i as int, all.len() as int, pattern, opts.invert_match, cap);
            assert(sel_i.take(cap) =~= sel_i);
        } else {
            assert(all.take(i as int) =~= all);
        }
        assert(matched@.map_values(|p: (usize, String)| (p.0 as int, p.1@)) == kept_lines(opts@, pattern, content@));
    }
    let mut stop = false;
    if count > 0 && !opts.files_without_matches {
        *exit_code = 0;
    }
    if opts.quiet {
        if count > 0 {
            stop = true;
        }
    } else if opts.files_with_matches {
        if count > 0 {
            push_str_chars(stdout, file);
            push_char(stdout, '\n');
        }
    } else if opts.files_without_matches {
        if count == 0 {
            push_str_chars(stdout, file);
            push_char(stdout, '\n');
            *exit_code = 0;
        }
    } else if opts.count_only {
        if show_filename {
            push_str_chars(stdout, file);
            push_char(stdout, ':');
        }
        push_decimal(stdout, count as u64);
        push_char(stdout, '\n');
    } else {
        print_matched(opts, re, file, show_filename, &matched, stdout);
    }
    proof {
        reveal_strlit("\n");
        reveal_strlit(":");
    }
    stop
}

fn push_line_prefix(out: &mut String, file: &str, show_filename: bool, line_number: bool, n: usize)
    ensures
        final(out)@ == old(out)@ + line_prefix(file@, show_filename, line_number, n as int),
{
    proof {
        reveal_strlit(":");
    }
    if show_filename {
        push_str_chars(out, file);
        push_char(out, ':');
        if line_number {
            push_decimal(out, n as u64);
            push_char(out, ':');
        }
    } else if line_number {
        push_decimal(out, n as u64);
        push_char(out, ':');
    }
}

fn print_matched(
    opts: &GrepOptions,
    re: &CompiledRegex,
    file: &str,
    show_filename: bool,
    matched: &Vec<(usize, String)>,
    stdout: &mut String,
)
    ensures
        final(stdout)@ == old(stdout)@ + matched_output(
            matched@.map_values(|p: (usize, String)| (p.0 as int, p.1@)), re.pattern(), file@,
            show_filename, opts.line_number, opts.only_matching),
{
    let ghost entries = matched@.map_values(|p: (usize, String)| (p.0 as int, p.1@));
    let ghost start = stdout@;
    let mut k: usize = 0;
    while k < matched.len()
        invariant
            k <= matched.len(),
            entries == matched@.map_values(|p: (usize, String)| (p.0 as int, p.1@)),
            stdout@ == start + matched_output(entries.take(k as int), re.pattern(), file@, show_filename,
                opts.line_number, opts.only_matching),
        decreases matched.len() - k,
    {
        let (n, line) = (matched[k].0, matched[k].1.as_str());
        assert(entries[k as int] == (n as int, line@));
        let mut prefix = String::new();
        push_line_prefix(&mut prefix, file, show_filename, opts.line_number, n);
        let ghost mid = stdout@;
        proof {
            reveal_strlit("\n");
        }
        if opts.only_matching {
            let found = regex_find_all(re, line);
            let ghost ms = found@.map_values(|s: String| s@);
            let mut j: usize = 0;
            assert(ms.take(0) =~= Seq::<Seq<char>>::empty());
            while j < found.len()
                invariant
                    j <= found.len(),
                    ms == found@.map_values(|s: String| s@),
                    stdout@ == mid + prefixed_lines(ms.take(j as int), prefix@),
                decreases found.len() - j,
            {
                proof {
                    reveal_strlit("\n");
                }
                push_str_chars(stdout, prefix.as_str());
                push_str_chars(stdout, found[j].as_str());
                push_char(stdout, '\n');
                assert(ms.take(j + 1).drop_last() =~= ms.take(j as int));
                assert(ms.take(j + 1).last() == found@[j as int]@);
                assert(stdout@ =~= mid + prefixed_lines(ms.take(j + 1), prefix@));
                j = j + 1;
            }
            assert(ms.take(found.len() as int) =~= ms);
        } else {
            push_str_chars(stdout, prefix.as_str());
            push_str_chars(stdout, line);
            push_char(stdout, '\n');
        }
        proof {
            let t = entries.take(k + 1);
            assert(t.drop_last() =~= entries.take(k as int));
            assert(t.last() == entries[k as int]);
            assert(stdout@ =~= start + matched_output(t, re.pattern(), file@, show_filename,
                opts.line_number, opts.only_matching));
        }
        k = k + 1;
    }
    assert(entries.take(matched.len() as int) =~= entries);
}

/// What reading one input file gave: its text, or the error to report
/// (appended to the error output) and the exit status it sets.
pub enum FileRead {
    Content(String),
    Failed { message: String, exit_code: i32 },
}

/// The state of a `grep` run between files: output, error output, exit
/// status, and whether `-q` already found a match.
pub struct GrepRunView {
    pub stdout: Seq<char>,
    pub stderr: Seq<char>,
    pub exit_code: i32,
    pub stopped: bool,
}

/// The run state after one more file.
pub open spec fn grep_step(o: GrepOptionsView, pattern: Seq<char>, st: GrepRunView, file: Seq<char>, read: FileRead, stdin: Seq<char>, show_filename: bool) -> GrepRunView {
    if st.stopped {
        st
    } else {
        let content: Option<Seq<char>> = if file == "-"@ {
            Some(stdin)
        } else {
            match read {
                FileRead::Content(c) => Some(c@),
                FileRead::Failed { .. } => None,
            }
        };
        match content {
            None => match read {
                FileRead::Failed { message, exit_code } =>
                    GrepRunView { stderr: st.stderr + message@, exit_code: exit_code, ..st },
                FileRead::Content(_) => st,
            },
            Some(c) => if o.quiet && kept_lines(o, pattern, c).len() > 0 {
                GrepRunView { exit_code: 0, stopped: true, ..st }
            } else {
                GrepRunView {
                    stdout: st.stdout + grep_file_output(o, pattern, file, c, show_filename),
                    exit_code: grep_file_status(o, pattern, c, st.exit_code),
                    ..st
                }
            },
        }
    }
}

/// The run state after the first `files.len()` files.
pub open spec fn grep_files(o: GrepOptionsView, pattern: Seq<char>, files: Seq<Seq<char>>, reads: Seq<FileRead>, stdin: Seq<char>, show_filename: bool) -> GrepRunView
    decreases files.len(),
{
    if files.len() == 0 {
        GrepRunView { stdout: Seq::empty(), stderr: Seq::empty(), exit_code: 1, stopped: false }
    } else {
        grep_step(o, pattern,
            grep_files(o, pattern, files.drop_last(), reads, stdin, show_filename),
            files.last(), reads[files.len() - 1], stdin, show_filename)
    }
}

/// The files `grep` reads: the file operands, or `-` (standard input).
pub fn grep_input_files(opts: &GrepOptions) -> (r: Vec<String>)
    ensures
        opts@.files.len() == 0 ==> views_of(r@) == seq!["-"@],
        opts@.files.len() > 0 ==> views_of(r@) == opts@.files,
{
    let mut files: Vec<String> = Vec::new();
    let mut i: usize = 0;
    while i < opts.files.len()
        invariant
            i <= opts.files.len(),
            views_of(files@) == views_of(opts.files@).take(i as int),
        decreases opts.files.len() - i,
    {
        push_string(&mut files, opts.files[i].clone());
        assert(views_of(opts.files@).take(i + 1) =~= views_of(opts.files@).take(i as int).push(opts.files@[i as int]@));
        i = i + 1;
    }
    assert(views_of(opts.files@).take(opts.files.len() as int) =~= views_of(opts.files@));
    let ghost flen = files@.len();
    let r = files_or_stdin(files);
    proof {
        reveal_strlit("-");
        assert("-"@ =~= seq!['-']);
        if opts@.files.len() == 0 {
            assert(flen == 0);
            assert(views_of(r@)[0] == r@[0]@);
            assert(views_of(r@) =~= seq!["-"@]);
        }
    }
    r
}

/// Searches the files of a planned `grep` run. `reads[k]` is what reading
/// `files[k]` gave; for `-` standard input is searched instead.
pub fn grep_execute(opts: &GrepOptions, re: &CompiledRegex, files: &[String], reads: &[FileRead], stdin: &str) -> (r: ExecResult)
    requires
        reads.len() == files.len(),
    ensures
        ({
            let st = grep_files(opts@, re.pattern(), views_of(files@), reads@, stdin@, files.len() > 1);
            &&& r.stderr@ == st.stderr
            &&& r.stdout@ == (if st.stopped { Seq::empty() } else { st.stdout })
            &&& r.exit_code == st.exit_code
        }),
{
    let ghost fs = views_of(files@);
    let show_filename = files.len() > 1;
    let mut stdout = String::new();
    let mut stderr = String::new();
    let mut exit_code: i32 = 1;
    let mut k: usize = 0;
    assert(fs.take(0) =~= Seq::<Seq<char>>::empty());
    assert(fs.take(fs.len() as int) =~= fs);
    while k < files.len()
        invariant_except_break
            k <= files.len(),
            fs == views_of(files@),
            fs.take(fs.len() as int) == fs,
            show_filename == (files.len() > 1),
            reads.len() == files.len(),
            ({
                let st = grep_files(opts@, re.pattern(), fs.take(k as int), reads@, stdin@, show_filename);
                &&& !st.stopped
                &&& st.stdout == stdout@
                &&& st.stderr == stderr@
                &&& st.exit_code == exit_code
            }),
        ensures
            ({
                let st = grep_files(opts@, re.pattern(), fs, reads@, stdin@, show_filename);
                &&& st.stderr == stderr@
                &&& (if st.stopped { stdout@ == Seq::<char>::empty() } else { st.stdout == stdout@ })
                &&& st.exit_code == exit_code
            }),
        decreases files.len() - k,
    {
        let file = files[k].as_str();
        proof {
            assert(fs.take(k + 1).drop_last() =~= fs.take(k as int));
            assert(fs.take(k + 1).last() == file@);
            assert(fs.take(k + 1).len() == k + 1);
        }
        let is_stdin = str_eq_lit_dash(file);
        let content: Option<&str> = if is_stdin {
            Some(stdin)
        } else {
            match &reads[k] {
                FileRead::Content(c) => Some(c.as_str()),
                FileRead::Failed { message, exit_code: code } => {
                    push_str_chars(&mut stderr, message.as_str());
                    exit_code = *code;
                    None
                },
            }
        };
        match content {
            Some(c) => {
                let stop = grep_file(opts, re, file, c, show_filename, &mut stdout, &mut exit_code);
                if stop {
                    proof {
                        lemma_grep_files_stay_stopped(opts@, re.pattern(), fs, k + 1, reads@, stdin@, show_filename);
                    }
                    return ExecResult::new(String::new(), stderr, 0);
                }
            },
            None => {},
        }
        k = k + 1;
        if k == files.len() {
            assert(fs.take(k as int) =~= fs);
        }
    }
    ExecResult::new(stdout, stderr, exit_code)
}

fn str_eq_lit_dash(s: &str) -> (r: bool)
    ensures
        r == (s@ == "-"@),
{
    let c = chars_of(s);
    chars_eq_str(c.as_slice(), "-")
}

proof fn lemma_grep_files_stay_stopped(o: GrepOptionsView, pattern: Seq<char>, fs: Seq<Seq<char>>, k: int, reads: Seq<FileRead>, stdin: Seq<char>, show: bool)
    requires
        0 <= k <= fs.len(),
        grep_files(o, pattern, fs.take(k), reads, stdin, show).stopped,
    ensures
        grep_files(o, pattern, fs, reads, stdin, show) == grep_files(o, pattern, fs.take(k), reads, stdin, show),
    decreases fs.len() - k,
{
    if k < fs.len() {
        assert(fs.take(k + 1).drop_last() =~= fs.take(k));
        lemma_grep_files_stay_stopped(o, pattern, fs, k + 1, reads, stdin, show);
    } else {
        assert(fs.take(k) =~= fs);
    }
}

/// The help text of `grep`.
pub open spec fn grep_usage_text() -> Seq<char> {
    "Usage: grep [OPTION]... PATTERN [FILE]...\n\n\
                 Search for PATTERN in each FILE.\n\n\
                 Options:\n\
                   -E, --extended-regexp  PATTERN is an extended regular expression\n\
                   -F, --fixed-strings    PATTERN is a set of newline-separated strings\n\
                   -i, --ignore-case      ignore case distinctions\n\
                   -v, --invert-match     select non-matching lines\n\
                   -c, --count            print only a count of matching lines\n\
                   -l, --files-with-matches  print only names of FILEs with matches\n\
                   -L, --files-without-match  print only names of FILEs without matches\n\
                   -n, --line-number      print line number with output lines\n\
                   -o, --only-matching    show only the part of a line matching PATTERN\n\
                   -q, --quiet            suppress all normal output\n\
                   -m NUM, --max-count=NUM  stop after NUM matches\n\
                       --help             display this help and exit\n"@
}

/// What a `grep` invocation does before any file is read: finish at once
/// (help or an error), or search the listed files.
pub enum GrepPlan {
    Finished(ExecResult),
    Search { opts: GrepOptions, re: CompiledRegex, files: Vec<String> },
}

/// Decides a `grep` invocation: `--help` prints the usage; a bad argument
/// list or pattern is an error (status 1); otherwise the files to search.
pub fn plan_grep(args: &[String]) -> (r: GrepPlan)
    ensures
        (exists|i: int| 0 <= i < args@.len() && #[trigger] args@[i]@ == help_flag())
            ==> (r matches GrepPlan::Finished(res) && res.stdout@ == grep_usage_text()
                && res.stderr@ == Seq::<char>::empty() && res.exit_code == 0),
        !(exists|i: int| 0 <= i < args@.len() && #[trigger] args@[i]@ == help_flag()) ==> match grep_parsed(views_of(args@)) {
            Err(e) => r matches GrepPlan::Finished(res) && res.stdout@ == Seq::<char>::empty()
                && res.stderr@ == e + "\n"@ && res.exit_code == 1,
            Ok(o) => {
                let p = grep_pattern(o.pattern_parts, o.fixed_strings, o.ignore_case);
                match regex_compile_error(p) {
                    Some(m) => r matches GrepPlan::Finished(res) && res.stdout@ == Seq::<char>::empty()
                        && res.stderr@ == "grep: invalid pattern: "@ + m + "\n"@ && res.exit_code == 1,
                    None => r matches GrepPlan::Search { opts, re, files } && opts@ == o
                        && re.pattern() == p
                        && views_of(files@) == (if o.files.len() == 0 { seq!["-"@] } else { o.files }),
                }
            },
        },
{
    if wants_help(args) {
        let usage = "Usage: grep [OPTION]... PATTERN [FILE]...\n\n\
                 Search for PATTERN in each FILE.\n\n\
                 Options:\n\
                   -E, --extended-regexp  PATTERN is an extended regular expression\n\
                   -F, --fixed-strings    PATTERN is a set of newline-separated strings\n\
                   -i, --ignore-case      ignore case distinctions\n\
                   -v, --invert-match     select non-matching lines\n\
                   -c, --count            print only a count of matching lines\n\
                   -l, --files-with-matches  print only names of FILEs with matches\n\
                   -L, --files-without-match  print only names of FILEs without matches\n\
                   -n, --line-number      print line number with output lines\n\
                   -o, --only-matching    show only the part of a line matching PATTERN\n\
                   -q, --quiet            suppress all normal output\n\
                   -m NUM, --max-count=NUM  stop after NUM matches\n\
                       --help             display this help and exit\n";
        return GrepPlan::Finished(ExecResult::new(string_from(usage), String::new(), 0));
    }
    let opts = match parse_grep_args(args) {
        Ok(o) => o,
        Err(e) => {
            let mut msg = e;
            push_char(&mut msg, '\n');
            proof {
                reveal_strlit("\n");
            }
            return GrepPlan::Finished(ExecResult::new(String::new(), msg, 1));
        },
    };
    let re = match build_regex(&opts) {
        Ok(r) => r,
        Err(e) => {
            let mut msg = e;
            push_char(&mut msg, '\n');
            proof {
                reveal_strlit("\n");
            }
            return GrepPlan::Finished(ExecResult::new(String::new(), msg, 1));
        },
    };
    let files = grep_input_files(&opts);
    GrepPlan::Search { opts, re, files }
}

/// Each printed match line of `grep` is the file name and `:` (with
/// several files), then the line number and `:` (with `-n`), then the line:
/// the name always comes first. With `-o` each match of the line gets the
/// same prefix.
pub proof fn grep_match_line_layout(
    entries: Seq<(int, Seq<char>)>,
    e: (int, Seq<char>),
    pattern: Seq<char>,
    file: Seq<char>,
    show_filename: bool,
    line_number: bool,
)
    ensures
        matched_output(entries.push(e), pattern, file, show_filename, line_number, false)
            == matched_output(entries, pattern, file, show_filename, line_number, false)
                + (if show_filename { file + seq![':'] } else { Seq::empty() })
                + (if line_number { decimal(e.0 as nat) + seq![':'] } else { Seq::empty() })
                + e.1 + seq!['\n'],
        matched_output(entries.push(e), pattern, file, show_filename, line_number, true)
            == matched_output(entries, pattern, file, show_filename, line_number, true)
                + prefixed_lines(regex_matches(pattern, e.1),
                    (if show_filename { file + seq![':'] } else { Seq::empty() })
                    + (if line_number { decimal(e.0 as nat) + seq![':'] } else { Seq::empty() })),
{
    reveal_strlit(":");
    reveal_strlit("\n");
    let es = entries.push(e);
    assert(es.drop_last() =~= entries);
    assert(es.last() == e);
    let p = line_prefix(file, show_filename, line_number, e.0);
    assert(p == (if show_filename { file + seq![':'] } else { Seq::empty() })
        + (if line_number { decimal(e.0 as nat) + seq![':'] } else { Seq::empty() }));
}

spec fn grep_flag_set(o: GrepOptionsView, c: char) -> GrepOptionsView {
    GrepOptionsView {
        ignore_case: o.ignore_case || c == 'i',
        invert_match: o.invert_match || c == 'v',
        count_only: o.count_only || c == 'c',
        files_with_matches: o.files_with_matches || c == 'l',
        files_without_matches: o.files_without_matches || c == 'L',
        line_number: o.line_number || c == 'n',
        only_matching: o.only_matching || c == 'o',
        quiet: o.quiet || c == 'q',
        fixed_strings: o.fixed_strings || c == 'F',
        ..o
    }
}

#[verifier::spinoff_prover]
proof fn lemma_grep_flag_normal(o: GrepOptionsView, c: char)
    ensures
        grep_flag_effect(o, c) == grep_flag_set(o, c),
{
}

proof fn lemma_grep_flag_pair(o: GrepOptionsView, c: char, d: char)
    ensures
        grep_flag_effect(grep_flag_effect(o, c), d) == grep_flag_effect(grep_flag_effect(o, d), c),
{
    lemma_grep_flag_normal(o, c);
    lemma_grep_flag_normal(o, d);
    lemma_grep_flag_normal(grep_flag_effect(o, c), d);
    lemma_grep_flag_normal(grep_flag_effect(o, d), c);
    assert(grep_flag_set(grep_flag_set(o, c), d) == grep_flag_set(grep_flag_set(o, d), c));
}

#[verifier::spinoff_prover]
#[verifier::rlimit(60)]
proof fn lemma_grep_flag_commutes(args: Seq<Seq<char>>, i: int, o: GrepOptionsView, pos: Seq<Seq<char>>, c: char)
    ensures
        grep_args_from(args, i, grep_flag_effect(o, c), pos)
            == (grep_flag_effect(grep_args_from(args, i, o, pos).0, c), grep_args_from(args, i, o, pos).1),
    decreases args.len() - i,
{
    if 0 <= i < args.len() {
        let arg = args[i];
        lemma_grep_flag_normal(o, c);
        if (arg == "-e"@ || arg == "--regexp"@) && i + 1 < args.len() {
            let o2 = GrepOptionsView { pattern_parts: o.pattern_parts.push(args[i + 1]), ..o };
            lemma_grep_flag_commutes(args, i + 2, o2, pos, c);
            lemma_grep_flag_normal(o2, c);
        } else if grep_flag_letter(arg) is Some {
            let d = grep_flag_letter(arg)->0;
            lemma_grep_flag_commutes(args, i + 1, grep_flag_effect(o, d), pos, c);
            lemma_grep_flag_pair(o, c, d);
        } else if arg == "-E"@ || arg == "--extended-regexp"@ {
            lemma_grep_flag_commutes(args, i + 1, o, pos, c);
        } else if arg == "-m"@ && i + 1 < args.len() {
            let o2 = GrepOptionsView { max_count: parsed_usize(args[i + 1]), ..o };
            lemma_grep_flag_commutes(args, i + 2, o2, pos, c);
            lemma_grep_flag_normal(o2, c);
        } else if arg.len() >= 2 && arg.take(2) == "-m"@ {
            let o2 = GrepOptionsView { max_count: parsed_usize(arg.skip(2)), ..o };
            lemma_grep_flag_commutes(args, i + 1, o2, pos, c);
            lemma_grep_flag_normal(o2, c);
        } else if arg.len() >= 12 && arg.take(12) == "--max-count="@ {
            let o2 = GrepOptionsView { max_count: parsed_usize(arg.skip(12)), ..o };
            lemma_grep_flag_commutes(args, i + 1, o2, pos, c);
            lemma_grep_flag_normal(o2, c);
        } else if !(arg.len() > 0 && arg[0] == '-') {
            lemma_grep_flag_commutes(args, i + 1, o, pos.push(arg), c);
        } else {
            lemma_grep_flag_commutes(args, i + 1, o, pos, c);
        }
    }
}

proof fn lemma_grep_shift(a: Seq<char>, rest: Seq<Seq<char>>, i: int, o: GrepOptionsView, pos: Seq<Seq<char>>)
    requires
        0 <= i,
    ensures
        grep_args_from(seq![a] + rest, i + 1, o, pos) == grep_args_from(rest, i, o, pos),
    decreases rest.len() - i,
{
    let args = seq![a] + rest;
    if i < rest.len() {
        assert(args[i + 1] == rest[i]);
        if i + 1 < rest.len() {
            assert(args[i + 2] == rest[i + 1]);
        }
        let arg = rest[i];
        if (arg == "-e"@ || arg == "--regexp"@) && i + 1 < rest.len() {
            lemma_grep_shift(a, rest, i + 2, GrepOptionsView { pattern_parts: o.pattern_parts.push(rest[i + 1]), ..o }, pos);
        } else if grep_flag_letter(arg) is Some {
            lemma_grep_shift(a, rest, i + 1, grep_flag_effect(o, grep_flag_letter(arg)->0), pos);
        } else if arg == "-E"@ || arg == "--extended-regexp"@ {
            lemma_grep_shift(a, rest, i + 1, o, pos);
        } else if arg == "-m"@ && i + 1 < rest.len() {
            lemma_grep_shift(a, rest, i + 2, GrepOptionsView { max_count: parsed_usize(rest[i + 1]), ..o }, pos);
        } else if arg.len() >= 2 && arg.take(2) == "-m"@ {
            lemma_grep_shift(a, rest, i + 1, GrepOptionsView { max_count: parsed_usize(arg.skip(2)), ..o }, pos);
        } else if arg.len() >= 12 && arg.take(12) == "--max-count="@ {
            lemma_grep_shift(a, rest, i + 1, GrepOptionsView { max_count: parsed_usize(arg.skip(12)), ..o }, pos);
        } else if !(arg.len() > 0 && arg[0] == '-') {
            lemma_grep_shift(a, rest, i + 1, o, pos.push(arg));
        } else {
            lemma_grep_shift(a, rest, i + 1, o, pos);
        }
    }
}

proof fn lemma_grep_leading_flag(a: Seq<char>, rest: Seq<Seq<char>>, c: char)
    requires
        a != "-e"@ && a != "--regexp"@,
        grep_flag_letter(a) == Some(c),
    ensures
        grep_parsed(seq![a] + rest) == (match grep_parsed(rest) {
            Ok(o) => Ok(grep_flag_effect(o, c)),
            Err(e) => Err::<GrepOptionsView, Seq<char>>(e),
        }),
{
    let args = seq![a] + rest;
    let d = default_grep_options();
    assert(args[0] == a);
    assert(grep_args_from(args, 0, d, Seq::empty()) == grep_args_from(args, 1, grep_flag_effect(d, c), Seq::empty()));
    lemma_grep_shift(a, rest, 0, grep_flag_effect(d, c), Seq::empty());
    lemma_grep_flag_commutes(rest, 0, d, Seq::empty(), c);
    let r = grep_args_from(rest, 0, d, Seq::empty());
    lemma_grep_flag_normal(r.0, c);
    if r.0.pattern_parts.len() == 0 && r.1.len() > 0 {
        lemma_grep_flag_normal(GrepOptionsView { pattern_parts: seq![r.1[0]], files: r.1.skip(1), ..r.0 }, c);
    } else if r.0.pattern_parts.len() > 0 {
        lemma_grep_flag_normal(GrepOptionsView { files: r.1, ..r.0 }, c);
    }
}

/// Each boolean flag of `grep`, short or long, sets its own option and
/// nothing else: put in front of any arguments, it gives what those
/// arguments give (the same patterns, files or error) with that one option
/// turned on.
pub proof fn grep_flags_set_their_option(rest: Seq<Seq<char>>)
    ensures
        grep_parsed(seq!["-i"@] + rest) == (match grep_parsed(rest) {
            Ok(o) => Ok(GrepOptionsView { ignore_case: true, ..o }),
            Err(e) => Err::<GrepOptionsView, Seq<char>>(e),
        }),
        grep_parsed(seq!["--ignore-case"@] + rest) == (match grep_parsed(rest) {
            Ok(o) => Ok(GrepOptionsView { ignore_case: true, ..o }),
            Err(e) => Err::<GrepOptionsView, Seq<char>>(e),
        }),
        grep_parsed(seq!["-v"@] + rest) == (match grep_parsed(rest) {
            Ok(o) => Ok(GrepOptionsView { invert_match: true, ..o }),
            Err(e) => Err::<GrepOptionsView, Seq<char>>(e),
        }),
        grep_parsed(seq!["--invert-match"@] + rest) == (match grep_parsed(rest) {
            Ok(o) => Ok(GrepOptionsView { invert_match: true, ..o }),
            Err(e) => Err::<GrepOptionsView, Seq<char>>(e),
        }),
        grep_parsed(seq!["-c"@] + rest) == (match grep_parsed(rest) {
            Ok(o) => Ok(GrepOptionsView { count_only: true, ..o }),
            Err(e) => Err::<GrepOptionsView, Seq<char>>(e),
        }),
        grep_parsed(seq!["--count"@] + rest) == (match grep_parsed(rest) {
            Ok(o) => Ok(GrepOptionsView { count_only: true, ..o }),
            Err(e) => Err::<GrepOptionsView, Seq<char>>(e),
        }),
        grep_parsed(seq!["-l"@] + rest) == (match grep_parsed(rest) {
            Ok(o) => Ok(GrepOptionsView { files_with_matches: true, ..o }),
            Err(e) => Err::<GrepOptionsView, Seq<char>>(e),
        }),
        grep_parsed(seq!["--files-with-matches"@] + rest) == (match grep_parsed(rest) {
            Ok(o) => Ok(GrepOptionsView { files_with_matches: true, ..o }),
            Err(e) => Err::<GrepOptionsView, Seq<char>>(e),
        }),
        grep_parsed(seq!["-L"@] + rest) == (match grep_parsed(rest) {
            Ok(o) => Ok(GrepOptionsView { files_without_matches: true, ..o }),
            Err(e) => Err::<GrepOptionsView, Seq<char>>(e),
        }),
        grep_parsed(seq!["--files-without-match"@] + rest) == (match grep_parsed(rest) {
            Ok(o) => Ok(GrepOptionsView { files_without_matches: true, ..o }),
            Err(e) => Err::<GrepOptionsView, Seq<char>>(e),
        }),
        grep_parsed(seq!["-n"@] + rest) == (match grep_parsed(rest) {
            Ok(o) => Ok(GrepOptionsView { line_number: true, ..o }),
            Err(e) => Err::<GrepOptionsView, Seq<char>>(e),
        }),
        grep_parsed(seq!["--line-number"@] + rest) == (match grep_parsed(rest) {
            Ok(o) => Ok(GrepOptionsView { line_number: true, ..o }),
            Err(e) => Err::<GrepOptionsView, Seq<char>>(e),
        }),
        grep_parsed(seq!["-o"@] + rest) == (match grep_parsed(rest) {
            Ok(o) => Ok(GrepOptionsView { only_matching: true, ..o }),
            Err(e) => Err::<GrepOptionsView, Seq<char>>(e),
        }),
        grep_parsed(seq!["--only-matching"@] + rest) == (match grep_parsed(rest) {
            Ok(o) => Ok(GrepOptionsView { only_matching: true, ..o }),
            Err(e) => Err::<GrepOptionsView, Seq<char>>(e),
        }),
        grep_parsed(seq!["-q"@] + rest) == (match grep_parsed(rest) {
            Ok(o) => Ok(GrepOptionsView { quiet: true, ..o }),
            Err(e) => Err::<GrepOptionsView, Seq<char>>(e),
        }),
        grep_parsed(seq!["--quiet"@] + rest) == (match grep_parsed(rest) {
            Ok(o) => Ok(GrepOptionsView { quiet: true, ..o }),
            Err(e) => Err::<GrepOptionsView, Seq<char>>(e),
        }),
        grep_parsed(seq!["--silent"@] + rest) == (match grep_parsed(rest) {
            Ok(o) => Ok(GrepOptionsView { quiet: true, ..o }),
            Err(e) => Err::<GrepOptionsView, Seq<char>>(e),
        }),
        grep_parsed(seq!["-F"@] + rest) == (match grep_parsed(rest) {
            Ok(o) => Ok(GrepOptionsView { fixed_strings: true, ..o }),
            Err(e) => Err::<GrepOptionsView, Seq<char>>(e),
        }),
        grep_parsed(seq!["--fixed-strings"@] + rest) == (match grep_parsed(rest) {
            Ok(o) => Ok(GrepOptionsView { fixed_strings: true, ..o }),
            Err(e) => Err::<GrepOptionsView, Seq<char>>(e),
        }),
{
    reveal_strlit("-i");
    assert("-i"@.len() == 2 && "-i"@[1] == 'i');
    reveal_strlit("--ignore-case");
    assert("--ignore-case"@.len() == 13 && "--ignore-case"@[2] == 'i');
    reveal_strlit("-v");
    assert("-v"@.len() == 2 && "-v"@[1] == 'v');
    reveal_strlit("--invert-match");
    assert("--invert-match"@.len() == 14 && "--invert-match"@[2] == 'i');
    reveal_strlit("-c");
    assert("-c"@.len() == 2 && "-c"@[1] == 'c');
    reveal_strlit("--count");
    assert("--count"@.len() == 7 && "--count"@[2] == 'c');
    reveal_strlit("-l");
    assert("-l"@.len() == 2 && "-l"@[1] == 'l');
    reveal_strlit("--files-with-matches");
    assert("--files-with-matches"@.len() == 20 && "--files-with-matches"@[2] == 'f');
    reveal_strlit("-L");
    assert("-L"@.len() == 2 && "-L"@[1] == 'L');
    reveal_strlit("--files-without-match");
    assert("--files-without-match"@.len() == 21 && "--files-without-match"@[2] == 'f');
    reveal_strlit("-n");
    assert("-n"@.len() == 2 && "-n"@[1] == 'n');
    reveal_strlit("--line-number");
    assert("--line-number"@.len() == 13 && "--line-number"@[2] == 'l');
    reveal_strlit("-o");
    assert("-o"@.len() == 2 && "-o"@[1] == 'o');
    reveal_strlit("--only-matching");
    assert("--only-matching"@.len() == 15 && "--only-matching"@[2] == 'o');
    reveal_strlit("-q");
    assert("-q"@.len() == 2 && "-q"@[1] == 'q');
    reveal_strlit("--quiet");
    assert("--quiet"@.len() == 7 && "--quiet"@[2] == 'q');
    reveal_strlit("--silent");
    assert("--silent"@.len() == 8 && "--silent"@[2] == 's');
    reveal_strlit("-F");
    assert("-F"@.len() == 2 && "-F"@[1] == 'F');
    reveal_strlit("--fixed-strings");
    assert("--fixed-strings"@.len() == 15 && "--fixed-strings"@[2] == 'f');
    reveal_strlit("-e");
    assert("-e"@.len() == 2 && "-e"@[1] == 'e');
    reveal_strlit("--regexp");
    assert("--regexp"@.len() == 8 && "--regexp"@[2] == 'r');
    reveal_strlit("-E");
    assert("-E"@.len() == 2 && "-E"@[1] == 'E');
    reveal_strlit("--extended-regexp");
    assert("--extended-regexp"@.len() == 17 && "--extended-regexp"@[2] == 'e');
    reveal_strlit("-m");
    assert("-m"@.len() == 2 && "-m"@[1] == 'm');
    reveal_strlit("--max-count=");
    assert("--max-count="@.len() == 12 && "--max-count="@[2] == 'm');
    lemma_grep_leading_flag("-i"@, rest, 'i');
    lemma_grep_leading_flag("--ignore-case"@, rest, 'i');
    lemma_grep_leading_flag("-v"@, rest, 'v');
    lemma_grep_leading_flag("--invert-match"@, rest, 'v');
    lemma_grep_leading_flag("-c"@, rest, 'c');
    lemma_grep_leading_flag("--count"@, rest, 'c');
    lemma_grep_leading_flag("-l"@, rest, 'l');
    lemma_grep_leading_flag("--files-with-matches"@, rest, 'l');
    lemma_grep_leading_flag("-L"@, rest, 'L');
    lemma_grep_leading_flag("--files-without-match"@, rest, 'L');
    lemma_grep_leading_flag("-n"@, rest, 'n');
    lemma_grep_leading_flag("--line-number"@, rest, 'n');
    lemma_grep_leading_flag("-o"@, rest, 'o');
    lemma_grep_leading_flag("--only-matching"@, rest, 'o');
    lemma_grep_leading_flag("-q"@, rest, 'q');
    lemma_grep_leading_flag("--quiet"@, rest, 'q');
    lemma_grep_leading_flag("--silent"@, rest, 'q');
    lemma_grep_leading_flag("-F"@, rest, 'F');
    lemma_grep_leading_flag("--fixed-strings"@, rest, 'F');
}

} // verus!
