//! CLI argument parsing for `sort`.
use vstd::prelude::*;
use crate::text::{chars_eq_str, chars_of, chars_start_with_str, push_string, string_of, views_of};

verus! {

/// The options of `sort`. Key specifications are kept as written; the
/// comparator parses them.
pub struct SortOptions {
    pub reverse: bool,
    pub numeric: bool,
    pub unique: bool,
    pub ignore_case: bool,
    pub human_numeric: bool,
    pub version_sort: bool,
    pub dictionary_order: bool,
    pub month_sort: bool,
    pub ignore_leading_blanks: bool,
    pub stable: bool,
    pub check: bool,
    pub output_file: Option<String>,
    pub keys: Vec<String>,
    pub field_separator: Option<char>,
}

/// The options of `sort` as plain values.
pub struct SortOptionsView {
    pub reverse: bool,
    pub numeric: bool,
    pub unique: bool,
    pub ignore_case: bool,
    pub human_numeric: bool,
    pub version_sort: bool,
    pub dictionary_order: bool,
    pub month_sort: bool,
    pub ignore_leading_blanks: bool,
    pub stable: bool,
    pub check: bool,
    pub output_file: Option<Seq<char>>,
    pub keys: Seq<Seq<char>>,
    pub field_separator: Option<char>,
}

impl View for SortOptions {
    type V = SortOptionsView;

    open spec fn view(&self) -> SortOptionsView {
        SortOptionsView {
            reverse: self.reverse,
            numeric: self.numeric,
            unique: self.unique,
            ignore_case: self.ignore_case,
            human_numeric: self.human_numeric,
            version_sort: self.version_sort,
            dictionary_order: self.dictionary_order,
            month_sort: self.month_sort,
            ignore_leading_blanks: self.ignore_leading_blanks,
            stable: self.stable,
            check: self.check,
            output_file: match self.output_file {
                Some(s) => Some(s@),
                None => None,
            },
            keys: views_of(self.keys@),
            field_separator: self.field_separator,
        }
    }
}

/// No option set, no keys.
pub open spec fn default_sort_options() -> SortOptionsView {
    SortOptionsView {
        reverse: false,
        numeric: false,
        unique: false,
        ignore_case: false,
        human_numeric: false,
        version_sort: false,
        dictionary_order: false,
        month_sort: false,
        ignore_leading_blanks: false,
        stable: false,
        check: false,
        output_file: None,
        keys: Seq::empty(),
        field_separator: None,
    }
}

impl Default for SortOptions {
    fn default() -> (r: SortOptions)
        ensures
            r@ == default_sort_options(),
    {
        let r = SortOptions {
            reverse: false,
            numeric: false,
            unique: false,
            ignore_case: false,
            human_numeric: false,
            version_sort: false,
            dictionary_order: false,
            month_sort: false,
            ignore_leading_blanks: false,
            stable: false,
            check: false,
            output_file: None,
            keys: Vec::new(),
            field_separator: None,
        };
        assert(views_of(r.keys@) =~= Seq::<Seq<char>>::empty());
        r
    }
}

/// The effect of the flag letter `c` (one of `rnufhVdMbsc`; others change nothing).
pub open spec fn flag_effect(o: SortOptionsView, c: char) -> SortOptionsView {
    if c == 'r' { SortOptionsView { reverse: true, ..o } }
    else if c == 'n' { SortOptionsView { numeric: true, ..o } }
    else if c == 'u' { SortOptionsView { unique: true, ..o } }
    else if c == 'f' { SortOptionsView { ignore_case: true, ..o } }
    else if c == 'h' { SortOptionsView { human_numeric: true, ..o } }
    else if c == 'V' { SortOptionsView { version_sort: true, ..o } }
    else if c == 'd' { SortOptionsView { dictionary_order: true, ..o } }
    else if c == 'M' { SortOptionsView { month_sort: true, ..o } }
    else if c == 'b' { SortOptionsView { ignore_leading_blanks: true, ..o } }
    else if c == 's' { SortOptionsView { stable: true, ..o } }
    else if c == 'c' { SortOptionsView { check: true, ..o } }
    else { o }
}

/// The flag letter that a long flag name stands for.
pub open spec fn long_flag_letter(arg: Seq<char>) -> Option<char> {
    if arg == "--reverse"@ { Some('r') }
    else if arg == "--numeric-sort"@ { Some('n') }
    else if arg == "--unique"@ { Some('u') }
    else if arg == "--ignore-case"@ { Some('f') }
    else if arg == "--human-numeric-sort"@ { Some('h') }
    else if arg == "--version-sort"@ { Some('V') }
    else if arg == "--dictionary-order"@ { Some('d') }
    else if arg == "--month-sort"@ { Some('M') }
    else if arg == "--ignore-leading-blanks"@ { Some('b') }
    else if arg == "--stable"@ { Some('s') }
    else if arg == "--check"@ { Some('c') }
    else { None }
}

/// The effect of one long option (`--name` or `--name=value`).
pub open spec fn long_option(o: SortOptionsView, arg: Seq<char>) -> SortOptionsView {
    match long_flag_letter(arg) {
        Some(c) => flag_effect(o, c),
        None => if arg.len() >= 9 && arg.take(9) == "--output="@ {
            SortOptionsView { output_file: Some(arg.skip(9)), ..o }
        } else if arg.len() >= 6 && arg.take(6) == "--key="@ {
            SortOptionsView { keys: o.keys.push(arg.skip(6)), ..o }
        } else if arg.len() >= 18 && arg.take(18) == "--field-separator="@ {
            if arg.len() > 18 { SortOptionsView { field_separator: Some(arg[18]), ..o } } else { o }
        } else {
            o
        },
    }
}

/// The effect of the flag letters `cs[j..]` of a short-option cluster;
/// `next` is the following argument, which `-o`, `-k` and `-t` take when
/// their value is not attached. Also says whether `next` was taken.
pub open spec fn short_options(o: SortOptionsView, cs: Seq<char>, j: int, next: Option<Seq<char>>) -> (SortOptionsView, bool)
    decreases cs.len() - j,
{
    if j < 0 || j >= cs.len() {
        (o, false)
    } else {
        let c = cs[j];
        let rest = cs.skip(j + 1);
        if c == 'o' || c == 'k' || c == 't' {
            if rest.len() > 0 {
                (value_option(o, c, rest), false)
            } else {
                match next {
                    Some(n) => (value_option(o, c, n), true),
                    None => (o, false),
                }
            }
        } else {
            short_options(flag_effect(o, c), cs, j + 1, next)
        }
    }
}

/// The effect of `-o`, `-k` or `-t` with the value `v`.
pub open spec fn value_option(o: SortOptionsView, c: char, v: Seq<char>) -> SortOptionsView {
    if c == 'o' {
        SortOptionsView { output_file: Some(v), ..o }
    } else if c == 'k' {
        SortOptionsView { keys: o.keys.push(v), ..o }
    } else {
        SortOptionsView { field_separator: if v.len() > 0 { Some(v[0]) } else { None }, ..o }
    }
}

/// The options and file operands that `args[i..]` add to `o` and `files`.
pub open spec fn sort_args_from(args: Seq<Seq<char>>, i: int, o: SortOptionsView, files: Seq<Seq<char>>) -> (SortOptionsView, Seq<Seq<char>>)
    decreases args.len() - i,
{
    if i < 0 || i >= args.len() {
        (o, files)
    } else {
        let arg = args[i];
        if arg == "--"@ {
            (o, files + args.skip(i + 1))
        } else if arg.len() >= 2 && arg.take(2) == "--"@ {
            sort_args_from(args, i + 1, long_option(o, arg), files)
        } else if arg.len() > 1 && arg[0] == '-' {
            let next = if i + 1 < args.len() { Some(args[i + 1]) } else { None };
            let r = short_options(o, arg.skip(1), 0, next);
            sort_args_from(args, if r.1 && i + 2 <= args.len() { i + 2 } else { i + 1 }, r.0, files)
        } else {
            sort_args_from(args, i + 1, o, files.push(arg))
        }
    }
}

fn push_key(opts: &mut SortOptions, key: String)
    ensures
        final(opts)@ == (SortOptionsView { keys: old(opts)@.keys.push(key@), ..old(opts)@ }),
{
    let ghost before = views_of(opts.keys@);
    opts.keys.push(key);
    assert(views_of(opts.keys@) =~= before.push(key@));
}

fn set_flag(opts: &mut SortOptions, c: char)
    ensures
        final(opts)@ == flag_effect(old(opts)@, c),
{
    if c == 'r' { opts.reverse = true; }
    else if c == 'n' { opts.numeric = true; }
    else if c == 'u' { opts.unique = true; }
    else if c == 'f' { opts.ignore_case = true; }
    else if c == 'h' { opts.human_numeric = true; }
    else if c == 'V' { opts.version_sort = true; }
    else if c == 'd' { opts.dictionary_order = true; }
    else if c == 'M' { opts.month_sort = true; }
    else if c == 'b' { opts.ignore_leading_blanks = true; }
    else if c == 's' { opts.stable = true; }
    else if c == 'c' { opts.check = true; }
}

fn long_flag_letter_of(arg: &[char]) -> (r: Option<char>)
    ensures
        r == long_flag_letter(arg@),
{
    if chars_eq_str(arg, "--reverse") { Some('r') }
    else if chars_eq_str(arg, "--numeric-sort") { Some('n') }
    else if chars_eq_str(arg, "--unique") { Some('u') }
    else if chars_eq_str(arg, "--ignore-case") { Some('f') }
    else if chars_eq_str(arg, "--human-numeric-sort") { Some('h') }
    else if chars_eq_str(arg, "--version-sort") { Some('V') }
    else if chars_eq_str(arg, "--dictionary-order") { Some('d') }
    else if chars_eq_str(arg, "--month-sort") { Some('M') }
    else if chars_eq_str(arg, "--ignore-leading-blanks") { Some('b') }
    else if chars_eq_str(arg, "--stable") { Some('s') }
    else if chars_eq_str(arg, "--check") { Some('c') }
    else { None }
}

fn set_value_option(opts: &mut SortOptions, c: char, v: &[char])
    requires
        c == 'o' || c == 'k' || c == 't',
    ensures
        final(opts)@ == value_option(old(opts)@, c, v@),
{
    if c == 'o' {
        opts.output_file = Some(string_of(v));
    } else if c == 'k' {
        push_key(opts, string_of(v));
    } else {
        opts.field_separator = if v.len() > 0 { Some(v[0]) } else { None };
    }
}

fn apply_long_option(opts: &mut SortOptions, arg: &[char])
    ensures
        final(opts)@ == long_option(old(opts)@, arg@),
{
    proof {
        reveal_strlit("--output=");
        reveal_strlit("--key=");
        reveal_strlit("--field-separator=");
    }
    match long_flag_letter_of(arg) {
        Some(c) => {
            set_flag(opts, c);
        },
        None => {
            if chars_start_with_str(arg, "--output=") {
                opts.output_file = Some(string_of(arg.split_at(9).1));
            } else if chars_start_with_str(arg, "--key=") {
                push_key(opts, string_of(arg.split_at(6).1));
            } else if chars_start_with_str(arg, "--field-separator=") {
                if arg.len() > 18 {
                    opts.field_separator = Some(arg[18]);
                }
            }
        },
    }
}

/// Applies the flag letters of a short-option cluster `cs` (the argument
/// without its leading `-`); returns whether `next` was taken as a value.
fn apply_short_options(opts: &mut SortOptions, cs: &[char], next: Option<&String>) -> (consumed: bool)
    ensures
        (final(opts)@, consumed) == short_options(old(opts)@, cs@, 0, match next {
            Some(n) => Some(n@),
            None => None,
        }),
        consumed ==> next is Some,
{
    let ghost nv = match next { Some(n) => Some(n@), None => None::<Seq<char>> };
    let ghost goal = short_options(opts@, cs@, 0, nv);
    let mut j: usize = 0;
    while j < cs.len()
        invariant
            j <= cs.len(),
            goal == short_options(opts@, cs@, j as int, nv),
            goal == short_options(old(opts)@, cs@, 0, nv),
            nv == match next { Some(n) => Some(n@), None => None::<Seq<char>> },
        decreases cs.len() - j,
    {
        let c = cs[j];
        let ghost cur = opts@;
        if c == 'o' || c == 'k' || c == 't' {
            let tail = cs.split_at(j + 1).1;
            assert(tail@ == cs@.skip(j + 1));
            assert(goal == (if tail@.len() > 0 {
                (value_option(cur, c, tail@), false)
            } else {
                match nv {
                    Some(n) => (value_option(cur, c, n), true),
                    None => (cur, false),
                }
            }));
            if tail.len() > 0 {
                set_value_option(opts, c, tail);
                return false;
            }
            match next {
                Some(n) => {
                    let nc = chars_of(n.as_str());
                    set_value_option(opts, c, nc.as_slice());
                    return true;
                },
                None => {
                    return false;
                },
            }
        }
        set_flag(opts, c);
        j = j + 1;
    }
    false
}

/// Parses the arguments of `sort` into its options and its file operands.
pub fn parse_sort_args(args: &[String]) -> (r: (SortOptions, Vec<String>))
    ensures
        (r.0@, views_of(r.1@)) == sort_args_from(views_of(args@), 0, default_sort_options(), Seq::empty()),
{
    let ghost all = views_of(args@);
    let mut opts = SortOptions::default();
    let mut files: Vec<String> = Vec::new();
    let mut i: usize = 0;
    assert(views_of(files@) =~= Seq::<Seq<char>>::empty());
    while i < args.len()
        invariant
            i <= args.len(),
            all == views_of(args@),
            sort_args_from(all, 0, default_sort_options(), Seq::empty())
                == sort_args_from(all, i as int, opts@, views_of(files@)),
        decreases args.len() - i,
    {
        let arg = chars_of(args[i].as_str());
        assert(all[i as int] == arg@);
        proof {
            reveal_strlit("--");
        }
        if chars_eq_str(arg.as_slice(), "--") {
            let ghost before = views_of(files@);
            let mut k = i + 1;
            while k < args.len()
                invariant
                    i < k <= args.len(),
                    all == views_of(args@),
                    views_of(files@) == before + all.subrange(i + 1, k as int),
                decreases args.len() - k,
            {
                push_string(&mut files, args[k].clone());
                assert(views_of(files@) =~= before + all.subrange(i + 1, k + 1));
                k = k + 1;
            }
            assert(all.subrange(i + 1, args.len() as int) =~= all.skip(i + 1));
            return (opts, files);
        }
        if chars_start_with_str(arg.as_slice(), "--") {
            apply_long_option(&mut opts, arg.as_slice());
            i = i + 1;
        } else if arg.len() > 1 && arg[0] == '-' {
            let next = if i + 1 < args.len() { Some(&args[i + 1]) } else { None };
            let consumed = apply_short_options(&mut opts, arg.as_slice().split_at(1).1, next);
            i = if consumed { i + 2 } else { i + 1 };
        } else {
            push_string(&mut files, args[i].clone());
            i = i + 1;
        }
    }
    (opts, files)
}

/// The options and file operands of the arguments `args`.
pub open spec fn sort_parse(args: Seq<Seq<char>>) -> (SortOptionsView, Seq<Seq<char>>) {
    sort_args_from(args, 0, default_sort_options(), Seq::empty())
}

spec fn flag_set(o: SortOptionsView, c: char) -> SortOptionsView {
    SortOptionsView {
        reverse: o.reverse || c == 'r',
        numeric: o.numeric || c == 'n',
        unique: o.unique || c == 'u',
        ignore_case: o.ignore_case || c == 'f',
        human_numeric: o.human_numeric || c == 'h',
        version_sort: o.version_sort || c == 'V',
        dictionary_order: o.dictionary_order || c == 'd',
        month_sort: o.month_sort || c == 'M',
        ignore_leading_blanks: o.ignore_leading_blanks || c == 'b',
        stable: o.stable || c == 's',
        check: o.check || c == 'c',
        ..o
    }
}

#[verifier::spinoff_prover]
proof fn lemma_flag_normal(o: SortOptionsView, c: char)
    ensures
        flag_effect(o, c) == flag_set(o, c),
{
}

proof fn lemma_flag_set_pair(o: SortOptionsView, c: char, d: char)
    ensures
        flag_set(flag_set(o, c), d) == flag_set(flag_set(o, d), c),
{
}

#[verifier::spinoff_prover]
proof fn lemma_flag_pair(o: SortOptionsView, c: char, d: char)
    ensures
        flag_effect(flag_effect(o, c), d) == flag_effect(flag_effect(o, d), c),
{
    let x = flag_effect(o, c);
    let y = flag_effect(o, d);
    lemma_flag_normal(o, c);
    lemma_flag_normal(o, d);
    lemma_flag_normal(x, d);
    lemma_flag_normal(y, c);
    lemma_flag_set_pair(o, c, d);
    assert(flag_effect(x, d) == flag_set(flag_set(o, c), d));
    assert(flag_effect(y, c) == flag_set(flag_set(o, d), c));
}

proof fn lemma_flag_value(o: SortOptionsView, c: char, d: char, v: Seq<char>)
    ensures
        value_option(flag_effect(o, c), d, v) == flag_effect(value_option(o, d, v), c),
{
    lemma_flag_normal(o, c);
    lemma_flag_normal(value_option(o, d, v), c);
}

proof fn lemma_flag_long(o: SortOptionsView, c: char, arg: Seq<char>)
    ensures
        long_option(flag_effect(o, c), arg) == flag_effect(long_option(o, arg), c),
{
    lemma_flag_normal(o, c);
    lemma_flag_normal(long_option(o, arg), c);
    match long_flag_letter(arg) {
        Some(d) => {
            lemma_flag_pair(o, c, d);
        },
        None => {},
    }
}

proof fn lemma_flag_commutes_short(o: SortOptionsView, c: char, cs: Seq<char>, j: int, next: Option<Seq<char>>)
    ensures
        short_options(flag_effect(o, c), cs, j, next)
            == (flag_effect(short_options(o, cs, j, next).0, c), short_options(o, cs, j, next).1),
    decreases cs.len() - j,
{
    if 0 <= j < cs.len() {
        let d = cs[j];
        if d == 'o' || d == 'k' || d == 't' {
            let rest = cs.skip(j + 1);
            if rest.len() > 0 {
                lemma_flag_value(o, c, d, rest);
            } else {
                match next {
                    Some(n) => {
                        lemma_flag_value(o, c, d, n);
                    },
                    None => {},
                }
            }
        } else {
            lemma_flag_commutes_short(flag_effect(o, d), c, cs, j + 1, next);
            lemma_flag_pair(o, c, d);
        }
    }
}

proof fn lemma_flag_commutes(args: Seq<Seq<char>>, i: int, o: SortOptionsView, files: Seq<Seq<char>>, c: char)
    ensures
        sort_args_from(args, i, flag_effect(o, c), files)
            == (flag_effect(sort_args_from(args, i, o, files).0, c), sort_args_from(args, i, o, files).1),
    decreases args.len() - i,
{
    if 0 <= i < args.len() {
        let arg = args[i];
        if arg == "--"@ {
        } else if arg.len() >= 2 && arg.take(2) == "--"@ {
            lemma_flag_commutes(args, i + 1, long_option(o, arg), files, c);
            lemma_flag_long(o, c, arg);
        } else if arg.len() > 1 && arg[0] == '-' {
            let next = if i + 1 < args.len() { Some(args[i + 1]) } else { None };
            let r = short_options(o, arg.skip(1), 0, next);
            lemma_flag_commutes_short(o, c, arg.skip(1), 0, next);
            let i2 = if r.1 && i + 2 <= args.len() { i + 2 } else { i + 1 };
            lemma_flag_commutes(args, i2, r.0, files, c);
        } else {
            lemma_flag_commutes(args, i + 1, o, files.push(arg), c);
        }
    }
}

proof fn lemma_sort_shift(a: Seq<char>, rest: Seq<Seq<char>>, i: int, o: SortOptionsView, files: Seq<Seq<char>>)
    requires
        0 <= i,
    ensures
        sort_args_from(seq![a] + rest, i + 1, o, files) == sort_args_from(rest, i, o, files),
    decreases rest.len() - i,
{
    let args = seq![a] + rest;
    if i < rest.len() {
        assert(args[i + 1] == rest[i]);
        let arg = rest[i];
        if arg == "--"@ {
            assert(args.skip(i + 2) =~= rest.skip(i + 1));
        } else if arg.len() >= 2 && arg.take(2) == "--"@ {
            lemma_sort_shift(a, rest, i + 1, long_option(o, arg), files);
        } else if arg.len() > 1 && arg[0] == '-' {
            if i + 1 < rest.len() {
                assert(args[i + 2] == rest[i + 1]);
            }
            let next = if i + 1 < rest.len() { Some(rest[i + 1]) } else { None };
            let r = short_options(o, arg.skip(1), 0, next);
            if r.1 && i + 2 <= rest.len() {
                lemma_sort_shift(a, rest, i + 2, r.0, files);
            } else {
                lemma_sort_shift(a, rest, i + 1, r.0, files);
            }
        } else {
            lemma_sort_shift(a, rest, i + 1, o, files.push(arg));
        }
    }
}

proof fn lemma_sort_leading_flag(a: Seq<char>, rest: Seq<Seq<char>>, c: char)
    requires
        sort_args_from(seq![a] + rest, 0, default_sort_options(), Seq::empty())
            == sort_args_from(seq![a] + rest, 1, flag_effect(default_sort_options(), c), Seq::empty()),
    ensures
        sort_parse(seq![a] + rest) == (flag_effect(sort_parse(rest).0, c), sort_parse(rest).1),
{
    lemma_sort_shift(a, rest, 0, flag_effect(default_sort_options(), c), Seq::empty());
    lemma_flag_commutes(rest, 0, default_sort_options(), Seq::empty(), c);
}

proof fn lemma_leading_short(rest: Seq<Seq<char>>, c: char)
    requires
        c != 'o' && c != 'k' && c != 't' && c != '-',
    ensures
        sort_parse(seq![seq!['-', c]] + rest) == (flag_effect(sort_parse(rest).0, c), sort_parse(rest).1),
{
    reveal_strlit("--");
    let a = seq!['-', c];
    let args = seq![a] + rest;
    assert(args[0] == a);
    assert(a != "--"@);
    assert(a.take(2) =~= a);
    let cs = a.skip(1);
    assert(cs =~= seq![c]);
    let next = if 1 < args.len() { Some(args[1]) } else { None };
    let d = default_sort_options();
    assert(short_options(flag_effect(d, c), cs, 1, next) == (flag_effect(d, c), false));
    assert(short_options(d, cs, 0, next) == (flag_effect(d, c), false));
    lemma_sort_leading_flag(a, rest, c);
}

proof fn lemma_leading_long(a: Seq<char>, rest: Seq<Seq<char>>, c: char)
    requires
        a.len() >= 3,
        a[0] == '-' && a[1] == '-',
        long_option(default_sort_options(), a) == flag_effect(default_sort_options(), c),
    ensures
        sort_parse(seq![a] + rest) == (flag_effect(sort_parse(rest).0, c), sort_parse(rest).1),
{
    reveal_strlit("--");
    let args = seq![a] + rest;
    assert(args[0] == a);
    assert(a != "--"@);
    assert(a.take(2) =~= "--"@);
    lemma_sort_leading_flag(a, rest, c);
}

/// Each flag of `sort`, short or long, sets its own option and nothing
/// else: put in front of any arguments, it gives what those arguments give
/// with that one option turned on.
pub proof fn sort_flags_set_their_option(rest: Seq<Seq<char>>)
    ensures
        sort_parse(seq![seq!['-', 'r']] + rest) == (SortOptionsView { reverse: true, ..sort_parse(rest).0 }, sort_parse(rest).1),
        sort_parse(seq!["--reverse"@] + rest) == (SortOptionsView { reverse: true, ..sort_parse(rest).0 }, sort_parse(rest).1),
        sort_parse(seq![seq!['-', 'n']] + rest) == (SortOptionsView { numeric: true, ..sort_parse(rest).0 }, sort_parse(rest).1),
        sort_parse(seq!["--numeric-sort"@] + rest) == (SortOptionsView { numeric: true, ..sort_parse(rest).0 }, sort_parse(rest).1),
        sort_parse(seq![seq!['-', 'u']] + rest) == (SortOptionsView { unique: true, ..sort_parse(rest).0 }, sort_parse(rest).1),
        sort_parse(seq!["--unique"@] + rest) == (SortOptionsView { unique: true, ..sort_parse(rest).0 }, sort_parse(rest).1),
        sort_parse(seq![seq!['-', 'f']] + rest) == (SortOptionsView { ignore_case: true, ..sort_parse(rest).0 }, sort_parse(rest).1),
        sort_parse(seq!["--ignore-case"@] + rest) == (SortOptionsView { ignore_case: true, ..sort_parse(rest).0 }, sort_parse(rest).1),
        sort_parse(seq![seq!['-', 'h']] + rest) == (SortOptionsView { human_numeric: true, ..sort_parse(rest).0 }, sort_parse(rest).1),
        sort_parse(seq!["--human-numeric-sort"@] + rest) == (SortOptionsView { human_numeric: true, ..sort_parse(rest).0 }, sort_parse(rest).1),
        sort_parse(seq![seq!['-', 'V']] + rest) == (SortOptionsView { version_sort: true, ..sort_parse(rest).0 }, sort_parse(rest).1),
        sort_parse(seq!["--version-sort"@] + rest) == (SortOptionsView { version_sort: true, ..sort_parse(rest).0 }, sort_parse(rest).1),
        sort_parse(seq![seq!['-', 'd']] + rest) == (SortOptionsView { dictionary_order: true, ..sort_parse(rest).0 }, sort_parse(rest).1),
        sort_parse(seq!["--dictionary-order"@] + rest) == (SortOptionsView { dictionary_order: true, ..sort_parse(rest).0 }, sort_parse(rest).1),
        sort_parse(seq![seq!['-', 'M']] + rest) == (SortOptionsView { month_sort: true, ..sort_parse(rest).0 }, sort_parse(rest).1),
        sort_parse(seq!["--month-sort"@] + rest) == (SortOptionsView { month_sort: true, ..sort_parse(rest).0 }, sort_parse(rest).1),
        sort_parse(seq![seq!['-', 'b']] + rest) == (SortOptionsView { ignore_leading_blanks: true, ..sort_parse(rest).0 }, sort_parse(rest).1),
        sort_parse(seq!["--ignore-leading-blanks"@] + rest) == (SortOptionsView { ignore_leading_blanks: true, ..sort_parse(rest).0 }, sort_parse(rest).1),
        sort_parse(seq![seq!['-', 's']] + rest) == (SortOptionsView { stable: true, ..sort_parse(rest).0 }, sort_parse(rest).1),
        sort_parse(seq!["--stable"@] + rest) == (SortOptionsView { stable: true, ..sort_parse(rest).0 }, sort_parse(rest).1),
        sort_parse(seq![seq!['-', 'c']] + rest) == (SortOptionsView { check: true, ..sort_parse(rest).0 }, sort_parse(rest).1),
        sort_parse(seq!["--check"@] + rest) == (SortOptionsView { check: true, ..sort_parse(rest).0 }, sort_parse(rest).1),
{
    reveal_strlit("--output=");
    reveal_strlit("--key=");
    reveal_strlit("--field-separator=");
    reveal_strlit("--reverse");
    assert("--reverse"@.len() == 9 && "--reverse"@[2] == 'r');
    reveal_strlit("--numeric-sort");
    assert("--numeric-sort"@.len() == 14 && "--numeric-sort"@[2] == 'n');
    reveal_strlit("--unique");
    assert("--unique"@.len() == 8 && "--unique"@[2] == 'u');
    reveal_strlit("--ignore-case");
    assert("--ignore-case"@.len() == 13 && "--ignore-case"@[2] == 'i');
    reveal_strlit("--human-numeric-sort");
    assert("--human-numeric-sort"@.len() == 20 && "--human-numeric-sort"@[2] == 'h');
    reveal_strlit("--version-sort");
    assert("--version-sort"@.len() == 14 && "--version-sort"@[2] == 'v');
    reveal_strlit("--dictionary-order");
    assert("--dictionary-order"@.len() == 18 && "--dictionary-order"@[2] == 'd');
    reveal_strlit("--month-sort");
    assert("--month-sort"@.len() == 12 && "--month-sort"@[2] == 'm');
    reveal_strlit("--ignore-leading-blanks");
    assert("--ignore-leading-blanks"@.len() == 23 && "--ignore-leading-blanks"@[2] == 'i');
    reveal_strlit("--stable");
    assert("--stable"@.len() == 8 && "--stable"@[2] == 's');
    reveal_strlit("--check");
    assert("--check"@.len() == 7 && "--check"@[2] == 'c');
    lemma_leading_short(rest, 'r');
    lemma_leading_long("--reverse"@, rest, 'r');
    lemma_leading_short(rest, 'n');
    lemma_leading_long("--numeric-sort"@, rest, 'n');
    lemma_leading_short(rest, 'u');
    lemma_leading_long("--unique"@, rest, 'u');
    lemma_leading_short(rest, 'f');
    lemma_leading_long("--ignore-case"@, rest, 'f');
    lemma_leading_short(rest, 'h');
    lemma_leading_long("--human-numeric-sort"@, rest, 'h');
    lemma_leading_short(rest, 'V');
    lemma_leading_long("--version-sort"@, rest, 'V');
    lemma_leading_short(rest, 'd');
    lemma_leading_long("--dictionary-order"@, rest, 'd');
    lemma_leading_short(rest, 'M');
    lemma_leading_long("--month-sort"@, rest, 'M');
    lemma_leading_short(rest, 'b');
    lemma_leading_long("--ignore-leading-blanks"@, rest, 'b');
    lemma_leading_short(rest, 's');
    lemma_leading_long("--stable"@, rest, 's');
    lemma_leading_short(rest, 'c');
    lemma_leading_long("--check"@, rest, 'c');
}

} // verus!
