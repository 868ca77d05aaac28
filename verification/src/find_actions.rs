//! Post-traverse `-delete` and `-exec` handling for `find`: which actions an
//! expression holds, the order of deletions, and the commands to run.
use vstd::prelude::*;
use crate::builtin_dispatch::ExecResult;
use crate::text::{chars_eq_str, chars_of, push_char, push_str_chars, push_string, views_of};

verus! {

/// A `find` expression, as far as actions are concerned.
pub enum Expression {
    Print,
    Print0,
    Printf { format: String },
    Delete,
    Exec { command: Vec<String>, batch: bool },
    Not(Box<Expression>),
    And(Box<Expression>, Box<Expression>),
    Or(Box<Expression>, Box<Expression>),
    /// Any test primary (`-name`, `-type`, ...): no action.
    Test,
}

/// Whether `e` holds an action (`-print`, `-print0`, `-printf`, `-delete`, `-exec`).
pub open spec fn has_action(e: Expression) -> bool
    decreases e,
{
    match e {
        Expression::Print | Expression::Print0 | Expression::Printf { .. } | Expression::Delete
        | Expression::Exec { .. } => true,
        Expression::Not(inner) => has_action(*inner),
        Expression::And(l, r) => has_action(*l) || has_action(*r),
        Expression::Or(l, r) => has_action(*l) || has_action(*r),
        Expression::Test => false,
    }
}

/// Whether `e` holds `-delete`.
pub open spec fn has_delete(e: Expression) -> bool
    decreases e,
{
    match e {
        Expression::Delete => true,
        Expression::Not(inner) => has_delete(*inner),
        Expression::And(l, r) => has_delete(*l) || has_delete(*r),
        Expression::Or(l, r) => has_delete(*l) || has_delete(*r),
        _ => false,
    }
}

/// The first `-exec` of `e` (left to right): its command words and whether it batches.
pub open spec fn first_exec(e: Expression) -> Option<(Seq<Seq<char>>, bool)>
    decreases e,
{
    match e {
        Expression::Exec { command, batch } => Some((views_of(command@), batch)),
        Expression::Not(inner) => first_exec(*inner),
        Expression::And(l, r) => if first_exec(*l) is Some { first_exec(*l) } else { first_exec(*r) },
        Expression::Or(l, r) => if first_exec(*l) is Some { first_exec(*l) } else { first_exec(*r) },
        _ => None,
    }
}

/// Whether the expression holds an action.
pub fn expression_has_action(expr: &Expression) -> (r: bool)
    ensures
        r == has_action(*expr),
    decreases expr,
{
    match expr {
        Expression::Print | Expression::Print0 | Expression::Printf { .. } | Expression::Delete
        | Expression::Exec { .. } => true,
        Expression::Not(inner) => expression_has_action(inner),
        Expression::And(left, right) | Expression::Or(left, right) => {
            expression_has_action(left) || expression_has_action(right)
        },
        Expression::Test => false,
    }
}

/// Whether the expression holds `-delete`.
pub fn expression_has_delete(expr: &Expression) -> (r: bool)
    ensures
        r == has_delete(*expr),
    decreases expr,
{
    match expr {
        Expression::Delete => true,
        Expression::Not(inner) => expression_has_delete(inner),
        Expression::And(left, right) | Expression::Or(left, right) => {
            expression_has_delete(left) || expression_has_delete(right)
        },
        _ => false,
    }
}

fn clone_words(v: &Vec<String>) -> (r: Vec<String>)
    ensures
        views_of(r@) == views_of(v@),
{
    let mut r: Vec<String> = Vec::new();
    let mut i: usize = 0;
    while i < v.len()
        invariant
            i <= v.len(),
            views_of(r@) == views_of(v@).take(i as int),
        decreases v.len() - i,
    {
        push_string(&mut r, v[i].clone());
        assert(views_of(v@).take(i + 1) =~= views_of(v@).take(i as int).push(v@[i as int]@));
        i = i + 1;
    }
    assert(views_of(v@).take(v.len() as int) =~= views_of(v@));
    r
}

/// The first `-exec` of the expression: its command words and whether it batches (`+`).
pub fn expression_get_exec(expr: &Expression) -> (r: Option<(Vec<String>, bool)>)
    ensures
        match r {
            Some(x) => first_exec(*expr) == Some((views_of(x.0@), x.1)),
            None => first_exec(*expr) is None,
        },
    decreases expr,
{
    match expr {
        Expression::Exec { command, batch } => Some((clone_words(command), *batch)),
        Expression::Not(inner) => expression_get_exec(inner),
        Expression::And(left, right) | Expression::Or(left, right) => {
            match expression_get_exec(left) {
                Some(x) => Some(x),
                None => expression_get_exec(right),
            }
        },
        _ => None,
    }
}

/// The length in bytes (UTF-8) of a string, as `str::len` reports it.
pub open spec fn byte_len(s: Seq<char>) -> usize {
    vstd::utf8::encode_utf8(s).len() as usize
}

/// `x` inserted into `sorted` (longest first) after every entry at least as long.
pub open spec fn insert_by_len(sorted: Seq<Seq<char>>, x: Seq<char>) -> Seq<Seq<char>>
    decreases sorted.len(),
{
    if sorted.len() == 0 {
        seq![x]
    } else if byte_len(sorted.last()) >= byte_len(x) {
        sorted.push(x)
    } else {
        insert_by_len(sorted.drop_last(), x).push(sorted.last())
    }
}

/// `paths` ordered longest first (by byte length), equal lengths keeping
/// their order: the order in which `-delete` removes matches, so that
/// children go before their directories.
pub open spec fn deletion_order(paths: Seq<Seq<char>>) -> Seq<Seq<char>>
    decreases paths.len(),
{
    if paths.len() == 0 {
        Seq::empty()
    } else {
        insert_by_len(deletion_order(paths.drop_last()), paths.last())
    }
}

proof fn lemma_insert_at(s: Seq<Seq<char>>, x: Seq<char>, p: int)
    requires
        0 <= p <= s.len(),
        forall|k: int| p <= k < s.len() ==> byte_len(#[trigger] s[k]) < byte_len(x),
        p == 0 || byte_len(s[p - 1]) >= byte_len(x),
    ensures
        insert_by_len(s, x) == s.take(p).push(x) + s.skip(p),
    decreases s.len(),
{
    if s.len() == p {
        assert(s.take(p) =~= s);
        assert(s.skip(p) =~= Seq::<Seq<char>>::empty());
        if s.len() > 0 {
            assert(s.last() == s[p - 1]);
        }
        assert(s.take(p).push(x) + s.skip(p) =~= s.push(x));
    } else {
        let d = s.drop_last();
        assert(byte_len(s.last()) < byte_len(x));
        assert forall|k: int| p <= k < d.len() implies byte_len(#[trigger] d[k]) < byte_len(x) by {
            assert(d[k] == s[k]);
        }
        if p > 0 {
            assert(d[p - 1] == s[p - 1]);
        }
        lemma_insert_at(d, x, p);
        assert(d.take(p) =~= s.take(p));
        assert(d.skip(p).push(s.last()) =~= s.skip(p));
        assert((d.take(p).push(x) + d.skip(p)).push(s.last()) =~= s.take(p).push(x) + s.skip(p));
    }
}

/// Whether `s` is ordered longest first.
pub open spec fn longest_first(s: Seq<Seq<char>>) -> bool {
    forall|i: int, j: int| 0 <= i < j < s.len() ==> byte_len(#[trigger] s[i]) >= byte_len(#[trigger] s[j])
}

proof fn lemma_insert_keeps_order(s: Seq<Seq<char>>, x: Seq<char>)
    requires
        longest_first(s),
    ensures
        longest_first(insert_by_len(s, x)),
        insert_by_len(s, x).to_multiset() == s.to_multiset().insert(x),
    decreases s.len(),
{
    broadcast use vstd::seq_lib::group_to_multiset_ensures;
    if s.len() == 0 {
        assert(seq![x] =~= Seq::<Seq<char>>::empty().push(x));
    } else if byte_len(s.last()) >= byte_len(x) {
        let r = s.push(x);
        assert forall|i: int, j: int| 0 <= i < j < r.len() implies byte_len(#[trigger] r[i]) >= byte_len(#[trigger] r[j]) by {
            if j == s.len() {
                assert(byte_len(s[i]) >= byte_len(s[s.len() - 1]));
            }
        }
    } else {
        let d = s.drop_last();
        assert(longest_first(d)) by {
            assert forall|i: int, j: int| 0 <= i < j < d.len() implies byte_len(#[trigger] d[i]) >= byte_len(#[trigger] d[j]) by {
                assert(d[i] == s[i] && d[j] == s[j]);
            }
        }
        lemma_insert_keeps_order(d, x);
        let m = insert_by_len(d, x);
        let r = m.push(s.last());
        // every entry of the inserted sequence is x or an entry of d
        assert forall|i: int| 0 <= i < m.len() implies byte_len(#[trigger] m[i]) >= byte_len(s.last()) by {
            assert(m.to_multiset().count(m[i]) > 0);
            assert(d.to_multiset().insert(x).count(m[i]) > 0);
            if m[i] != x {
                assert(d.to_multiset().count(m[i]) > 0);
                let k = choose|k: int| 0 <= k < d.len() && d[k] == m[i];
                assert(d[k] == s[k]);
                assert(byte_len(s[k]) >= byte_len(s[s.len() - 1]));
            }
        }
        assert forall|i: int, j: int| 0 <= i < j < r.len() implies byte_len(#[trigger] r[i]) >= byte_len(#[trigger] r[j]) by {
            if j == m.len() {
                assert(r[i] == m[i]);
            } else {
                assert(r[i] == m[i] && r[j] == m[j]);
            }
        }
        assert(s.to_multiset() == d.to_multiset().insert(s.last())) by {
            assert(d.push(s.last()) =~= s);
        }
    }
}

/// The deletion order of `-delete` lists exactly the matched paths, each as
/// often as it was matched, and never a path before a longer one, so that
/// a directory's entries are removed before the directory.
pub proof fn deletion_order_sorts_longest_first(paths: Seq<Seq<char>>)
    ensures
        longest_first(deletion_order(paths)),
        deletion_order(paths).to_multiset() == paths.to_multiset(),
    decreases paths.len(),
{
    broadcast use vstd::seq_lib::group_to_multiset_ensures;
    if paths.len() > 0 {
        deletion_order_sorts_longest_first(paths.drop_last());
        lemma_insert_keeps_order(deletion_order(paths.drop_last()), paths.last());
        assert(paths.drop_last().push(paths.last()) =~= paths);
    }
}

/// The matched paths in the order `-delete` removes them: longest first,
/// equal lengths in their original order.
pub fn delete_order(matched_paths: &[String]) -> (r: Vec<String>)
    ensures
        views_of(r@) == deletion_order(views_of(matched_paths@)),
{
    let ghost all = views_of(matched_paths@);
    let mut out: Vec<String> = Vec::new();
    let mut i: usize = 0;
    assert(all.take(0) =~= Seq::<Seq<char>>::empty());
    assert(views_of(out@) =~= Seq::<Seq<char>>::empty());
    while i < matched_paths.len()
        invariant
            i <= matched_paths.len(),
            all == views_of(matched_paths@),
            views_of(out@) == deletion_order(all.take(i as int)),
            out@.len() == i,
        decreases matched_paths.len() - i,
    {
        let x = matched_paths[i].clone();
        let key = x.as_str().len();
        let ghost sorted = views_of(out@);
        let mut p = out.len();
        while p > 0 && out[p - 1].as_str().len() < key
            invariant
                p <= out@.len(),
                sorted == views_of(out@),
                key == byte_len(x@),
                forall|k: int| p <= k < sorted.len() ==> byte_len(#[trigger] sorted[k]) < byte_len(x@),
            decreases p,
        {
            assert(sorted[p - 1] == out@[p - 1]@);
            p = p - 1;
        }
        proof {
            if p > 0 {
                assert(sorted[p - 1] == out@[p - 1]@);
            }
            lemma_insert_at(sorted, x@, p as int);
            assert(all.take(i + 1).drop_last() =~= all.take(i as int));
            assert(all.take(i + 1).last() == x@);
        }
        out.insert(p, x);
        assert(views_of(out@) =~= sorted.take(p as int).push(x@) + sorted.skip(p as int));
        i = i + 1;
    }
    assert(all.take(matched_paths.len() as int) =~= all);
    out
}

/// A word in double quotes.
pub open spec fn quoted(p: Seq<char>) -> Seq<char> {
    seq!['"'] + p + seq!['"']
}

/// The words quoted and joined by single spaces: the command line of `-exec`.
pub open spec fn quoted_command(ps: Seq<Seq<char>>) -> Seq<char>
    decreases ps.len(),
{
    if ps.len() == 0 {
        Seq::empty()
    } else if ps.len() == 1 {
        quoted(ps[0])
    } else {
        quoted_command(ps.drop_last()) + seq![' '] + quoted(ps.last())
    }
}

/// The words of a batched `-exec ... {} +`: each `{}` replaced by all matches.
pub open spec fn batch_words(parts: Seq<Seq<char>>, matched: Seq<Seq<char>>) -> Seq<Seq<char>>
    decreases parts.len(),
{
    if parts.len() == 0 {
        Seq::empty()
    } else {
        batch_words(parts.drop_last(), matched)
            + if parts.last() == "{}"@ { matched } else { seq![parts.last()] }
    }
}

/// The words of `-exec ... {} ;` for one match: each `{}` replaced by it.
pub open spec fn substituted_words(parts: Seq<Seq<char>>, file: Seq<char>) -> Seq<Seq<char>> {
    parts.map_values(|p: Seq<char>| if p == "{}"@ { file } else { p })
}

/// The command lines that an `-exec` action runs: one for a batched
/// `-exec`, otherwise one per match.
pub open spec fn exec_commands(parts: Seq<Seq<char>>, batch: bool, matched: Seq<Seq<char>>) -> Seq<Seq<char>> {
    if batch {
        seq![quoted_command(batch_words(parts, matched))]
    } else {
        matched.map_values(|f: Seq<char>| quoted_command(substituted_words(parts, f)))
    }
}

fn quote_join(words: &Vec<String>) -> (r: String)
    ensures
        r@ == quoted_command(views_of(words@)),
{
    let ghost ws = views_of(words@);
    let mut r = String::new();
    let mut k: usize = 0;
    while k < words.len()
        invariant
            k <= words.len(),
            ws == views_of(words@),
            r@ == quoted_command(ws.take(k as int)),
        decreases words.len() - k,
    {
        if k > 0 {
            push_char(&mut r, ' ');
        }
        push_char(&mut r, '"');
        push_str_chars(&mut r, words[k].as_str());
        push_char(&mut r, '"');
        proof {
            let t = ws.take(k + 1);
            assert(t.drop_last() =~= ws.take(k as int));
            assert(t.last() == ws[k as int]);
            if k == 0 {
                assert(t[0] == ws[0]);
            }
            assert(r@ =~= quoted_command(t));
        }
        k = k + 1;
    }
    assert(ws.take(words.len() as int) =~= ws);
    r
}

fn is_placeholder(p: &str) -> (r: bool)
    ensures
        r == (p@ == "{}"@),
{
    let c = chars_of(p);
    chars_eq_str(c.as_slice(), "{}")
}

/// The command lines of an `-exec` action over the matched paths.
pub fn exec_command_lines(command_parts: &[String], batch: bool, matched_paths: &[String]) -> (r: Vec<String>)
    ensures
        views_of(r@) == exec_commands(views_of(command_parts@), batch, views_of(matched_paths@)),
{
    let ghost parts = views_of(command_parts@);
    let ghost matched = views_of(matched_paths@);
    let mut lines: Vec<String> = Vec::new();
    if batch {
        let mut words: Vec<String> = Vec::new();
        let mut k: usize = 0;
        assert(parts.take(0) =~= Seq::<Seq<char>>::empty());
        assert(views_of(words@) =~= Seq::<Seq<char>>::empty());
        while k < command_parts.len()
            invariant
                k <= command_parts.len(),
                parts == views_of(command_parts@),
                matched == views_of(matched_paths@),
                views_of(words@) == batch_words(parts.take(k as int), matched),
            decreases command_parts.len() - k,
        {
            let part = command_parts[k].as_str();
            let ghost before = views_of(words@);
            if is_placeholder(part) {
                let mut m: usize = 0;
                while m < matched_paths.len()
                    invariant
                        m <= matched_paths.len(),
                        matched == views_of(matched_paths@),
                        views_of(words@) == before + matched.take(m as int),
                    decreases matched_paths.len() - m,
                {
                    push_string(&mut words, matched_paths[m].clone());
                    assert(matched.take(m + 1) =~= matched.take(m as int).push(matched_paths@[m as int]@));
                    assert(views_of(words@) =~= before + matched.take(m + 1));
                    m = m + 1;
                }
                assert(matched.take(matched_paths.len() as int) =~= matched);
            } else {
                push_string(&mut words, command_parts[k].clone());
                assert(views_of(words@) =~= before + seq![part@]);
            }
            proof {
                let t = parts.take(k + 1);
                assert(t.drop_last() =~= parts.take(k as int));
                assert(t.last() == part@);
            }
            k = k + 1;
        }
        assert(parts.take(command_parts.len() as int) =~= parts);
        push_string(&mut lines, quote_join(&words));
        assert(views_of(lines@) =~= exec_commands(parts, batch, matched));
    } else {
        let mut f: usize = 0;
        while f < matched_paths.len()
            invariant
                f <= matched_paths.len(),
                parts == views_of(command_parts@),
                matched == views_of(matched_paths@),
                views_of(lines@) == matched.take(f as int).map_values(
                    |fl: Seq<char>| quoted_command(substituted_words(parts, fl))),
            decreases matched_paths.len() - f,
        {
            let file = matched_paths[f].as_str();
            let mut words: Vec<String> = Vec::new();
            let mut k: usize = 0;
            while k < command_parts.len()
                invariant
                    k <= command_parts.len(),
                    parts == views_of(command_parts@),
                    words@.len() == k,
                    forall|q: int| 0 <= q < k ==> #[trigger] words@[q]@ == substituted_words(parts, file@)[q],
                decreases command_parts.len() - k,
            {
                let part = command_parts[k].as_str();
                assert(parts[k as int] == part@);
                if is_placeholder(part) {
                    words.push(crate::text::string_from(file));
                } else {
                    words.push(command_parts[k].clone());
                }
                k = k + 1;
            }
            assert(views_of(words@) =~= substituted_words(parts, file@));
            let ghost before = views_of(lines@);
            push_string(&mut lines, quote_join(&words));
            assert(matched.take(f + 1) =~= matched.take(f as int).push(file@));
            assert(views_of(lines@) =~= matched.take(f + 1).map_values(
                |fl: Seq<char>| quoted_command(substituted_words(parts, fl))));
            f = f + 1;
        }
        assert(matched.take(matched_paths.len() as int) =~= matched);
    }
    lines
}

/// The output, error output and status that `find` accumulates while it
/// deletes matches and runs `-exec` commands.
pub struct ActionOutcome {
    pub output: String,
    pub stderr: String,
    pub exit_code: i32,
}

/// Records the outcome of deleting `file`: a failure is reported and sets
/// the status to 1.
pub fn record_delete(outcome: &mut ActionOutcome, file: &str, result: Result<(), String>)
    ensures
        final(outcome).output == old(outcome).output,
        match result {
            Ok(()) => final(outcome).stderr@ == old(outcome).stderr@
                && final(outcome).exit_code == old(outcome).exit_code,
            Err(e) => final(outcome).stderr@ == old(outcome).stderr@ + "find: cannot delete '"@ + file@
                + "': "@ + e@ + "\n"@ && final(outcome).exit_code == 1,
        },
{
    match result {
        Ok(()) => {},
        Err(e) => {
            push_str_chars(&mut outcome.stderr, "find: cannot delete '");
            push_str_chars(&mut outcome.stderr, file);
            push_str_chars(&mut outcome.stderr, "': ");
            push_str_chars(&mut outcome.stderr, e.as_str());
            push_str_chars(&mut outcome.stderr, "\n");
            outcome.exit_code = 1;
        },
    }
}

/// Records the result of one `-exec` command: its output and error output
/// are appended, and a non-zero status becomes the status of `find`.
pub fn record_exec(outcome: &mut ActionOutcome, result: &ExecResult)
    ensures
        final(outcome).output@ == old(outcome).output@ + result.stdout@,
        final(outcome).stderr@ == old(outcome).stderr@ + result.stderr@,
        final(outcome).exit_code == if result.exit_code != 0 { result.exit_code } else { old(outcome).exit_code },
{
    push_str_chars(&mut outcome.output, result.stdout.as_str());
    push_str_chars(&mut outcome.stderr, result.stderr.as_str());
    if result.exit_code != 0 {
        outcome.exit_code = result.exit_code;
    }
}

} // verus!
