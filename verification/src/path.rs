//! Canonical path normalization for the virtual filesystem.
//!
//! Resolves `.`, `..`, duplicate slashes, and trailing slashes without
//! touching the real filesystem (no symlink resolution).
use vstd::prelude::*;
use crate::text::{chars_of, push_char, push_chars, push_str_chars};

verus! {

/// The pieces of `p` between `/` separators, as `str::split('/')` yields
/// them: `n` separators give `n + 1` pieces, some of them possibly empty.
pub open spec fn split_slash(p: Seq<char>) -> Seq<Seq<char>>
    decreases p.len(),
{
    if p.len() == 0 {
        seq![Seq::<char>::empty()]
    } else {
        let r = split_slash(p.drop_last());
        if p.last() == '/' {
            r.push(Seq::<char>::empty())
        } else {
            r.update(r.len() - 1, r.last().push(p.last()))
        }
    }
}

/// One component applied to the stack of resolved components:
/// empty and `.` are skipped, `..` drops the last one (none past the root).
pub open spec fn path_step(stack: Seq<Seq<char>>, c: Seq<char>) -> Seq<Seq<char>> {
    if c == Seq::<char>::empty() || c == seq!['.'] {
        stack
    } else if c == seq!['.', '.'] {
        if stack.len() > 0 { stack.drop_last() } else { stack }
    } else {
        stack.push(c)
    }
}

/// The components left after applying `cs` in order to an empty stack.
pub open spec fn resolve_components(cs: Seq<Seq<char>>) -> Seq<Seq<char>>
    decreases cs.len(),
{
    if cs.len() == 0 {
        Seq::empty()
    } else {
        path_step(resolve_components(cs.drop_last()), cs.last())
    }
}

/// The components joined with `/` between them.
pub open spec fn join_slash(cs: Seq<Seq<char>>) -> Seq<char>
    decreases cs.len(),
{
    if cs.len() == 0 {
        Seq::empty()
    } else if cs.len() == 1 {
        cs[0]
    } else {
        join_slash(cs.drop_last()) + seq!['/'] + cs.last()
    }
}

/// The normalized form of a path: always absolute, with `.`, `..`, empty
/// components and trailing slashes resolved lexically.
pub open spec fn normalized(p: Seq<char>) -> Seq<char> {
    if p.len() == 0 {
        seq!['/']
    } else {
        let st = resolve_components(split_slash(p));
        if st.len() == 0 {
            seq!['/']
        } else {
            seq!['/'] + join_slash(st)
        }
    }
}

/// A component that normalization keeps: not empty, not `.` or `..`,
/// and without `/`.
pub open spec fn ordinary_component(c: Seq<char>) -> bool {
    &&& c.len() > 0
    &&& c != seq!['.']
    &&& c != seq!['.', '.']
    &&& forall|i: int| 0 <= i < c.len() ==> c[i] != '/'
}

/// The character sequences held by a sequence of character vectors.
pub open spec fn char_vecs(vs: Seq<Vec<char>>) -> Seq<Seq<char>> {
    vs.map_values(|v: Vec<char>| v@)
}

proof fn lemma_split_slash_nonempty(p: Seq<char>)
    ensures
        split_slash(p).len() >= 1,
    decreases p.len(),
{
    if p.len() > 0 {
        lemma_split_slash_nonempty(p.drop_last());
    }
}

fn is_dot(c: &Vec<char>) -> (r: bool)
    ensures
        r == (c@ == seq!['.']),
{
    if c.len() == 1 && c[0] == '.' {
        assert(c@ =~= seq!['.']);
        true
    } else {
        false
    }
}

fn is_dot_dot(c: &Vec<char>) -> (r: bool)
    ensures
        r == (c@ == seq!['.', '.']),
{
    if c.len() == 2 && c[0] == '.' && c[1] == '.' {
        assert(c@ =~= seq!['.', '.']);
        true
    } else {
        false
    }
}

fn apply_component(stack: &mut Vec<Vec<char>>, c: Vec<char>)
    ensures
        char_vecs(final(stack)@) == path_step(char_vecs(old(stack)@), c@),
{
    let ghost before = char_vecs(stack@);
    if c.len() == 0 || is_dot(&c) {
        assert(c.len() == 0 ==> c@ == Seq::<char>::empty());
    } else if is_dot_dot(&c) {
        if stack.len() > 0 {
            stack.pop();
            assert(char_vecs(stack@) =~= before.drop_last());
        }
    } else {
        assert(c@ != Seq::<char>::empty());
        stack.push(c);
        assert(char_vecs(stack@) =~= before.push(c@));
    }
}

/// Normalize a path by resolving `.`, `..`, duplicate slashes, and trailing
/// slashes.
///
/// All results are absolute (rooted at `/`).  Relative input is treated as
/// though it were already under `/`.  Empty input maps to `"/"`.
/// `..` past the root is silently absorbed.
///
/// No symlink resolution is performed — this is purely lexical.
pub fn normalize_path(path: &str) -> (r: String)
    ensures
        r@ == normalized(path@),
        r@.len() > 0 && r@[0] == '/',
{
    let p = chars_of(path);
    if p.len() == 0 {
        let mut r = String::new();
        push_char(&mut r, '/');
        return r;
    }
    let mut stack: Vec<Vec<char>> = Vec::new();
    let mut cur: Vec<char> = Vec::new();
    let mut i: usize = 0;
    assert(p@.take(0) =~= Seq::<char>::empty());
    while i < p.len()
        invariant
            i <= p.len(),
            split_slash(p@.take(i as int)).len() >= 1,
            split_slash(p@.take(i as int)).last() == cur@,
            char_vecs(stack@) == resolve_components(split_slash(p@.take(i as int)).drop_last()),
        decreases p.len() - i,
    {
        let ghost pieces = split_slash(p@.take(i as int));
        let c = p[i];
        assert(p@.take(i + 1).drop_last() =~= p@.take(i as int));
        assert(p@.take(i + 1).last() == c);
        if c == '/' {
            let finished = cur;
            cur = Vec::new();
            apply_component(&mut stack, finished);
            assert(split_slash(p@.take(i + 1)) == pieces.push(Seq::<char>::empty()));
            assert(pieces.push(Seq::<char>::empty()).drop_last() =~= pieces);
            assert(pieces == pieces.drop_last().push(pieces.last()));
            assert(cur@ =~= Seq::<char>::empty());
        } else {
            cur.push(c);
            let ghost next = pieces.update(pieces.len() - 1, pieces.last().push(c));
            assert(split_slash(p@.take(i + 1)) == next);
            assert(next.drop_last() =~= pieces.drop_last());
        }
        i = i + 1;
    }
    assert(p@.take(p.len() as int) =~= p@);
    proof {
        lemma_split_slash_nonempty(p@);
        let pieces = split_slash(p@);
        assert(pieces == pieces.drop_last().push(pieces.last()));
    }
    apply_component(&mut stack, cur);
    let mut r = String::new();
    push_char(&mut r, '/');
    let ghost st = char_vecs(stack@);
    let mut k: usize = 0;
    while k < stack.len()
        invariant
            k <= stack.len(),
            st == char_vecs(stack@),
            r@ == seq!['/'] + join_slash(st.take(k as int)),
        decreases stack.len() - k,
    {
        if k > 0 {
            push_char(&mut r, '/');
        }
        push_chars(&mut r, stack[k].as_slice());
        proof {
            let t = st.take(k + 1);
            assert(t.drop_last() =~= st.take(k as int));
            assert(t.last() == st[k as int]);
            if k == 0 {
                assert(st.take(0) =~= Seq::<Seq<char>>::empty());
                assert(t[0] == st[0]);
            }
        }
        k = k + 1;
    }
    assert(st.take(st.len() as int) =~= st);
    r
}

/// `s` without its trailing slashes (`str::trim_end_matches('/')`).
pub open spec fn trim_trailing_slashes(s: Seq<char>) -> Seq<char>
    decreases s.len(),
{
    if s.len() > 0 && s.last() == '/' {
        trim_trailing_slashes(s.drop_last())
    } else {
        s
    }
}

/// `parent` and `name` joined as `child_path` joins them.
pub open spec fn child_joined(parent: Seq<char>, name: Seq<char>) -> Seq<char> {
    if parent == seq!['/'] {
        seq!['/'] + name
    } else {
        trim_trailing_slashes(parent) + seq!['/'] + name
    }
}

/// `parent_rel` and `name` joined as `relative_child` joins them.
pub open spec fn relative_joined(parent_rel: Seq<char>, name: Seq<char>) -> Seq<char> {
    if parent_rel.len() == 0 {
        name
    } else {
        parent_rel + seq!['/'] + name
    }
}

/// `path` resolved against `cwd` as `resolve_under_cwd` resolves it.
pub open spec fn resolved_under(cwd: Seq<char>, path: Seq<char>) -> Seq<char> {
    if path.len() > 0 && path[0] == '/' {
        path
    } else if trim_trailing_slashes(cwd).len() == 0 {
        seq!['/'] + path
    } else {
        trim_trailing_slashes(cwd) + seq!['/'] + path
    }
}

/// The length of `s` once its trailing slashes are removed.
fn trimmed_len(s: &Vec<char>) -> (n: usize)
    ensures
        n <= s.len(),
        s@.take(n as int) == trim_trailing_slashes(s@),
{
    let mut n = s.len();
    proof {
        assert(s@.take(n as int) =~= s@);
    }
    while n > 0 && s[n - 1] == '/'
        invariant
            n <= s.len(),
            trim_trailing_slashes(s@.take(n as int)) == trim_trailing_slashes(s@),
        decreases n,
    {
        assert(s@.take(n as int).drop_last() =~= s@.take(n - 1));
        n = n - 1;
    }
    proof {
        let t = s@.take(n as int);
        assert(!(t.len() > 0 && t.last() == '/'));
    }
    n
}

/// Join an absolute directory path with a single entry name (`/a` + `b` → `/a/b`).
/// Trailing slashes on `parent` are trimmed; root `/` stays special-cased.
pub fn child_path(parent: &str, entry_name: &str) -> (r: String)
    ensures
        r@ == child_joined(parent@, entry_name@),
{
    let p = chars_of(parent);
    let mut r = String::new();
    let is_root = p.len() == 1 && p[0] == '/';
    if is_root {
        assert(p@ =~= seq!['/']);
        push_char(&mut r, '/');
    } else {
        assert(p@ != seq!['/']);
        let n = trimmed_len(&p);
        push_chars(&mut r, p.as_slice().split_at(n).0);
        push_char(&mut r, '/');
    }
    push_str_chars(&mut r, entry_name);
    r
}

/// Join a relative path prefix (possibly empty) with a name (`a/b` + `c` → `a/b/c`).
pub fn relative_child(parent_rel: &str, name: &str) -> (r: String)
    ensures
        r@ == relative_joined(parent_rel@, name@),
{
    let mut r = String::new();
    push_str_chars(&mut r, parent_rel);
    if !parent_rel.is_empty() {
        push_char(&mut r, '/');
    }
    push_str_chars(&mut r, name);
    r
}

/// If `path` is absolute, return it; otherwise join under `cwd` (trailing slashes on `cwd` trimmed).
pub fn resolve_under_cwd(cwd: &str, path: &str) -> (r: String)
    ensures
        r@ == resolved_under(cwd@, path@),
        cwd@.len() > 0 && cwd@[0] == '/' ==> r@.len() > 0 && r@[0] == '/',
{
    let pc = chars_of(path);
    if pc.len() > 0 && pc[0] == '/' {
        let mut r = String::new();
        push_chars(&mut r, pc.as_slice());
        return r;
    }
    let c = chars_of(cwd);
    let n = trimmed_len(&c);
    let mut r = String::new();
    if n == 0 {
        push_char(&mut r, '/');
    } else {
        push_chars(&mut r, c.as_slice().split_at(n).0);
        push_char(&mut r, '/');
    }
    push_chars(&mut r, pc.as_slice());
    r
}

proof fn lemma_split_no_slash(b: Seq<char>)
    requires
        forall|i: int| 0 <= i < b.len() ==> b[i] != '/',
    ensures
        split_slash(b) == seq![b],
    decreases b.len(),
{
    if b.len() > 0 {
        lemma_split_no_slash(b.drop_last());
        assert(b.drop_last().push(b.last()) =~= b);
        assert(seq![b.drop_last()].update(0, b.drop_last().push(b.last())) =~= seq![b]);
    } else {
        assert(b =~= Seq::<char>::empty());
    }
}

proof fn lemma_split_after_slash(x: Seq<char>, b: Seq<char>)
    requires
        forall|i: int| 0 <= i < b.len() ==> b[i] != '/',
    ensures
        split_slash(x + seq!['/'] + b) == split_slash(x).push(b),
    decreases b.len(),
{
    let whole = x + seq!['/'] + b;
    if b.len() == 0 {
        assert(whole.drop_last() =~= x);
        assert(b =~= Seq::<char>::empty());
    } else {
        lemma_split_after_slash(x, b.drop_last());
        assert(whole.drop_last() =~= x + seq!['/'] + b.drop_last());
        assert(whole.last() == b.last());
        assert(b[b.len() - 1] != '/');
        assert(b.drop_last().push(b.last()) =~= b);
        let r = split_slash(x).push(b.drop_last());
        assert(r.update(r.len() - 1, r.last().push(b.last())) =~= split_slash(x).push(b));
    }
}

proof fn lemma_split_join(st: Seq<Seq<char>>)
    requires
        st.len() > 0,
        forall|i: int| 0 <= i < st.len() ==> ordinary_component(#[trigger] st[i]),
    ensures
        split_slash(seq!['/'] + join_slash(st)) == seq![Seq::<char>::empty()] + st,
    decreases st.len(),
{
    let e = Seq::<char>::empty();
    if st.len() == 1 {
        assert(ordinary_component(st[0]));
        lemma_split_after_slash(e, st[0]);
        assert(e + seq!['/'] + st[0] =~= seq!['/'] + join_slash(st));
        assert(split_slash(e) == seq![e]);
        assert(seq![e].push(st[0]) =~= seq![e] + st);
    } else {
        let init = st.drop_last();
        assert forall|i: int| 0 <= i < init.len() implies ordinary_component(#[trigger] init[i]) by {
            assert(init[i] == st[i]);
        }
        lemma_split_join(init);
        assert(ordinary_component(st[st.len() - 1]));
        lemma_split_after_slash(seq!['/'] + join_slash(init), st.last());
        assert(seq!['/'] + join_slash(init) + seq!['/'] + st.last() =~= seq!['/'] + join_slash(st));
        assert((seq![e] + init).push(st.last()) =~= seq![e] + st);
    }
}

proof fn lemma_resolve_after_empty(st: Seq<Seq<char>>)
    requires
        forall|i: int| 0 <= i < st.len() ==> ordinary_component(#[trigger] st[i]),
    ensures
        resolve_components(seq![Seq::<char>::empty()] + st) == st,
    decreases st.len(),
{
    let e = Seq::<char>::empty();
    let cs = seq![e] + st;
    if st.len() == 0 {
        assert(cs =~= seq![e]);
        assert(cs.drop_last() =~= Seq::<Seq<char>>::empty());
        assert(cs.last() == e);
        assert(resolve_components(cs.drop_last()) == Seq::<Seq<char>>::empty());
    } else {
        let init = st.drop_last();
        assert forall|i: int| 0 <= i < init.len() implies ordinary_component(#[trigger] init[i]) by {
            assert(init[i] == st[i]);
        }
        lemma_resolve_after_empty(init);
        assert(cs.drop_last() =~= seq![e] + init);
        assert(ordinary_component(st[st.len() - 1]));
        assert(cs.last() == st.last());
        let c = st.last();
        assert(c.len() > 0);
        assert(c != e);
        assert(c != seq!['.']);
        assert(c != seq!['.', '.']);
        assert(path_step(init, c) == init.push(c));
        assert(init.push(st.last()) =~= st);
    }
}

proof fn lemma_split_pieces_no_slash(p: Seq<char>)
    ensures
        forall|k: int, i: int| 0 <= k < split_slash(p).len() && 0 <= i < split_slash(p)[k].len()
            ==> #[trigger] split_slash(p)[k][i] != '/',
    decreases p.len(),
{
    if p.len() > 0 {
        lemma_split_pieces_no_slash(p.drop_last());
        lemma_split_slash_nonempty(p.drop_last());
    }
}

proof fn lemma_resolve_ordinary(cs: Seq<Seq<char>>)
    requires
        forall|k: int, i: int| 0 <= k < cs.len() && 0 <= i < cs[k].len() ==> #[trigger] cs[k][i] != '/',
    ensures
        forall|i: int| 0 <= i < resolve_components(cs).len()
            ==> ordinary_component(#[trigger] resolve_components(cs)[i]),
    decreases cs.len(),
{
    if cs.len() > 0 {
        let init = cs.drop_last();
        assert forall|k: int, i: int| 0 <= k < init.len() && 0 <= i < init[k].len()
            implies #[trigger] init[k][i] != '/' by {
            assert(init[k] == cs[k]);
        }
        lemma_resolve_ordinary(init);
        let c = cs.last();
        assert forall|i: int| 0 <= i < c.len() implies c[i] != '/' by {
            assert(c == cs[cs.len() - 1]);
        }
        let prev = resolve_components(init);
        let e = Seq::<char>::empty();
        if c == e || c == seq!['.'] {
        } else if c == seq!['.', '.'] {
            if prev.len() > 0 {
                assert forall|i: int| 0 <= i < prev.drop_last().len()
                    implies ordinary_component(#[trigger] prev.drop_last()[i]) by {
                    assert(prev.drop_last()[i] == prev[i]);
                }
            }
        } else {
            if c.len() == 0 {
                assert(c =~= e);
            }
            assert(ordinary_component(c));
            assert forall|i: int| 0 <= i < prev.push(c).len()
                implies ordinary_component(#[trigger] prev.push(c)[i]) by {
                if i < prev.len() {
                    assert(prev.push(c)[i] == prev[i]);
                }
            }
        }
    }
}

/// Normalization is idempotent: a normalized path is its own normal form.
pub proof fn normalize_path_idempotent(p: Seq<char>)
    ensures
        normalized(normalized(p)) == normalized(p),
{
    let e = Seq::<char>::empty();
    let q = normalized(p);
    if q == seq!['/'] {
        assert(seq!['/'].drop_last() =~= e);
        assert(split_slash(e) == seq![e]);
        assert(split_slash(seq!['/']) == seq![e, e]);
        assert(seq![e, e].drop_last() =~= seq![e]);
        assert(seq![e].drop_last() =~= Seq::<Seq<char>>::empty());
        assert(seq![e].last() == e);
        assert(resolve_components(Seq::<Seq<char>>::empty()) == Seq::<Seq<char>>::empty());
        assert(resolve_components(seq![e]) == Seq::<Seq<char>>::empty());
        assert(seq![e, e].last() == e);
        assert(resolve_components(seq![e, e]) == Seq::<Seq<char>>::empty());
    } else {
        let st = resolve_components(split_slash(p));
        lemma_split_pieces_no_slash(p);
        lemma_resolve_ordinary(split_slash(p));
        lemma_split_join(st);
        lemma_resolve_after_empty(st);
    }
}

/// The components left after applying `cs` in order to `stack`.
pub open spec fn resolve_from(stack: Seq<Seq<char>>, cs: Seq<Seq<char>>) -> Seq<Seq<char>>
    decreases cs.len(),
{
    if cs.len() == 0 {
        stack
    } else {
        path_step(resolve_from(stack, cs.drop_last()), cs.last())
    }
}

proof fn lemma_resolve_is_from_empty(cs: Seq<Seq<char>>)
    ensures
        resolve_components(cs) == resolve_from(Seq::empty(), cs),
    decreases cs.len(),
{
    if cs.len() > 0 {
        lemma_resolve_is_from_empty(cs.drop_last());
    }
}

proof fn lemma_resolve_from_concat(stack: Seq<Seq<char>>, a: Seq<Seq<char>>, b: Seq<Seq<char>>)
    ensures
        resolve_from(stack, a + b) == resolve_from(resolve_from(stack, a), b),
    decreases b.len(),
{
    if b.len() == 0 {
        assert(a + b =~= a);
    } else {
        lemma_resolve_from_concat(stack, a, b.drop_last());
        assert((a + b).drop_last() =~= a + b.drop_last());
        assert((a + b).last() == b.last());
    }
}

proof fn lemma_split_concat(a: Seq<char>, b: Seq<char>)
    ensures
        split_slash(a + seq!['/'] + b) == split_slash(a) + split_slash(b),
    decreases b.len(),
{
    let whole = a + seq!['/'] + b;
    let e = Seq::<char>::empty();
    if b.len() == 0 {
        assert(whole.drop_last() =~= a);
        assert(whole.last() == '/');
        assert(split_slash(b) == seq![e]);
        assert(split_slash(a).push(e) =~= split_slash(a) + seq![e]);
    } else {
        lemma_split_concat(a, b.drop_last());
        lemma_split_slash_nonempty(b.drop_last());
        lemma_split_slash_nonempty(a);
        assert(whole.drop_last() =~= a + seq!['/'] + b.drop_last());
        assert(whole.last() == b.last());
        let l = split_slash(a);
        let r = split_slash(b.drop_last());
        if b.last() == '/' {
            assert((l + r).push(e) =~= l + r.push(e));
        } else {
            assert((l + r).update((l + r).len() - 1, (l + r).last().push(b.last()))
                =~= l + r.update(r.len() - 1, r.last().push(b.last())));
        }
    }
}

proof fn lemma_resolve_empty_component(stack: Seq<Seq<char>>)
    ensures
        resolve_from(stack, seq![Seq::<char>::empty()]) == stack,
{
    let one = seq![Seq::<char>::empty()];
    assert(one.drop_last() =~= Seq::<Seq<char>>::empty());
    assert(one.last() == Seq::<char>::empty());
    assert(resolve_from(stack, one.drop_last()) == stack);
    assert(path_step(stack, Seq::<char>::empty()) == stack);
    assert(resolve_from(stack, one) == path_step(resolve_from(stack, one.drop_last()), one.last()));
}

/// The normal form of a non-empty path, from its resolved components.
proof fn lemma_normalized_nonempty(p: Seq<char>)
    requires
        p.len() > 0,
    ensures
        normalized(p) == (if resolve_from(Seq::empty(), split_slash(p)).len() == 0 {
            seq!['/']
        } else {
            seq!['/'] + join_slash(resolve_from(Seq::empty(), split_slash(p)))
        }),
{
    lemma_resolve_is_from_empty(split_slash(p));
}

/// A leading `/`, a trailing `/` and a leading `/../` do not change the
/// normal form of a path: relative paths are taken from the root, trailing
/// slashes are dropped, and `..` at the root stays at the root.
pub proof fn normalize_path_slash_laws(p: Seq<char>)
    ensures
        normalized(seq!['/'] + p) == normalized(p),
        normalized(p + seq!['/']) == normalized(p),
        normalized(seq!['/', '.', '.', '/'] + p) == normalized(seq!['/'] + p),
{
    let e = Seq::<char>::empty();
    let none = Seq::<Seq<char>>::empty();
    let dd = seq!['.', '.'];
    // A leading slash adds one empty component in front, which resolves to nothing.
    lemma_split_concat(e, p);
    assert(e + seq!['/'] + p =~= seq!['/'] + p);
    assert(split_slash(e) == seq![e]);
    lemma_resolve_from_concat(none, seq![e], split_slash(p));
    lemma_resolve_empty_component(none);
    lemma_normalized_nonempty(seq!['/'] + p);
    // A trailing slash adds one empty component at the end.
    lemma_split_concat(p, e);
    assert(p + seq!['/'] + e =~= p + seq!['/']);
    lemma_resolve_from_concat(none, split_slash(p), seq![e]);
    lemma_resolve_empty_component(resolve_from(none, split_slash(p)));
    lemma_normalized_nonempty(p + seq!['/']);
    // `/..` resolves to nothing as well.
    lemma_split_no_slash(dd);
    lemma_split_concat(e, dd);
    assert(e + seq!['/'] + dd =~= seq!['/', '.', '.']);
    assert(seq![e] + seq![dd] =~= seq![e, dd]);
    lemma_split_concat(seq!['/', '.', '.'], p);
    assert(seq!['/', '.', '.'] + seq!['/'] + p =~= seq!['/', '.', '.', '/'] + p);
    lemma_resolve_from_concat(none, seq![e, dd], split_slash(p));
    assert(seq![e, dd].drop_last() =~= seq![e]);
    assert(seq![e, dd].last() == dd);
    assert(path_step(none, dd) == none);
    assert(resolve_from(none, seq![e, dd]) == none);
    lemma_normalized_nonempty(seq!['/', '.', '.', '/'] + p);
    if p.len() > 0 {
        lemma_normalized_nonempty(p);
    } else {
        assert(p + seq!['/'] =~= seq!['/']);
        assert(seq!['/'] + p =~= seq!['/']);
        assert(split_slash(p) == seq![e]);
    }
}

} // verus!
