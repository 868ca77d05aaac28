//! Character-sequence helpers shared by the other modules.
use vstd::prelude::*;

verus! {

/// The characters of `s`, in order.
pub fn chars_of(s: &str) -> (v: Vec<char>)
    ensures
        v@ == s@,
{
    let mut v: Vec<char> = Vec::new();
    for c in it: s.chars()
        invariant
            v@ == it.seq().take(it.index() as int),
            it.seq() == s@,
    {
        v.push(c);
    }
    v
}

/// Appends one character to a `String` (`String::push`).
#[verifier::external_body]
pub fn push_char(s: &mut String, c: char)
    ensures
        final(s)@ == old(s)@.push(c),
{
    s.push(c);
}

/// A `String` holding exactly the given characters.
pub fn string_of(v: &[char]) -> (s: String)
    ensures
        s@ == v@,
{
    let mut s = String::new();
    let mut i: usize = 0;
    while i < v.len()
        invariant
            i <= v.len(),
            s@ == v@.take(i as int),
        decreases v.len() - i,
    {
        push_char(&mut s, v[i]);
        i = i + 1;
        assert(v@.take(i as int) == v@.take((i - 1) as int).push(v@[i - 1]));
    }
    assert(v@.take(v.len() as int) == v@);
    s
}


/// Appends the given characters to a `String`.
pub fn push_chars(s: &mut String, v: &[char])
    ensures
        final(s)@ == old(s)@ + v@,
{
    let ghost start = s@;
    let mut i: usize = 0;
    while i < v.len()
        invariant
            i <= v.len(),
            s@ == start + v@.take(i as int),
        decreases v.len() - i,
    {
        push_char(s, v[i]);
        i = i + 1;
        assert(v@.take(i as int) == v@.take((i - 1) as int).push(v@[i - 1]));
    }
    assert(v@.take(v.len() as int) == v@);
}

/// Appends the characters of a string slice to a `String`.
pub fn push_str_chars(s: &mut String, t: &str)
    ensures
        final(s)@ == old(s)@ + t@,
{
    let v = chars_of(t);
    push_chars(s, v.as_slice());
}

/// The ASCII digit for `d` (which is below ten).
pub open spec fn digit_char(d: nat) -> char {
    if d == 0 { '0' } else if d == 1 { '1' } else if d == 2 { '2' } else if d == 3 { '3' }
    else if d == 4 { '4' } else if d == 5 { '5' } else if d == 6 { '6' } else if d == 7 { '7' }
    else if d == 8 { '8' } else { '9' }
}

/// The decimal representation of `n`, without leading zeros ("0" for zero).
pub open spec fn decimal(n: nat) -> Seq<char>
    decreases n,
{
    if n < 10 {
        seq![digit_char(n)]
    } else {
        decimal(n / 10).push(digit_char(n % 10))
    }
}

/// `s` preceded by as many copies of `pad` as make it `width` long.
pub open spec fn pad_left(s: Seq<char>, width: nat, pad: char) -> Seq<char> {
    if s.len() >= width {
        s
    } else {
        Seq::new((width - s.len()) as nat, |_i: int| pad) + s
    }
}

fn digit_of(d: u64) -> (c: char)
    requires
        d < 10,
    ensures
        c == digit_char(d as nat),
{
    if d == 0 { '0' } else if d == 1 { '1' } else if d == 2 { '2' } else if d == 3 { '3' }
    else if d == 4 { '4' } else if d == 5 { '5' } else if d == 6 { '6' } else if d == 7 { '7' }
    else if d == 8 { '8' } else { '9' }
}

/// The decimal digits of `n`.
pub fn decimal_chars(n: u64) -> (v: Vec<char>)
    ensures
        v@ == decimal(n as nat),
    decreases n,
{
    if n < 10 {
        let mut v: Vec<char> = Vec::new();
        v.push(digit_of(n));
        v
    } else {
        let mut v = decimal_chars(n / 10);
        v.push(digit_of(n % 10));
        v
    }
}

/// Appends `n` in decimal, left-padded with `pad` to `width` characters.
pub fn push_decimal_padded(s: &mut String, n: u64, width: usize, pad: char)
    ensures
        final(s)@ == old(s)@ + pad_left(decimal(n as nat), width as nat, pad),
{
    let digits = decimal_chars(n);
    let ghost start = s@;
    if digits.len() < width {
        let k = width - digits.len();
        let mut i: usize = 0;
        while i < k
            invariant
                i <= k,
                s@ == start + Seq::new(i as nat, |_j: int| pad),
            decreases k - i,
        {
            push_char(s, pad);
            i = i + 1;
            assert(Seq::new(i as nat, |_j: int| pad) == Seq::new((i - 1) as nat, |_j: int| pad).push(pad));
        }
        let ghost mid = s@;
        push_chars(s, digits.as_slice());
        assert(mid + digits@ == start + (Seq::new(k as nat, |_j: int| pad) + digits@));
    } else {
        push_chars(s, digits.as_slice());
    }
}

/// Appends `n` in decimal.
pub fn push_decimal(s: &mut String, n: u64)
    ensures
        final(s)@ == old(s)@ + decimal(n as nat),
{
    push_decimal_padded(s, n, 0, '0');
}

/// Whether two character slices hold the same characters.
pub fn chars_eq(a: &[char], b: &[char]) -> (r: bool)
    ensures
        r == (a@ == b@),
{
    if a.len() != b.len() {
        return false;
    }
    let mut i: usize = 0;
    while i < a.len()
        invariant
            i <= a.len(),
            a.len() == b.len(),
            forall|j: int| 0 <= j < i ==> a@[j] == b@[j],
        decreases a.len() - i,
    {
        if a[i] != b[i] {
            return false;
        }
        i = i + 1;
    }
    assert(a@ =~= b@);
    true
}

/// Whether two string slices hold the same characters.
pub fn str_eq(a: &str, b: &str) -> (r: bool)
    ensures
        r == (a@ == b@),
{
    let x = chars_of(a);
    let y = chars_of(b);
    chars_eq(x.as_slice(), y.as_slice())
}

/// Whether `s` begins with `prefix`.
pub fn chars_start_with(s: &[char], prefix: &[char]) -> (r: bool)
    ensures
        r == (prefix@.len() <= s@.len() && s@.take(prefix@.len() as int) == prefix@),
{
    if prefix.len() > s.len() {
        return false;
    }
    let mut i: usize = 0;
    while i < prefix.len()
        invariant
            i <= prefix.len(),
            prefix.len() <= s.len(),
            forall|j: int| 0 <= j < i ==> s@[j] == prefix@[j],
        decreases prefix.len() - i,
    {
        if s[i] != prefix[i] {
            assert(s@.take(prefix@.len() as int)[i as int] != prefix@[i as int]);
            return false;
        }
        i = i + 1;
    }
    assert(s@.take(prefix@.len() as int) =~= prefix@);
    true
}

/// The character sequences of a sequence of strings.
pub open spec fn views_of(ws: Seq<String>) -> Seq<Seq<char>> {
    ws.map_values(|w: String| w@)
}

/// Whether `text` equals the literal `lit`.
pub fn chars_eq_str(text: &[char], lit: &str) -> (r: bool)
    ensures
        r == (text@ == lit@),
{
    let l = chars_of(lit);
    chars_eq(text, l.as_slice())
}

/// Whether some string of `list` holds exactly the characters of `name`.
pub fn list_contains(list: &[String], name: &str) -> (r: bool)
    ensures
        r == views_of(list@).contains(name@),
{
    let mut i: usize = 0;
    while i < list.len()
        invariant
            i <= list.len(),
            forall|j: int| 0 <= j < i ==> #[trigger] list@[j]@ != name@,
        decreases list.len() - i,
    {
        if str_eq(list[i].as_str(), name) {
            assert(views_of(list@)[i as int] == name@);
            return true;
        }
        i = i + 1;
    }
    assert forall|j: int| 0 <= j < views_of(list@).len() implies views_of(list@)[j] != name@ by {
        assert(views_of(list@)[j] == list@[j]@);
    }
    false
}

/// A `String` holding the characters of a string slice.
pub fn string_from(s: &str) -> (r: String)
    ensures
        r@ == s@,
{
    let mut r = String::new();
    push_str_chars(&mut r, s);
    r
}

/// Whether `text` begins with the literal `lit`.
pub fn chars_start_with_str(text: &[char], lit: &str) -> (r: bool)
    ensures
        r == (lit@.len() <= text@.len() && text@.take(lit@.len() as int) == lit@),
{
    let l = chars_of(lit);
    chars_start_with(text, l.as_slice())
}

/// Appends a string to a vector of strings.
pub fn push_string(v: &mut Vec<String>, s: String)
    ensures
        views_of(final(v)@) == views_of(old(v)@).push(s@),
{
    let ghost before = views_of(v@);
    v.push(s);
    assert(views_of(v@) =~= before.push(s@));
}

/// The pieces of `s` between occurrences of `sep`, as `str::split(sep)`
/// yields them: `n` separators give `n + 1` pieces.
pub open spec fn split_char(s: Seq<char>, sep: char) -> Seq<Seq<char>>
    decreases s.len(),
{
    if s.len() == 0 {
        seq![Seq::<char>::empty()]
    } else {
        let r = split_char(s.drop_last(), sep);
        if s.last() == sep {
            r.push(Seq::<char>::empty())
        } else {
            r.update(r.len() - 1, r.last().push(s.last()))
        }
    }
}

/// `l` without one trailing carriage return.
pub open spec fn strip_cr(l: Seq<char>) -> Seq<char> {
    if l.len() > 0 && l.last() == '\r' { l.drop_last() } else { l }
}

/// The lines of `s` as `str::lines` yields them: split after each `\n`,
/// the `\n` and a `\r` just before it removed, and no empty last line.
pub open spec fn text_lines(s: Seq<char>) -> Seq<Seq<char>> {
    let sp = split_char(s, '\n');
    let done = sp.drop_last().map_values(|l: Seq<char>| strip_cr(l));
    if sp.last().len() > 0 { done.push(sp.last()) } else { done }
}

/// `split_char` always yields at least one piece.
pub proof fn lemma_split_char_nonempty(s: Seq<char>, sep: char)
    ensures
        split_char(s, sep).len() >= 1,
    decreases s.len(),
{
    if s.len() > 0 {
        lemma_split_char_nonempty(s.drop_last(), sep);
    }
}

/// The character sequences held by a sequence of character vectors.
pub open spec fn char_vec_views(vs: Seq<Vec<char>>) -> Seq<Seq<char>> {
    vs.map_values(|v: Vec<char>| v@)
}

fn strip_cr_vec(v: &mut Vec<char>)
    ensures
        final(v)@ == strip_cr(old(v)@),
{
    if v.len() > 0 && v[v.len() - 1] == '\r' {
        v.pop();
    }
}

/// The lines of `s` (`str::lines`).
pub fn lines_of(s: &str) -> (r: Vec<Vec<char>>)
    ensures
        char_vec_views(r@) == text_lines(s@),
{
    let p = chars_of(s);
    let mut done: Vec<Vec<char>> = Vec::new();
    let mut cur: Vec<char> = Vec::new();
    let mut i: usize = 0;
    assert(p@.take(0) =~= Seq::<char>::empty());
    assert(char_vec_views(done@) =~= Seq::<Seq<char>>::empty());
    while i < p.len()
        invariant
            i <= p.len(),
            split_char(p@.take(i as int), '\n').len() >= 1,
            split_char(p@.take(i as int), '\n').last() == cur@,
            char_vec_views(done@) == split_char(p@.take(i as int), '\n').drop_last()
                .map_values(|l: Seq<char>| strip_cr(l)),
        decreases p.len() - i,
    {
        let ghost pieces = split_char(p@.take(i as int), '\n');
        let ghost before = char_vec_views(done@);
        let c = p[i];
        assert(p@.take(i + 1).drop_last() =~= p@.take(i as int));
        assert(p@.take(i + 1).last() == c);
        if c == '\n' {
            let mut finished = cur;
            cur = Vec::new();
            strip_cr_vec(&mut finished);
            done.push(finished);
            assert(split_char(p@.take(i + 1), '\n') == pieces.push(Seq::<char>::empty()));
            assert(pieces.push(Seq::<char>::empty()).drop_last() =~= pieces);
            assert(char_vec_views(done@) =~= before.push(strip_cr(pieces.last())));
            assert(pieces.map_values(|l: Seq<char>| strip_cr(l)) =~= pieces.drop_last().map_values(|l: Seq<char>| strip_cr(l)).push(strip_cr(pieces.last())));
            assert(cur@ =~= Seq::<char>::empty());
        } else {
            cur.push(c);
            let ghost next = pieces.update(pieces.len() - 1, pieces.last().push(c));
            assert(split_char(p@.take(i + 1), '\n') == next);
            assert(next.drop_last() =~= pieces.drop_last());
        }
        i = i + 1;
    }
    assert(p@.take(p.len() as int) =~= p@);
    if cur.len() > 0 {
        let ghost before = char_vec_views(done@);
        let ghost last = cur@;
        done.push(cur);
        assert(char_vec_views(done@) =~= before.push(last));
    }
    done
}

/// The pieces of `s` between newlines (`str::split('\n')`), as strings.
pub fn split_newlines(s: &str) -> (r: Vec<String>)
    ensures
        views_of(r@) == split_char(s@, '\n'),
{
    let p = chars_of(s);
    let mut done: Vec<String> = Vec::new();
    let mut cur: Vec<char> = Vec::new();
    let mut i: usize = 0;
    assert(p@.take(0) =~= Seq::<char>::empty());
    assert(views_of(done@) =~= Seq::<Seq<char>>::empty());
    while i < p.len()
        invariant
            i <= p.len(),
            split_char(p@.take(i as int), '\n').len() >= 1,
            split_char(p@.take(i as int), '\n').last() == cur@,
            views_of(done@) == split_char(p@.take(i as int), '\n').drop_last(),
        decreases p.len() - i,
    {
        let ghost pieces = split_char(p@.take(i as int), '\n');
        let c = p[i];
        assert(p@.take(i + 1).drop_last() =~= p@.take(i as int));
        assert(p@.take(i + 1).last() == c);
        if c == '\n' {
            let finished = string_of(cur.as_slice());
            cur = Vec::new();
            push_string(&mut done, finished);
            assert(split_char(p@.take(i + 1), '\n') == pieces.push(Seq::<char>::empty()));
            assert(pieces.push(Seq::<char>::empty()).drop_last() =~= pieces);
            assert(pieces =~= pieces.drop_last().push(pieces.last()));
            assert(cur@ =~= Seq::<char>::empty());
        } else {
            cur.push(c);
            let ghost next = pieces.update(pieces.len() - 1, pieces.last().push(c));
            assert(split_char(p@.take(i + 1), '\n') == next);
            assert(next.drop_last() =~= pieces.drop_last());
        }
        i = i + 1;
    }
    assert(p@.take(p.len() as int) =~= p@);
    let ghost pieces = split_char(p@, '\n');
    let last = string_of(cur.as_slice());
    push_string(&mut done, last);
    assert(pieces =~= pieces.drop_last().push(pieces.last()));
    done
}

/// `s` followed by as many copies of `pad` as make it `width` long.
pub open spec fn pad_right(s: Seq<char>, width: nat, pad: char) -> Seq<char> {
    if s.len() >= width {
        s
    } else {
        s + Seq::new((width - s.len()) as nat, |_i: int| pad)
    }
}

/// Appends `k` copies of `pad`.
pub fn push_repeated(s: &mut String, pad: char, k: usize)
    ensures
        final(s)@ == old(s)@ + Seq::new(k as nat, |_j: int| pad),
{
    let ghost start = s@;
    let mut i: usize = 0;
    while i < k
        invariant
            i <= k,
            s@ == start + Seq::new(i as nat, |_j: int| pad),
        decreases k - i,
    {
        push_char(s, pad);
        i = i + 1;
        assert(Seq::new(i as nat, |_j: int| pad) == Seq::new((i - 1) as nat, |_j: int| pad).push(pad));
    }
}

/// Appends `t`, right-aligned in a field of `width` spaces (`{:>width}`).
pub fn push_right_aligned(s: &mut String, t: &[char], width: usize)
    ensures
        final(s)@ == old(s)@ + pad_left(t@, width as nat, ' '),
{
    if t.len() < width {
        push_repeated(s, ' ', width - t.len());
    }
    push_chars(s, t);
}

/// Appends `t`, left-aligned in a field of `width` spaces (`{:<width}`).
pub fn push_left_aligned(s: &mut String, t: &[char], width: usize)
    ensures
        final(s)@ == old(s)@ + pad_right(t@, width as nat, ' '),
{
    push_chars(s, t);
    if t.len() < width {
        push_repeated(s, ' ', width - t.len());
    }
}

/// Whether `a` sorts before `b`: character by character, by code point, a
/// proper prefix first (the order of `String`s, whose UTF-8 bytes sort as
/// their code points do).
pub open spec fn text_before(a: Seq<char>, b: Seq<char>) -> bool
    decreases a.len(),
{
    if a.len() == 0 {
        b.len() > 0
    } else if b.len() == 0 {
        false
    } else if a[0] != b[0] {
        a[0] < b[0]
    } else {
        text_before(a.skip(1), b.skip(1))
    }
}

/// Whether `a` sorts before `b` (`text_before`).
pub fn chars_before(a: &[char], b: &[char]) -> (r: bool)
    ensures
        r == text_before(a@, b@),
{
    let mut i: usize = 0;
    assert(a@.skip(0) =~= a@);
    assert(b@.skip(0) =~= b@);
    while i < a.len() && i < b.len() && a[i] == b[i]
        invariant
            i <= a.len(),
            i <= b.len(),
            text_before(a@, b@) == text_before(a@.skip(i as int), b@.skip(i as int)),
        decreases a.len() - i,
    {
        assert(a@.skip(i as int).skip(1) =~= a@.skip(i + 1));
        assert(b@.skip(i as int).skip(1) =~= b@.skip(i + 1));
        i = i + 1;
    }
    if i == a.len() {
        i < b.len()
    } else if i == b.len() {
        false
    } else {
        a[i] < b[i]
    }
}

/// No text sorts before itself.
pub proof fn lemma_text_before_irreflexive(a: Seq<char>)
    ensures
        !text_before(a, a),
    decreases a.len(),
{
    if a.len() > 0 {
        lemma_text_before_irreflexive(a.skip(1));
    }
}

/// Of two different texts, exactly one sorts before the other.
pub proof fn lemma_text_before_total(a: Seq<char>, b: Seq<char>)
    requires
        a != b,
    ensures
        text_before(a, b) != text_before(b, a),
    decreases a.len(),
{
    if a.len() > 0 && b.len() > 0 && a[0] == b[0] {
        if a.skip(1) == b.skip(1) {
            assert(a =~= seq![a[0]] + a.skip(1));
            assert(b =~= seq![b[0]] + b.skip(1));
        }
        lemma_text_before_total(a.skip(1), b.skip(1));
    } else if a.len() == 0 && b.len() == 0 {
        assert(a =~= b);
    }
}

/// Sorting before is transitive.
pub proof fn lemma_text_before_transitive(a: Seq<char>, b: Seq<char>, c: Seq<char>)
    requires
        text_before(a, b),
        text_before(b, c),
    ensures
        text_before(a, c),
    decreases a.len(),
{
    if a.len() > 0 && b.len() > 0 && c.len() > 0 && a[0] == b[0] && b[0] == c[0] {
        lemma_text_before_transitive(a.skip(1), b.skip(1), c.skip(1));
    }
}

/// Whether the texts `s` are in ascending order (equal texts side by side).
pub open spec fn texts_sorted(s: Seq<Seq<char>>) -> bool {
    forall|i: int, j: int| 0 <= i < j < s.len() ==> !text_before(#[trigger] s[j], #[trigger] s[i])
}

proof fn lemma_sorted_insert(s: Seq<Seq<char>>, x: Seq<char>, j: int)
    requires
        texts_sorted(s),
        0 <= j <= s.len(),
        forall|i: int| 0 <= i < j ==> !text_before(x, #[trigger] s[i]),
        j < s.len() ==> text_before(x, s[j]),
    ensures
        texts_sorted(s.insert(j, x)),
{
    let t = s.insert(j, x);
    assert forall|a: int, b: int| 0 <= a < b < t.len() implies !text_before(#[trigger] t[b], #[trigger] t[a]) by {
        if b < j {
            assert(t[a] == s[a] && t[b] == s[b]);
        } else if b == j {
            assert(t[a] == s[a] && t[b] == x);
        } else if a < j {
            assert(t[a] == s[a] && t[b] == s[b - 1]);
        } else if a == j {
            assert(t[a] == x && t[b] == s[b - 1]);
            if text_before(s[b - 1], x) {
                if b - 1 == j {
                    if s[j] == x {
                        lemma_text_before_irreflexive(x);
                    } else {
                        lemma_text_before_total(x, s[j]);
                    }
                } else {
                    lemma_text_before_transitive(s[b - 1], x, s[j]);
                    assert(!text_before(s[b - 1], s[j]));
                }
            }
        } else {
            assert(t[a] == s[a - 1] && t[b] == s[b - 1]);
        }
    }
}

/// `names` in ascending order, as `Vec::sort` puts strings: the result is
/// sorted and holds the same names, each as often.
pub fn sorted_names(names: Vec<String>) -> (r: Vec<String>)
    ensures
        texts_sorted(views_of(r@)),
        views_of(r@).to_multiset() == views_of(names@).to_multiset(),
{
    let ghost all = views_of(names@);
    let mut out: Vec<String> = Vec::new();
    let mut i: usize = 0;
    assert(views_of(out@) =~= Seq::<Seq<char>>::empty());
    assert(all.take(0) =~= Seq::<Seq<char>>::empty());
    while i < names.len()
        invariant
            i <= names.len(),
            all == views_of(names@),
            texts_sorted(views_of(out@)),
            views_of(out@).to_multiset() == all.take(i as int).to_multiset(),
        decreases names.len() - i,
    {
        let x = chars_of(names[i].as_str());
        let ghost ov = views_of(out@);
        let mut j: usize = 0;
        while j < out.len() && !chars_before(x.as_slice(), chars_of(out[j].as_str()).as_slice())
            invariant
                j <= out.len(),
                ov == views_of(out@),
                forall|k: int| 0 <= k < j ==> !text_before(x@, #[trigger] ov[k]),
            decreases out.len() - j,
        {
            j = j + 1;
        }
        proof {
            lemma_sorted_insert(ov, x@, j as int);
            vstd::seq_lib::to_multiset_insert(ov, j as int, x@);
            vstd::seq_lib::to_multiset_build(all.take(i as int), x@);
            assert(all.take(i + 1) =~= all.take(i as int).push(x@));
        }
        out.insert(j, string_of(x.as_slice()));
        assert(views_of(out@) =~= ov.insert(j as int, x@));
        i = i + 1;
    }
    assert(all.take(names.len() as int) =~= all);
    out
}

} // verus!
