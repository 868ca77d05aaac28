//! Line counting for the LOC heatmap: comment stripping, `#[cfg(test)]`
//! module detection and per-file line statistics.
use vstd::prelude::*;
use crate::text::{
    chars_eq_str, chars_of, chars_start_with_str, lines_of, char_vec_views, push_chars,
    push_str_chars, string_from, string_of, text_lines, views_of, chars_eq, decimal,
    decimal_chars, pad_left, pad_right, push_char, push_left_aligned, push_repeated,
    push_right_aligned, text_before, chars_before, lemma_text_before_irreflexive,
    lemma_text_before_total, lemma_text_before_transitive,
};

verus! {

/// The position of the `//` that starts a line comment in `line[i..]`,
/// scanning with `in_string` and the previous character `prev`. Quotes
/// (`"` or `'`) not preceded by a backslash toggle string mode.
pub open spec fn comment_start(line: Seq<char>, i: int, in_string: bool, prev: char) -> Option<int>
    decreases line.len() - i,
{
    if i < 0 || i >= line.len() {
        None
    } else {
        let ch = line[i];
        let in2 = if (ch == '"' || ch == '\'') && prev != '\\' { !in_string } else { in_string };
        if !in2 && ch == '/' && i + 1 < line.len() && line[i + 1] == '/' {
            Some(i)
        } else {
            comment_start(line, i + 1, in2, ch)
        }
    }
}

/// `line` without its trailing line comment.
pub open spec fn without_line_comment(line: Seq<char>) -> Seq<char> {
    match comment_start(line, 0, false, ' ') {
        Some(i) => line.take(i),
        None => line,
    }
}

/// Strips a trailing `//` comment that is not inside a string literal.
pub fn strip_line_comment(line: &str) -> (r: String)
    ensures
        r@ == without_line_comment(line@),
{
    let chars = chars_of(line);
    let mut in_string = false;
    let mut prev = ' ';
    let mut i: usize = 0;
    while i < chars.len()
        invariant
            i <= chars.len(),
            chars@ == line@,
            comment_start(line@, 0, false, ' ') == comment_start(line@, i as int, in_string, prev),
        decreases chars.len() - i,
    {
        let ch = chars[i];
        if (ch == '"' || ch == '\'') && prev != '\\' {
            in_string = !in_string;
        }
        if !in_string && ch == '/' && i + 1 < chars.len() && chars[i + 1] == '/' {
            let mut r = String::new();
            push_chars(&mut r, chars.as_slice().split_at(i).0);
            return r;
        }
        prev = ch;
        i = i + 1;
    }
    string_from(line)
}

/// The components of a path relative to the crate root, as `prefix_for`
/// reports them: `src/<dir>` for files under `src/`, otherwise the first
/// component (empty for no component).
pub open spec fn heatmap_prefix(parts: Seq<Seq<char>>) -> Seq<char> {
    if parts.len() >= 2 && parts[0] == "src"@ {
        "src/"@ + parts[1]
    } else if parts.len() > 0 {
        parts[0]
    } else {
        Seq::empty()
    }
}

/// The heatmap bucket of a relative path, given its normal components.
pub fn prefix_for(parts: &[String]) -> (r: String)
    ensures
        r@ == heatmap_prefix(views_of(parts@)),
{
    assert(parts.len() > 0 ==> views_of(parts@)[0] == parts@[0]@);
    assert(parts.len() > 1 ==> views_of(parts@)[1] == parts@[1]@);
    if parts.len() >= 2 && crate::text::str_eq(parts[0].as_str(), "src") {
        let mut r = string_from("src/");
        push_str_chars(&mut r, parts[1].as_str());
        r
    } else if parts.len() > 0 {
        string_from(parts[0].as_str())
    } else {
        String::new()
    }
}

/// Whether `c` has the Unicode `White_Space` property, as the Unicode
/// Character Database (`PropList.txt`) lists it: U+0009 to U+000D, U+0020,
/// U+0085, U+00A0, U+1680, U+2000 to U+200A, U+2028, U+2029, U+202F,
/// U+205F and U+3000.
pub open spec fn unicode_white_space(c: char) -> bool {
    let n = c as u32;
    ||| 0x9 <= n <= 0xd
    ||| n == 0x20
    ||| n == 0x85
    ||| n == 0xa0
    ||| n == 0x1680
    ||| 0x2000 <= n <= 0x200a
    ||| n == 0x2028
    ||| n == 0x2029
    ||| n == 0x202f
    ||| n == 0x205f
    ||| n == 0x3000
}

/// Whether `c` is white space, as `char::is_whitespace` decides it (the
/// Unicode `White_Space` property).
fn is_whitespace_char(c: char) -> (r: bool)
    ensures
        r == unicode_white_space(c),
{
    let n = c as u32;
    (0x9 <= n && n <= 0xd) || n == 0x20 || n == 0x85 || n == 0xa0 || n == 0x1680
        || (0x2000 <= n && n <= 0x200a) || n == 0x2028 || n == 0x2029 || n == 0x202f
        || n == 0x205f || n == 0x3000
}

/// `s` without leading white space.
pub open spec fn trim_start_ws(s: Seq<char>) -> Seq<char>
    decreases s.len(),
{
    if s.len() > 0 && unicode_white_space(s[0]) { trim_start_ws(s.skip(1)) } else { s }
}

/// `s` without trailing white space.
pub open spec fn trim_end_ws(s: Seq<char>) -> Seq<char>
    decreases s.len(),
{
    if s.len() > 0 && unicode_white_space(s.last()) { trim_end_ws(s.drop_last()) } else { s }
}

/// `s` without leading and trailing white space (`str::trim`).
pub open spec fn trimmed(s: Seq<char>) -> Seq<char> {
    trim_end_ws(trim_start_ws(s))
}

proof fn lemma_trim_start_is_suffix(s: Seq<char>)
    ensures
        trim_start_ws(s) == s.skip(s.len() - trim_start_ws(s).len()),
        trim_start_ws(s).len() <= s.len(),
    decreases s.len(),
{
    if s.len() > 0 && unicode_white_space(s[0]) {
        lemma_trim_start_is_suffix(s.skip(1));
        let t = trim_start_ws(s.skip(1));
        assert(s.skip(1).skip(s.skip(1).len() - t.len()) =~= s.skip(s.len() - t.len()));
    } else {
        assert(s.skip(0) =~= s);
    }
}

proof fn lemma_trim_end_is_prefix(s: Seq<char>)
    ensures
        trim_end_ws(s) == s.take(trim_end_ws(s).len() as int),
        trim_end_ws(s).len() <= s.len(),
    decreases s.len(),
{
    if s.len() > 0 && unicode_white_space(s.last()) {
        lemma_trim_end_is_prefix(s.drop_last());
        let t = trim_end_ws(s.drop_last());
        assert(s.drop_last().take(t.len() as int) =~= s.take(t.len() as int));
    } else {
        assert(s.take(s.len() as int) =~= s);
    }
}

/// The characters of `s` without leading and trailing white space.
pub fn trim_chars(s: &[char]) -> (r: Vec<char>)
    ensures
        r@ == trimmed(s@),
{
    let mut a: usize = 0;
    assert(s@.skip(0) =~= s@);
    while a < s.len() && is_whitespace_char(s[a])
        invariant
            a <= s.len(),
            trim_start_ws(s@) == trim_start_ws(s@.skip(a as int)),
        decreases s.len() - a,
    {
        assert(s@.skip(a as int).skip(1) =~= s@.skip(a + 1));
        a = a + 1;
    }
    let ghost st = s@.skip(a as int);
    assert(trim_start_ws(st) == st) by {
        if st.len() > 0 {
            assert(st[0] == s@[a as int]);
        }
    }
    let mut b: usize = s.len();
    assert(st.take(st.len() as int) =~= st);
    while b > a && is_whitespace_char(s[b - 1])
        invariant
            a <= b <= s.len(),
            st == s@.skip(a as int),
            trim_end_ws(st) == trim_end_ws(st.take(b - a)),
        decreases b,
    {
        assert(st.take(b - a).drop_last() =~= st.take(b - a - 1));
        assert(st.take(b - a).last() == s@[b - 1]);
        b = b - 1;
    }
    assert(trim_end_ws(st.take(b - a)) == st.take(b - a)) by {
        if b > a {
            assert(st.take(b - a).last() == s@[b - 1]);
        }
    }
    let mut r: Vec<char> = Vec::new();
    let mut k = a;
    while k < b
        invariant
            a <= k <= b <= s.len(),
            st == s@.skip(a as int),
            r@ == st.take(k - a),
        decreases b - k,
    {
        r.push(s[k]);
        assert(st.take(k - a + 1) =~= st.take(k - a).push(s@[k as int]));
        k = k + 1;
    }
    r
}

/// The number of occurrences of `c` in `s`.
pub open spec fn count_char(s: Seq<char>, c: char) -> nat
    decreases s.len(),
{
    if s.len() == 0 {
        0
    } else {
        count_char(s.drop_last(), c) + if s.last() == c { 1nat } else { 0nat }
    }
}

/// The index of the first `c` in `s`.
pub open spec fn find_char(s: Seq<char>, c: char) -> Option<int>
    decreases s.len(),
{
    if s.len() == 0 {
        None
    } else if s[0] == c {
        Some(0)
    } else {
        match find_char(s.skip(1), c) {
            Some(i) => Some(i + 1),
            None => None,
        }
    }
}

/// The index of the first line from `j` on that is not blank (or the line count).
pub open spec fn next_non_blank(lines: Seq<Seq<char>>, j: int) -> int
    decreases lines.len() - j,
{
    if j < 0 || j >= lines.len() || trimmed(lines[j]).len() > 0 {
        j
    } else {
        next_non_blank(lines, j + 1)
    }
}

/// Where the brace scan of a test module stops: the first line index from
/// `j` on at which the brace depth is no longer positive (comments ignored).
pub open spec fn module_end(lines: Seq<Seq<char>>, j: int, depth: int) -> int
    decreases lines.len() - j,
{
    if j < 0 || j >= lines.len() || depth <= 0 {
        j
    } else {
        let s = without_line_comment(lines[j]);
        module_end(lines, j + 1, depth + count_char(s, '{') - count_char(s, '}'))
    }
}

/// The `[start, end)` line ranges of the `#[cfg(test)] mod ... { ... }`
/// blocks found from line `i` on; `start` is the `mod` line.
pub open spec fn test_regions_from(lines: Seq<Seq<char>>, i: int) -> Seq<(int, int)>
    decreases lines.len() - i,
{
    if i < 0 || i >= lines.len() {
        Seq::empty()
    } else if trimmed(lines[i]) == "#[cfg(test)]"@ {
        let j = next_non_blank(lines, i + 1);
        if j >= lines.len() || j <= i {
            Seq::empty()
        } else {
            let mod_line = trimmed(lines[j]);
            match find_char(mod_line, '{') {
                Some(open) => if mod_line.len() >= 4 && mod_line.take(4) == "mod "@ {
                    let after = mod_line.skip(open);
                    let end = module_end(lines, j + 1, count_char(after, '{') - count_char(after, '}'));
                    if i < end && end <= lines.len() {
                        seq![(j, end)] + test_regions_from(lines, end)
                    } else {
                        Seq::empty()
                    }
                } else {
                    test_regions_from(lines, i + 1)
                },
                None => test_regions_from(lines, i + 1),
            }
        }
    } else {
        test_regions_from(lines, i + 1)
    }
}

/// The total number of characters of `lines`.
pub open spec fn total_chars(lines: Seq<Seq<char>>) -> nat
    decreases lines.len(),
{
    if lines.len() == 0 { 0 } else { total_chars(lines.drop_last()) + lines.last().len() }
}

proof fn lemma_count_pair_le_len(s: Seq<char>)
    ensures
        count_char(s, '{') + count_char(s, '}') <= s.len(),
    decreases s.len(),
{
    if s.len() > 0 {
        lemma_count_pair_le_len(s.drop_last());
    }
}

proof fn lemma_comment_free_len(line: Seq<char>)
    ensures
        without_line_comment(line).len() <= line.len(),
{
    lemma_comment_start_in_range(line, 0, false, ' ');
}

proof fn lemma_comment_start_in_range(line: Seq<char>, i: int, in_string: bool, prev: char)
    ensures
        comment_start(line, i, in_string, prev) matches Some(k) ==> 0 <= k < line.len(),
    decreases line.len() - i,
{
    if 0 <= i < line.len() {
        let ch = line[i];
        let in2 = if (ch == '"' || ch == '\'') && prev != '\\' { !in_string } else { in_string };
        lemma_comment_start_in_range(line, i + 1, in2, ch);
    }
}

proof fn lemma_trimmed_len(s: Seq<char>)
    ensures
        trimmed(s).len() <= s.len(),
{
    lemma_trim_start_is_suffix(s);
    lemma_trim_end_is_prefix(trim_start_ws(s));
}

proof fn lemma_total_chars_take(lines: Seq<Seq<char>>, j: int)
    requires
        0 <= j < lines.len(),
    ensures
        total_chars(lines.take(j + 1)) == total_chars(lines.take(j)) + lines[j].len(),
{
    assert(lines.take(j + 1).drop_last() =~= lines.take(j));
}

proof fn lemma_total_chars_mono(lines: Seq<Seq<char>>, j: int)
    requires
        0 <= j <= lines.len(),
    ensures
        total_chars(lines.take(j)) <= total_chars(lines),
    decreases lines.len() - j,
{
    if j < lines.len() {
        lemma_total_chars_take(lines, j);
        lemma_total_chars_mono(lines, j + 1);
    } else {
        assert(lines.take(j) =~= lines);
    }
}

/// The number of occurrences of `c` in `s`.
pub fn count_char_in(s: &[char], c: char) -> (r: usize)
    ensures
        r == count_char(s@, c),
{
    let mut k: usize = 0;
    let mut n: usize = 0;
    while k < s.len()
        invariant
            k <= s.len(),
            n == count_char(s@.take(k as int), c),
            n <= k,
        decreases s.len() - k,
    {
        assert(s@.take(k + 1).drop_last() =~= s@.take(k as int));
        if s[k] == c {
            n = n + 1;
        }
        k = k + 1;
    }
    assert(s@.take(s.len() as int) =~= s@);
    n
}

/// The index of the first `c` in `s`.
pub fn find_char_in(s: &[char], c: char) -> (r: Option<usize>)
    ensures
        match r {
            Some(i) => find_char(s@, c) == Some(i as int) && i < s.len(),
            None => find_char(s@, c) is None,
        },
{
    let mut k: usize = 0;
    assert(s@.skip(0) =~= s@);
    while k < s.len()
        invariant
            k <= s.len(),
            find_char(s@, c) == match find_char(s@.skip(k as int), c) {
                Some(i) => Some(i + k),
                None => None,
            },
        decreases s.len() - k,
    {
        if s[k] == c {
            assert(s@.skip(k as int)[0] == c);
            return Some(k);
        }
        assert(s@.skip(k as int).skip(1) =~= s@.skip(k + 1));
        k = k + 1;
    }
    None
}

/// The character sequences of string slices.
pub open spec fn str_views(lines: Seq<&str>) -> Seq<Seq<char>> {
    lines.map_values(|l: &str| l@)
}

/// Finds the `#[cfg(test)] mod name { ... }` blocks of a file given as its
/// lines: each region runs from the `mod` line to the line after its
/// closing brace. The brace depth is an `i32`, so files with more than
/// `i32::MAX` characters are outside the range of this function.
pub fn cfg_test_regions(lines: &[&str]) -> (r: Vec<(usize, usize)>)
    requires
        total_chars(str_views(lines@)) <= i32::MAX,
    ensures
        r@.map_values(|p: (usize, usize)| (p.0 as int, p.1 as int)) == test_regions_from(str_views(lines@), 0),
{
    let ghost all = str_views(lines@);
    let n = lines.len();
    let mut regions: Vec<(usize, usize)> = Vec::new();
    let mut i: usize = 0;
    assert(regions@.map_values(|p: (usize, usize)| (p.0 as int, p.1 as int)) =~= Seq::<(int, int)>::empty());
    while i < n
        invariant_except_break
            i <= n,
            n == lines.len(),
            all == str_views(lines@),
            total_chars(all) <= i32::MAX,
            test_regions_from(all, 0) == regions@.map_values(|p: (usize, usize)| (p.0 as int, p.1 as int))
                + test_regions_from(all, i as int),
        ensures
            test_regions_from(all, 0) == regions@.map_values(|p: (usize, usize)| (p.0 as int, p.1 as int)),
        decreases n - i,
    {
        let ghost before = regions@.map_values(|p: (usize, usize)| (p.0 as int, p.1 as int));
        assert(all[i as int] == lines@[i as int]@);
        let lc = chars_of(lines[i]);
        let t = trim_chars(lc.as_slice());
        if chars_eq_str(t.as_slice(), "#[cfg(test)]") {
            let mut j = i + 1;
            while j < n && trim_chars(chars_of(lines[j]).as_slice()).len() == 0
                invariant
                    i < j <= n,
                    n == lines.len(),
                    all == str_views(lines@),
                    next_non_blank(all, i + 1) == next_non_blank(all, j as int),
                decreases n - j,
            {
                assert(all[j as int] == lines@[j as int]@);
                j = j + 1;
            }
            if j >= n {
                assert(test_regions_from(all, i as int) =~= Seq::<(int, int)>::empty());
                assert(before + Seq::<(int, int)>::empty() =~= before);
                break;
            }
            assert(all[j as int] == lines@[j as int]@);
            let mod_line = trim_chars(chars_of(lines[j]).as_slice());
            assert(next_non_blank(all, j as int) == j as int);
            match find_char_in(mod_line.as_slice(), '{') {
                Some(open) => {
                    if chars_start_with_str(mod_line.as_slice(), "mod ") {
                        proof {
                            reveal_strlit("mod ");
                        }
                        let after = mod_line.as_slice().split_at(open).1;
                        let opens = count_char_in(after, '{');
                        let closes = count_char_in(after, '}');
                        proof {
                            lemma_count_pair_le_len(after@);
                            lemma_trimmed_len(all[j as int]);
                            lemma_total_chars_take(all, j as int);
                            lemma_total_chars_mono(all, j + 1);
                        }
                        let mut depth: i32 = opens as i32 - closes as i32;
                        let start = j;
                        j = j + 1;
                        let ghost d0: int = depth as int;
                        while j < n && depth > 0
                            invariant
                                start < j <= n,
                                n == lines.len(),
                                all == str_views(lines@),
                                total_chars(all) <= i32::MAX,
                                -(total_chars(all.take(j as int)) as int) <= depth <= total_chars(all.take(j as int)),
                                module_end(all, start + 1, d0) == module_end(all, j as int, depth as int),
                            decreases n - j,
                        {
                            assert(all[j as int] == lines@[j as int]@);
                            let sline = strip_line_comment(lines[j]);
                            let sc = chars_of(sline.as_str());
                            let o = count_char_in(sc.as_slice(), '{');
                            let c = count_char_in(sc.as_slice(), '}');
                            proof {
                                lemma_count_pair_le_len(sc@);
                                lemma_comment_free_len(all[j as int]);
                                lemma_total_chars_take(all, j as int);
                                lemma_total_chars_mono(all, j + 1);
                            }
                            depth = depth + o as i32;
                            depth = depth - c as i32;
                            j = j + 1;
                        }
                        regions.push((start, j));
                        proof {
                            assert(test_regions_from(all, i as int) == seq![(start as int, j as int)]
                                + test_regions_from(all, j as int));
                            assert(regions@.map_values(|p: (usize, usize)| (p.0 as int, p.1 as int))
                                =~= before.push((start as int, j as int)));
                            assert(before + (seq![(start as int, j as int)] + test_regions_from(all, j as int))
                                =~= before.push((start as int, j as int)) + test_regions_from(all, j as int));
                        }
                        i = j;
                        continue;
                    }
                },
                None => {},
            }
        }
        i = i + 1;
    }
    regions
}

/// Whether line `li` lies in one of the regions.
pub open spec fn in_some_region(regions: Seq<(int, int)>, li: int) -> bool {
    exists|k: int| 0 <= k < regions.len() && #[trigger] regions[k].0 <= li < regions[k].1
}

/// The number of lines below `m` that lie in one of the regions.
pub open spec fn covered_lines(regions: Seq<(int, int)>, m: int) -> nat
    decreases m,
{
    if m <= 0 {
        0
    } else {
        covered_lines(regions, m - 1) + if in_some_region(regions, m - 1) { 1nat } else { 0nat }
    }
}

proof fn lemma_module_end_ge(lines: Seq<Seq<char>>, j: int, depth: int)
    ensures
        module_end(lines, j, depth) >= j,
    decreases lines.len() - j,
{
    if !(j < 0 || j >= lines.len() || depth <= 0) {
        let s = without_line_comment(lines[j]);
        lemma_module_end_ge(lines, j + 1, depth + count_char(s, '{') - count_char(s, '}'));
    }
}

/// Every region starts no later than it ends, within `0..=n`.
pub open spec fn regions_within(rs: Seq<(int, int)>, n: int) -> bool {
    forall|k: int| 0 <= k < rs.len() ==> 0 <= #[trigger] rs[k].0 <= rs[k].1 <= n
}

proof fn lemma_regions_in_range(lines: Seq<Seq<char>>, i: int)
    ensures
        regions_within(test_regions_from(lines, i), lines.len() as int),
    decreases lines.len() - i,
{
    if 0 <= i < lines.len() {
        if trimmed(lines[i]) == "#[cfg(test)]"@ {
            let j = next_non_blank(lines, i + 1);
            if !(j >= lines.len() || j <= i) {
                let mod_line = trimmed(lines[j]);
                match find_char(mod_line, '{') {
                    Some(open) => if mod_line.len() >= 4 && mod_line.take(4) == "mod "@ {
                        let after = mod_line.skip(open);
                        let end = module_end(lines, j + 1, count_char(after, '{') - count_char(after, '}'));
                        lemma_module_end_ge(lines, j + 1, count_char(after, '{') - count_char(after, '}'));
                        if i < end && end <= lines.len() {
                            lemma_regions_in_range(lines, end);
                            let rest = test_regions_from(lines, end);
                            let all = seq![(j, end)] + rest;
                            assert forall|k: int| 0 <= k < all.len() implies
                                0 <= #[trigger] all[k].0 <= all[k].1 <= lines.len() by {
                                if k > 0 {
                                    assert(all[k] == rest[k - 1]);
                                }
                            }
                            assert(test_regions_from(lines, i) == all);
                        } else {
                            assert(test_regions_from(lines, i) == Seq::<(int, int)>::empty());
                        }
                    } else {
                        lemma_regions_in_range(lines, i + 1);
                        assert(test_regions_from(lines, i) == test_regions_from(lines, i + 1));
                    },
                    None => {
                        lemma_regions_in_range(lines, i + 1);
                        assert(test_regions_from(lines, i) == test_regions_from(lines, i + 1));
                    },
                }
            }
        } else {
            lemma_regions_in_range(lines, i + 1);
        }
    }
}

/// Line statistics of a file: total lines, lines inside `#[cfg(test)]`
/// modules, and the others.
pub open spec fn line_counts(text: Seq<char>) -> (nat, nat, nat) {
    let lines = text_lines(text);
    let regions = test_regions_from(lines, 0);
    let test = covered_lines(regions, lines.len() as int);
    (lines.len(), test, (lines.len() - test) as nat)
}

proof fn lemma_covered_le(regions: Seq<(int, int)>, m: int)
    ensures
        m >= 0 ==> covered_lines(regions, m) <= m,
    decreases m,
{
    if m > 0 {
        lemma_covered_le(regions, m - 1);
    }
}

/// Counts the lines of a source file, and those inside test modules.
pub fn line_stats(text: &str) -> (r: (u32, u32, u32))
    requires
        text_lines(text@).len() <= u32::MAX,
        total_chars(text_lines(text@)) <= i32::MAX,
    ensures
        (r.0 as nat, r.1 as nat, r.2 as nat) == line_counts(text@),
{
    let line_vecs = lines_of(text);
    let ghost all = char_vec_views(line_vecs@);
    let mut owned: Vec<String> = Vec::new();
    let mut k: usize = 0;
    while k < line_vecs.len()
        invariant
            k <= line_vecs.len(),
            all == char_vec_views(line_vecs@),
            owned@.len() == k,
            forall|q: int| 0 <= q < k ==> #[trigger] owned@[q]@ == all[q],
        decreases line_vecs.len() - k,
    {
        owned.push(string_of(line_vecs[k].as_slice()));
        k = k + 1;
    }
    let mut lines: Vec<&str> = Vec::new();
    let mut q: usize = 0;
    while q < owned.len()
        invariant
            q <= owned.len(),
            owned@.len() == all.len(),
            forall|t: int| 0 <= t < owned@.len() ==> #[trigger] owned@[t]@ == all[t],
            lines@.len() == q,
            forall|t: int| 0 <= t < q ==> #[trigger] lines@[t]@ == all[t],
        decreases owned.len() - q,
    {
        lines.push(owned[q].as_str());
        q = q + 1;
    }
    assert(str_views(lines@) =~= all);
    let n = lines.len();
    let total = n as u32;
    let regions = cfg_test_regions(lines.as_slice());
    let ghost rs = regions@.map_values(|p: (usize, usize)| (p.0 as int, p.1 as int));
    proof {
        lemma_regions_in_range(all, 0);
    }
    let mut marks: Vec<bool> = Vec::new();
    let mut li: usize = 0;
    while li < n
        invariant
            li <= n,
            marks@.len() == li,
            forall|t: int| 0 <= t < li ==> !#[trigger] marks@[t],
        decreases n - li,
    {
        marks.push(false);
        li = li + 1;
    }
    let mut ri: usize = 0;
    while ri < regions.len()
        invariant
            ri <= regions.len(),
            n == all.len(),
            rs == regions@.map_values(|p: (usize, usize)| (p.0 as int, p.1 as int)),
            rs == test_regions_from(all, 0),
            regions_within(rs, all.len() as int),
            marks@.len() == n,
            forall|t: int| 0 <= t < n ==> #[trigger] marks@[t] == in_some_region(rs.take(ri as int), t),
        decreases regions.len() - ri,
    {
        let (start, end) = regions[ri];
        assert(rs[ri as int] == (start as int, end as int));
        let ghost before = marks@;
        let mut x = start;
        while x < end
            invariant
                start <= x <= end <= n,
                marks@.len() == n,
                forall|t: int| 0 <= t < n ==> #[trigger] marks@[t] == (before[t] || (start <= t < x)),
            decreases end - x,
        {
            marks.set(x, true);
            x = x + 1;
        }
        proof {
            let nt = rs.take(ri + 1);
            assert forall|t: int| 0 <= t < n implies #[trigger] marks@[t] == in_some_region(nt, t) by {
                if in_some_region(rs.take(ri as int), t) {
                    let k = choose|k: int| 0 <= k < rs.take(ri as int).len() && #[trigger] rs.take(ri as int)[k].0 <= t < rs.take(ri as int)[k].1;
                    assert(nt[k] == rs.take(ri as int)[k]);
                }
                if in_some_region(nt, t) {
                    let k = choose|k: int| 0 <= k < nt.len() && #[trigger] nt[k].0 <= t < nt[k].1;
                    if k < ri {
                        assert(rs.take(ri as int)[k] == nt[k]);
                    }
                }
                if start <= t < end {
                    assert(nt[ri as int] == (start as int, end as int));
                }
            }
        }
        ri = ri + 1;
    }
    assert(rs.take(regions.len() as int) =~= rs);
    let mut count: u32 = 0;
    let mut c: usize = 0;
    while c < n
        invariant
            c <= n,
            n == all.len(),
            n <= u32::MAX,
            marks@.len() == n,
            forall|t: int| 0 <= t < n ==> #[trigger] marks@[t] == in_some_region(rs, t),
            count == covered_lines(rs, c as int),
        decreases n - c,
    {
        proof {
            lemma_covered_le(rs, c as int);
        }
        if marks[c] {
            count = count + 1;
        }
        c = c + 1;
    }
    proof {
        lemma_covered_le(rs, n as int);
    }
    let prod = total - count;
    (total, count, prod)
}

/// One counted source file of the heatmap.
pub struct LocRow {
    /// The file's path relative to the crate root.
    pub rel: String,
    /// The scope the file is summed under (`prefix_for` of its path).
    pub prefix: String,
    /// Whether the file lies under `tests/`, where every line counts as test code.
    pub in_tests_dir: bool,
    /// All lines of the file.
    pub total: u32,
    /// The lines inside `#[cfg(test)]` modules.
    pub test: u32,
    /// The other lines.
    pub prod: u32,
}

/// A heatmap row as plain values.
pub struct LocRowView {
    pub rel: Seq<char>,
    pub prefix: Seq<char>,
    pub in_tests_dir: bool,
    pub total: nat,
    pub test: nat,
    pub prod: nat,
}

impl View for LocRow {
    type V = LocRowView;

    open spec fn view(&self) -> LocRowView {
        LocRowView {
            rel: self.rel@,
            prefix: self.prefix@,
            in_tests_dir: self.in_tests_dir,
            total: self.total as nat,
            test: self.test as nat,
            prod: self.prod as nat,
        }
    }
}

/// The three counts that the heatmap reports.
pub enum LocColumn {
    Total,
    NonTest,
    TestIsh,
}

/// A row's count in column `c`: a file under `tests/` has all its lines
/// test-ish and none non-test.
pub open spec fn column_value(r: LocRowView, c: LocColumn) -> nat {
    match c {
        LocColumn::Total => r.total,
        LocColumn::NonTest => if r.in_tests_dir { 0 } else { r.prod },
        LocColumn::TestIsh => if r.in_tests_dir { r.total } else { r.test },
    }
}

/// The sum of column `c` over the rows of scope `scope` (over all rows when `None`).
pub open spec fn column_sum(rows: Seq<LocRowView>, scope: Option<Seq<char>>, c: LocColumn) -> nat
    decreases rows.len(),
{
    if rows.len() == 0 {
        0
    } else {
        let r = rows.last();
        column_sum(rows.drop_last(), scope, c)
            + (if scope is None || scope == Some(r.prefix) { column_value(r, c) } else { 0 })
    }
}

/// `k` put into the ascending list `keys`, unless it is already there.
pub open spec fn insert_sorted(keys: Seq<Seq<char>>, k: Seq<char>) -> Seq<Seq<char>>
    decreases keys.len(),
{
    if keys.len() == 0 {
        seq![k]
    } else if keys[0] == k {
        keys
    } else if text_before(k, keys[0]) {
        seq![k] + keys
    } else {
        seq![keys[0]] + insert_sorted(keys.skip(1), k)
    }
}

/// The scopes of the rows, each once, in ascending order.
pub open spec fn sorted_scopes(rows: Seq<LocRowView>) -> Seq<Seq<char>>
    decreases rows.len(),
{
    if rows.len() == 0 {
        Seq::empty()
    } else {
        insert_sorted(sorted_scopes(rows.drop_last()), rows.last().prefix)
    }
}

/// `r` put into `s` (ordered by non-increasing total) after every row
/// whose total is at least its own.
pub open spec fn insert_by_total(s: Seq<LocRowView>, r: LocRowView) -> Seq<LocRowView>
    decreases s.len(),
{
    if s.len() == 0 {
        seq![r]
    } else if s[0].total < r.total {
        seq![r] + s
    } else {
        seq![s[0]] + insert_by_total(s.skip(1), r)
    }
}

/// The rows by non-increasing total; rows with equal totals keep their order.
pub open spec fn sorted_by_total(rows: Seq<LocRowView>) -> Seq<LocRowView>
    decreases rows.len(),
{
    if rows.len() == 0 {
        Seq::empty()
    } else {
        insert_by_total(sorted_by_total(rows.drop_last()), rows.last())
    }
}

/// The (at most) 35 largest rows, largest first.
pub open spec fn largest_rows(rows: Seq<LocRowView>) -> Seq<LocRowView> {
    let s = sorted_by_total(rows);
    if s.len() > 35 { s.take(35) } else { s }
}

/// A rule of 72 copies of `c`, ending the line.
pub open spec fn rule_line(c: char) -> Seq<char> {
    Seq::new(72, |_i: int| c).push('\n')
}

/// The four columns of a table line (`{:<28} {:>8} {:>10} {:>10}`).
pub open spec fn table_cells(a: Seq<char>, b: Seq<char>, c: Seq<char>, d: Seq<char>) -> Seq<char> {
    pad_right(a, 28, ' ') + seq![' '] + pad_left(b, 8, ' ') + seq![' '] + pad_left(c, 10, ' ')
        + seq![' '] + pad_left(d, 10, ' ')
}

/// The title and the column headings.
pub open spec fn heatmap_header() -> Seq<char> {
    "just-bash LOC heatmap (cfg(test) mod blocks in src; tests/*.rs counted as all test)\n"@
        + rule_line('=') + table_cells("scope"@, "total"@, "non-test"@, "test-ish"@).push('\n')
        + rule_line('-')
}

/// The line of scope `k`: its total, non-test and test-ish sums; the
/// `tests` scope shows its total as test-ish and notes what it is.
pub open spec fn scope_line(rows: Seq<LocRowView>, k: Seq<char>) -> Seq<char> {
    let t = decimal(column_sum(rows, Some(k), LocColumn::Total));
    if k == "tests"@ {
        table_cells(k, t, seq!['0'], t) + "  (integration tests dir)\n"@
    } else {
        table_cells(k, t, decimal(column_sum(rows, Some(k), LocColumn::NonTest)),
            decimal(column_sum(rows, Some(k), LocColumn::TestIsh))).push('\n')
    }
}

/// The lines of the scopes `keys`, in order.
pub open spec fn scope_lines(rows: Seq<LocRowView>, keys: Seq<Seq<char>>) -> Seq<char>
    decreases keys.len(),
{
    if keys.len() == 0 {
        Seq::empty()
    } else {
        scope_lines(rows, keys.drop_last()) + scope_line(rows, keys.last())
    }
}

/// The line of the grand totals.
pub open spec fn all_line(rows: Seq<LocRowView>) -> Seq<char> {
    table_cells("ALL (src+tests)"@, decimal(column_sum(rows, None, LocColumn::Total)),
        decimal(column_sum(rows, None, LocColumn::NonTest)),
        decimal(column_sum(rows, None, LocColumn::TestIsh))).push('\n')
}

/// One line of the largest-files list (`{:>6} {:>6} {:>6}  {}`).
pub open spec fn file_line(r: LocRowView) -> Seq<char> {
    pad_left(decimal(r.total), 6, ' ') + seq![' ']
        + pad_left(decimal(column_value(r, LocColumn::NonTest)), 6, ' ') + seq![' ']
        + pad_left(decimal(column_value(r, LocColumn::TestIsh)), 6, ' ') + seq![' ', ' ']
        + r.rel + seq!['\n']
}

/// The lines of the rows `s`, in order.
pub open spec fn file_lines(s: Seq<LocRowView>) -> Seq<char>
    decreases s.len(),
{
    if s.len() == 0 {
        Seq::empty()
    } else {
        file_lines(s.drop_last()) + file_line(s.last())
    }
}

/// The heatmap report: header, one line per scope in ascending order, the
/// grand totals, and the 35 largest files.
pub open spec fn heatmap_text(rows: Seq<LocRowView>) -> Seq<char> {
    heatmap_header() + scope_lines(rows, sorted_scopes(rows)) + rule_line('-') + all_line(rows)
        + seq!['\n'] + "Largest files (total lines, non-test, test-ish, path)\n"@ + rule_line('-')
        + file_lines(largest_rows(rows))
}

proof fn lemma_column_sum_scope(rows: Seq<LocRowView>, scope: Option<Seq<char>>, c: LocColumn)
    ensures
        column_sum(rows, scope, c) <= column_sum(rows, None, c),
    decreases rows.len(),
{
    if rows.len() > 0 {
        lemma_column_sum_scope(rows.drop_last(), scope, c);
    }
}

proof fn lemma_column_sum_prefix(rows: Seq<LocRowView>, i: int, c: LocColumn)
    requires
        0 <= i <= rows.len(),
    ensures
        column_sum(rows.take(i), None, c) <= column_sum(rows, None, c),
    decreases rows.len(),
{
    if i == rows.len() {
        assert(rows.take(i) =~= rows);
    } else {
        lemma_column_sum_prefix(rows.drop_last(), i, c);
        assert(rows.drop_last().take(i) =~= rows.take(i));
    }
}

proof fn lemma_insert_sorted_at(keys: Seq<Seq<char>>, k: Seq<char>, j: int)
    requires
        0 <= j <= keys.len(),
        forall|i: int| 0 <= i < j ==> keys[i] != k && !text_before(k, #[trigger] keys[i]),
        j < keys.len() ==> (keys[j] == k || text_before(k, keys[j])),
    ensures
        insert_sorted(keys, k) == (if j < keys.len() && keys[j] == k {
            keys
        } else {
            keys.take(j) + seq![k] + keys.skip(j)
        }),
    decreases j,
{
    if j == 0 {
        assert(keys.take(0) + seq![k] + keys.skip(0) =~= seq![k] + keys);
    } else {
        let rest = keys.skip(1);
        assert(keys[0] != k && !text_before(k, keys[0]));
        assert forall|i: int| 0 <= i < j - 1 implies rest[i] != k && !text_before(k, #[trigger] rest[i]) by {
            assert(rest[i] == keys[i + 1]);
        }
        if j < keys.len() {
            assert(rest[j - 1] == keys[j]);
        }
        lemma_insert_sorted_at(rest, k, j - 1);
        assert(seq![keys[0]] + rest =~= keys);
        assert(seq![keys[0]] + (rest.take(j - 1) + seq![k] + rest.skip(j - 1))
            =~= keys.take(j) + seq![k] + keys.skip(j));
    }
}

proof fn lemma_insert_by_total_at(s: Seq<LocRowView>, r: LocRowView, j: int)
    requires
        0 <= j <= s.len(),
        forall|i: int| 0 <= i < j ==> (#[trigger] s[i]).total >= r.total,
        j < s.len() ==> s[j].total < r.total,
    ensures
        insert_by_total(s, r) == s.take(j) + seq![r] + s.skip(j),
    decreases j,
{
    if j == 0 {
        assert(s.take(0) + seq![r] + s.skip(0) =~= seq![r] + s);
    } else {
        let rest = s.skip(1);
        assert(s[0].total >= r.total);
        assert forall|i: int| 0 <= i < j - 1 implies (#[trigger] rest[i]).total >= r.total by {
            assert(rest[i] == s[i + 1]);
        }
        if j < s.len() {
            assert(rest[j - 1] == s[j]);
        }
        lemma_insert_by_total_at(rest, r, j - 1);
        assert(seq![s[0]] + (rest.take(j - 1) + seq![r] + rest.skip(j - 1))
            =~= s.take(j) + seq![r] + s.skip(j));
    }
}

/// The plain values of the rows.
pub open spec fn loc_views(rows: Seq<LocRow>) -> Seq<LocRowView> {
    rows.map_values(|x: LocRow| x@)
}

/// Whether the three grand totals fit in a `u32`, the counters' type.
pub open spec fn sums_fit(rows: Seq<LocRowView>) -> bool {
    &&& column_sum(rows, None, LocColumn::Total) <= u32::MAX
    &&& column_sum(rows, None, LocColumn::NonTest) <= u32::MAX
    &&& column_sum(rows, None, LocColumn::TestIsh) <= u32::MAX
}

/// The scope of all rows (`all`) or of the rows with prefix `key`.
pub open spec fn scope_of(all: bool, key: Seq<char>) -> Option<Seq<char>> {
    if all { None } else { Some(key) }
}

/// The rows that `order` picks, in its order.
pub open spec fn picked(rows: Seq<LocRowView>, order: Seq<usize>) -> Seq<LocRowView> {
    order.map_values(|i: usize| rows[i as int])
}

/// The total, non-test and test-ish sums of one scope.
fn scope_sums(rows: &[LocRow], all: bool, key: &[char]) -> (r: (u32, u32, u32))
    requires
        sums_fit(loc_views(rows@)),
    ensures
        r.0 == column_sum(loc_views(rows@), scope_of(all, key@), LocColumn::Total),
        r.1 == column_sum(loc_views(rows@), scope_of(all, key@), LocColumn::NonTest),
        r.2 == column_sum(loc_views(rows@), scope_of(all, key@), LocColumn::TestIsh),
{
    let ghost rv = loc_views(rows@);
    let ghost sc = scope_of(all, key@);
    let mut t: u32 = 0;
    let mut np: u32 = 0;
    let mut ti: u32 = 0;
    let mut i: usize = 0;
    assert(rv.take(0) =~= Seq::<LocRowView>::empty());
    while i < rows.len()
        invariant
            i <= rows.len(),
            rv == loc_views(rows@),
            sc == scope_of(all, key@),
            sums_fit(rv),
            t == column_sum(rv.take(i as int), sc, LocColumn::Total),
            np == column_sum(rv.take(i as int), sc, LocColumn::NonTest),
            ti == column_sum(rv.take(i as int), sc, LocColumn::TestIsh),
        decreases rows.len() - i,
    {
        let r = &rows[i];
        assert(rv.take(i + 1).drop_last() =~= rv.take(i as int));
        assert(rv.take(i + 1).last() == r@);
        proof {
            lemma_column_sum_scope(rv.take(i + 1), sc, LocColumn::Total);
            lemma_column_sum_scope(rv.take(i + 1), sc, LocColumn::NonTest);
            lemma_column_sum_scope(rv.take(i + 1), sc, LocColumn::TestIsh);
            lemma_column_sum_prefix(rv, i + 1, LocColumn::Total);
            lemma_column_sum_prefix(rv, i + 1, LocColumn::NonTest);
            lemma_column_sum_prefix(rv, i + 1, LocColumn::TestIsh);
        }
        let inside = all || {
            let p = chars_of(r.prefix.as_str());
            chars_eq(p.as_slice(), key)
        };
        if inside {
            t = t + r.total;
            if r.in_tests_dir {
                ti = ti + r.total;
            } else {
                np = np + r.prod;
                ti = ti + r.test;
            }
        }
        i = i + 1;
    }
    assert(rv.take(rows.len() as int) =~= rv);
    (t, np, ti)
}

/// Where `p` goes in the ascending list `keys`, and whether it is there.
fn scope_position(keys: &Vec<String>, p: &[char]) -> (r: (usize, bool))
    ensures
        r.0 <= keys.len(),
        forall|i: int| 0 <= i < r.0 ==> views_of(keys@)[i] != p@
            && !text_before(p@, #[trigger] views_of(keys@)[i]),
        r.0 < keys.len() ==> (views_of(keys@)[r.0 as int] == p@
            || text_before(p@, views_of(keys@)[r.0 as int])),
        r.1 == (r.0 < keys.len() && views_of(keys@)[r.0 as int] == p@),
{
    let mut j: usize = 0;
    while j < keys.len()
        invariant
            j <= keys.len(),
            forall|i: int| 0 <= i < j ==> views_of(keys@)[i] != p@
                && !text_before(p@, #[trigger] views_of(keys@)[i]),
        decreases keys.len() - j,
    {
        let kc = chars_of(keys[j].as_str());
        assert(views_of(keys@)[j as int] == kc@);
        if chars_eq(kc.as_slice(), p) {
            return (j, true);
        }
        if chars_before(p, kc.as_slice()) {
            return (j, false);
        }
        j = j + 1;
    }
    (j, false)
}

/// The scopes of the rows, each once, in ascending order.
fn sorted_scope_list(rows: &[LocRow]) -> (keys: Vec<String>)
    ensures
        views_of(keys@) == sorted_scopes(loc_views(rows@)),
{
    let ghost rv = loc_views(rows@);
    let mut keys: Vec<String> = Vec::new();
    let mut i: usize = 0;
    assert(rv.take(0) =~= Seq::<LocRowView>::empty());
    assert(views_of(keys@) =~= Seq::<Seq<char>>::empty());
    while i < rows.len()
        invariant
            i <= rows.len(),
            rv == loc_views(rows@),
            views_of(keys@) == sorted_scopes(rv.take(i as int)),
        decreases rows.len() - i,
    {
        let p = chars_of(rows[i].prefix.as_str());
        let (j, present) = scope_position(&keys, p.as_slice());
        let ghost before = views_of(keys@);
        proof {
            lemma_insert_sorted_at(before, p@, j as int);
            assert(rv.take(i + 1).drop_last() =~= rv.take(i as int));
            assert(rv.take(i + 1).last().prefix == p@);
        }
        if !present {
            keys.insert(j, string_of(p.as_slice()));
            assert(views_of(keys@) =~= before.take(j as int) + seq![p@] + before.skip(j as int));
        }
        i = i + 1;
    }
    assert(rv.take(rows.len() as int) =~= rv);
    keys
}

/// The positions of the rows by non-increasing total, equal totals in
/// their original order.
fn order_by_total(rows: &[LocRow]) -> (order: Vec<usize>)
    ensures
        forall|m: int| 0 <= m < order.len() ==> order@[m] < rows.len(),
        picked(loc_views(rows@), order@) == sorted_by_total(loc_views(rows@)),
{
    let ghost rv = loc_views(rows@);
    let mut order: Vec<usize> = Vec::new();
    let mut k: usize = 0;
    assert(rv.take(0) =~= Seq::<LocRowView>::empty());
    assert(picked(rv, order@) =~= Seq::<LocRowView>::empty());
    while k < rows.len()
        invariant
            k <= rows.len(),
            rv == loc_views(rows@),
            forall|m: int| 0 <= m < order.len() ==> order@[m] < k,
            picked(rv, order@) == sorted_by_total(rv.take(k as int)),
        decreases rows.len() - k,
    {
        let total = rows[k].total;
        let mut j: usize = 0;
        while j < order.len() && rows[order[j]].total >= total
            invariant
                j <= order.len(),
                k < rows.len(),
                rv == loc_views(rows@),
                forall|m: int| 0 <= m < order.len() ==> order@[m] < k,
                total == rv[k as int].total,
                forall|i: int| 0 <= i < j ==> (#[trigger] picked(rv, order@)[i]).total >= total,
            decreases order.len() - j,
        {
            assert(picked(rv, order@)[j as int] == rows@[order@[j as int] as int]@);
            j = j + 1;
        }
        let ghost before = picked(rv, order@);
        proof {
            if j < order.len() {
                assert(before[j as int] == rows@[order@[j as int] as int]@);
            }
            lemma_insert_by_total_at(before, rv[k as int], j as int);
            assert(rv.take(k + 1).drop_last() =~= rv.take(k as int));
            assert(rv.take(k + 1).last() == rv[k as int]);
        }
        order.insert(j, k);
        assert(picked(rv, order@) =~= before.take(j as int) + seq![rv[k as int]] + before.skip(j as int));
        k = k + 1;
    }
    assert(rv.take(rows.len() as int) =~= rv);
    order
}

fn push_rule(out: &mut String, c: char)
    ensures
        final(out)@ == old(out)@ + rule_line(c),
{
    let ghost start = out@;
    push_repeated(out, c, 72);
    push_char(out, '\n');
    assert(out@ =~= start + rule_line(c));
}

fn push_table_cells(out: &mut String, a: &[char], b: &[char], c: &[char], d: &[char])
    ensures
        final(out)@ == old(out)@ + table_cells(a@, b@, c@, d@),
{
    let ghost start = out@;
    push_left_aligned(out, a, 28);
    push_char(out, ' ');
    push_right_aligned(out, b, 8);
    push_char(out, ' ');
    push_right_aligned(out, c, 10);
    push_char(out, ' ');
    push_right_aligned(out, d, 10);
    assert(out@ =~= start + table_cells(a@, b@, c@, d@));
}

fn push_file_line(out: &mut String, r: &LocRow)
    ensures
        final(out)@ == old(out)@ + file_line(r@),
{
    let ghost start = out@;
    let non_test: u32 = if r.in_tests_dir { 0 } else { r.prod };
    let test_ish: u32 = if r.in_tests_dir { r.total } else { r.test };
    let a = decimal_chars(r.total as u64);
    let b = decimal_chars(non_test as u64);
    let c = decimal_chars(test_ish as u64);
    push_right_aligned(out, a.as_slice(), 6);
    push_char(out, ' ');
    push_right_aligned(out, b.as_slice(), 6);
    push_char(out, ' ');
    push_right_aligned(out, c.as_slice(), 6);
    push_char(out, ' ');
    push_char(out, ' ');
    push_str_chars(out, r.rel.as_str());
    push_char(out, '\n');
    assert(out@ =~= start + file_line(r@));
}

/// The LOC heatmap report of the counted files `rows`: the title and
/// headings; one line per scope in ascending order with its total,
/// non-test and test-ish line counts (files under `tests/` count entirely
/// as test-ish); the grand totals; and the 35 files with the most lines,
/// largest first, files with equal totals in the order of `rows`.
pub fn heatmap_report(rows: &[LocRow]) -> (r: String)
    requires
        sums_fit(loc_views(rows@)),
    ensures
        r@ == heatmap_text(loc_views(rows@)),
{
    let ghost rv = loc_views(rows@);
    let mut out = String::new();
    push_str_chars(&mut out, "just-bash LOC heatmap (cfg(test) mod blocks in src; tests/*.rs counted as all test)\n");
    push_rule(&mut out, '=');
    let h1 = chars_of("scope");
    let h2 = chars_of("total");
    let h3 = chars_of("non-test");
    let h4 = chars_of("test-ish");
    push_table_cells(&mut out, h1.as_slice(), h2.as_slice(), h3.as_slice(), h4.as_slice());
    push_char(&mut out, '\n');
    push_rule(&mut out, '-');
    assert(out@ =~= heatmap_header());
    let keys = sorted_scope_list(rows);
    let ghost kv = views_of(keys@);
    let mut k: usize = 0;
    assert(kv.take(0) =~= Seq::<Seq<char>>::empty());
    while k < keys.len()
        invariant
            k <= keys.len(),
            rv == loc_views(rows@),
            sums_fit(rv),
            kv == views_of(keys@),
            out@ == heatmap_header() + scope_lines(rv, kv.take(k as int)),
        decreases keys.len() - k,
    {
        let ghost before = out@;
        let key = chars_of(keys[k].as_str());
        assert(kv[k as int] == key@);
        let (t, non_test, test_ish) = scope_sums(rows, false, key.as_slice());
        let td = decimal_chars(t as u64);
        if chars_eq_str(key.as_slice(), "tests") {
            let zero = chars_of("0");
            proof {
                reveal_strlit("0");
            }
            assert(zero@ =~= seq!['0']);
            push_table_cells(&mut out, key.as_slice(), td.as_slice(), zero.as_slice(), td.as_slice());
            push_str_chars(&mut out, "  (integration tests dir)\n");
        } else {
            let nd = decimal_chars(non_test as u64);
            let id = decimal_chars(test_ish as u64);
            push_table_cells(&mut out, key.as_slice(), td.as_slice(), nd.as_slice(), id.as_slice());
            push_char(&mut out, '\n');
        }
        assert(out@ =~= before + scope_line(rv, key@));
        assert(kv.take(k + 1).drop_last() =~= kv.take(k as int));
        assert(kv.take(k + 1).last() == key@);
        k = k + 1;
    }
    assert(kv.take(keys.len() as int) =~= kv);
    let ghost upper = out@;
    push_rule(&mut out, '-');
    let none: Vec<char> = Vec::new();
    let (gt, gn, gi) = scope_sums(rows, true, none.as_slice());
    let l1 = chars_of("ALL (src+tests)");
    let d1 = decimal_chars(gt as u64);
    let d2 = decimal_chars(gn as u64);
    let d3 = decimal_chars(gi as u64);
    push_table_cells(&mut out, l1.as_slice(), d1.as_slice(), d2.as_slice(), d3.as_slice());
    push_char(&mut out, '\n');
    push_char(&mut out, '\n');
    push_str_chars(&mut out, "Largest files (total lines, non-test, test-ish, path)\n");
    push_rule(&mut out, '-');
    let ghost middle = out@;
    assert(middle =~= upper + rule_line('-') + all_line(rv) + seq!['\n']
        + "Largest files (total lines, non-test, test-ish, path)\n"@ + rule_line('-'));
    let order = order_by_total(rows);
    let ghost sorted = picked(rv, order@);
    let ghost big = largest_rows(rv);
    let n: usize = if order.len() > 35 { 35 } else { order.len() };
    assert(big.len() == n);
    let mut m: usize = 0;
    assert(big.take(0) =~= Seq::<LocRowView>::empty());
    while m < n
        invariant
            m <= n,
            n <= order.len(),
            big.len() == n,
            rv == loc_views(rows@),
            sorted == picked(rv, order@),
            sorted == sorted_by_total(rv),
            big == largest_rows(rv),
            forall|q: int| 0 <= q < order.len() ==> order@[q] < rows.len(),
            out@ == middle + file_lines(big.take(m as int)),
        decreases n - m,
    {
        let r = &rows[order[m]];
        assert(big[m as int] == sorted[m as int]);
        assert(sorted[m as int] == r@);
        push_file_line(&mut out, r);
        assert(big.take(m + 1).drop_last() =~= big.take(m as int));
        assert(big.take(m + 1).last() == r@);
        m = m + 1;
    }
    assert(big.take(n as int) =~= big);
    out
}

/// Each key sorts before every later one: ascending, with no key twice.
pub open spec fn strictly_ascending(keys: Seq<Seq<char>>) -> bool {
    forall|i: int, j: int| 0 <= i < j < keys.len() ==> text_before(#[trigger] keys[i], #[trigger] keys[j])
}

proof fn lemma_insert_sorted(keys: Seq<Seq<char>>, k: Seq<char>)
    requires
        strictly_ascending(keys),
    ensures
        strictly_ascending(insert_sorted(keys, k)),
        forall|x: Seq<char>| #[trigger] insert_sorted(keys, k).contains(x) <==> (keys.contains(x) || x == k),
    decreases keys.len(),
{
    let r = insert_sorted(keys, k);
    if keys.len() == 0 {
        assert forall|x: Seq<char>| r.contains(x) <==> (keys.contains(x) || x == k) by {
            if r.contains(x) {
                assert(r[0] == k);
            }
            if x == k {
                assert(r[0] == x);
            }
        }
    } else if keys[0] == k {
        assert forall|x: Seq<char>| r.contains(x) <==> (keys.contains(x) || x == k) by {
            if x == k {
                assert(keys[0] == x);
            }
        }
    } else if text_before(k, keys[0]) {
        assert(r == seq![k] + keys);
        assert forall|i: int, j: int| 0 <= i < j < r.len() implies text_before(#[trigger] r[i], #[trigger] r[j]) by {
            if i == 0 {
                if j > 1 {
                    assert(text_before(keys[0], keys[j - 1]));
                    lemma_text_before_transitive(k, keys[0], keys[j - 1]);
                }
                assert(r[j] == keys[j - 1]);
            } else {
                assert(r[i] == keys[i - 1] && r[j] == keys[j - 1]);
            }
        }
        assert forall|x: Seq<char>| r.contains(x) <==> (keys.contains(x) || x == k) by {
            if r.contains(x) {
                let i = choose|i: int| 0 <= i < r.len() && r[i] == x;
                if i > 0 {
                    assert(keys[i - 1] == x);
                }
            }
            if keys.contains(x) {
                let i = choose|i: int| 0 <= i < keys.len() && keys[i] == x;
                assert(r[i + 1] == x);
            }
            if x == k {
                assert(r[0] == x);
            }
        }
    } else {
        let rest = keys.skip(1);
        assert(strictly_ascending(rest)) by {
            assert forall|i: int, j: int| 0 <= i < j < rest.len() implies text_before(#[trigger] rest[i], #[trigger] rest[j]) by {
                assert(rest[i] == keys[i + 1] && rest[j] == keys[j + 1]);
            }
        }
        lemma_insert_sorted(rest, k);
        lemma_text_before_total(k, keys[0]);
        let t = insert_sorted(rest, k);
        assert(r == seq![keys[0]] + t);
        assert forall|y: Seq<char>| t.contains(y) implies text_before(keys[0], y) by {
            if rest.contains(y) {
                let i = choose|i: int| 0 <= i < rest.len() && rest[i] == y;
                assert(keys[i + 1] == y);
                assert(text_before(keys[0], keys[i + 1]));
            }
        }
        assert forall|i: int, j: int| 0 <= i < j < r.len() implies text_before(#[trigger] r[i], #[trigger] r[j]) by {
            assert(r[j] == t[j - 1]);
            assert(t.contains(t[j - 1]));
            if i > 0 {
                assert(r[i] == t[i - 1]);
            }
        }
        assert forall|x: Seq<char>| r.contains(x) <==> (keys.contains(x) || x == k) by {
            if r.contains(x) {
                let i = choose|i: int| 0 <= i < r.len() && r[i] == x;
                if i > 0 {
                    assert(t[i - 1] == x);
                    assert(t.contains(x));
                    if rest.contains(x) {
                        let m = choose|m: int| 0 <= m < rest.len() && rest[m] == x;
                        assert(keys[m + 1] == x);
                    }
                } else {
                    assert(keys[0] == x);
                }
            }
            if keys.contains(x) {
                let i = choose|i: int| 0 <= i < keys.len() && keys[i] == x;
                if i == 0 {
                    assert(r[0] == x);
                } else {
                    assert(rest[i - 1] == x);
                    assert(rest.contains(x));
                    assert(t.contains(x));
                    let m = choose|m: int| 0 <= m < t.len() && t[m] == x;
                    assert(r[m + 1] == x);
                }
            }
            if x == k {
                assert(t.contains(x));
                let m = choose|m: int| 0 <= m < t.len() && t[m] == x;
                assert(r[m + 1] == x);
            }
        }
    }
}

/// The heatmap lists each scope once, in ascending order: its scope lines
/// are those of exactly the prefixes that some row has.
pub proof fn heatmap_scopes_ascending_once(rows: Seq<LocRowView>)
    ensures
        strictly_ascending(sorted_scopes(rows)),
        forall|x: Seq<char>| sorted_scopes(rows).contains(x)
            <==> (exists|i: int| 0 <= i < rows.len() && (#[trigger] rows[i]).prefix == x),
    decreases rows.len(),
{
    if rows.len() > 0 {
        let init = rows.drop_last();
        heatmap_scopes_ascending_once(init);
        lemma_insert_sorted(sorted_scopes(init), rows.last().prefix);
        assert forall|x: Seq<char>| sorted_scopes(rows).contains(x)
            implies (exists|i: int| 0 <= i < rows.len() && (#[trigger] rows[i]).prefix == x) by {
            if sorted_scopes(init).contains(x) {
                let i = choose|i: int| 0 <= i < init.len() && (#[trigger] init[i]).prefix == x;
                assert(rows[i] == init[i]);
            } else {
                assert(rows[rows.len() - 1].prefix == x);
            }
        }
        assert forall|x: Seq<char>| (exists|i: int| 0 <= i < rows.len() && (#[trigger] rows[i]).prefix == x)
            implies sorted_scopes(rows).contains(x) by {
            let i = choose|i: int| 0 <= i < rows.len() && (#[trigger] rows[i]).prefix == x;
            if i < rows.len() - 1 {
                assert(init[i] == rows[i]);
                assert(init[i].prefix == x);
                assert(sorted_scopes(init).contains(x));
            }
            assert(sorted_scopes(rows) == insert_sorted(sorted_scopes(init), rows.last().prefix));
        }
    } else {
        assert(sorted_scopes(rows) =~= Seq::<Seq<char>>::empty());
    }
}

/// Each row's total is at least that of every later row.
pub open spec fn non_increasing_totals(s: Seq<LocRowView>) -> bool {
    forall|i: int, j: int| 0 <= i < j < s.len() ==> (#[trigger] s[i]).total >= (#[trigger] s[j]).total
}

/// Where `insert_by_total` puts `r` in `s`.
pub open spec fn total_position(s: Seq<LocRowView>, r: LocRowView) -> int
    decreases s.len(),
{
    if s.len() == 0 || s[0].total < r.total { 0 } else { 1 + total_position(s.skip(1), r) }
}

proof fn lemma_insert_by_total(s: Seq<LocRowView>, r: LocRowView)
    requires
        non_increasing_totals(s),
    ensures
        0 <= total_position(s, r) <= s.len(),
        insert_by_total(s, r) == s.insert(total_position(s, r), r),
        non_increasing_totals(insert_by_total(s, r)),
    decreases s.len(),
{
    let p = total_position(s, r);
    let out = insert_by_total(s, r);
    if s.len() == 0 || s[0].total < r.total {
        assert(out =~= s.insert(0, r));
        assert forall|i: int, j: int| 0 <= i < j < out.len() implies (#[trigger] out[i]).total >= (#[trigger] out[j]).total by {
            if i > 0 {
                assert(out[i] == s[i - 1] && out[j] == s[j - 1]);
            } else if j > 1 {
                assert(out[j] == s[j - 1]);
                assert(s[0].total >= s[j - 1].total);
            } else {
                assert(out[j] == s[0]);
            }
        }
    } else {
        let rest = s.skip(1);
        assert(non_increasing_totals(rest)) by {
            assert forall|i: int, j: int| 0 <= i < j < rest.len() implies (#[trigger] rest[i]).total >= (#[trigger] rest[j]).total by {
                assert(rest[i] == s[i + 1] && rest[j] == s[j + 1]);
            }
        }
        lemma_insert_by_total(rest, r);
        let t = insert_by_total(rest, r);
        let q = total_position(rest, r);
        assert(out == seq![s[0]] + t);
        assert(out =~= s.insert(p, r));
        assert forall|m: int| 0 <= m < t.len() implies s[0].total >= (#[trigger] t[m]).total by {
            if m < q {
                assert(t[m] == rest[m]);
                assert(rest[m] == s[m + 1]);
            } else if m > q {
                assert(t[m] == rest[m - 1]);
                assert(rest[m - 1] == s[m]);
            } else {
                assert(t[m] == r);
            }
        }
        assert forall|i: int, j: int| 0 <= i < j < out.len() implies (#[trigger] out[i]).total >= (#[trigger] out[j]).total by {
            assert(out[j] == t[j - 1]);
            if i > 0 {
                assert(out[i] == t[i - 1]);
            }
        }
    }
}

/// The largest-files list is in non-increasing order of total lines and
/// holds every row: `sorted_by_total` is a reordering of the rows.
pub proof fn heatmap_files_by_total(rows: Seq<LocRowView>)
    ensures
        non_increasing_totals(sorted_by_total(rows)),
        sorted_by_total(rows).to_multiset() == rows.to_multiset(),
    decreases rows.len(),
{
    if rows.len() == 0 {
        assert(sorted_by_total(rows) =~= rows);
    } else {
        let init = rows.drop_last();
        heatmap_files_by_total(init);
        let s = sorted_by_total(init);
        lemma_insert_by_total(s, rows.last());
        vstd::seq_lib::to_multiset_insert(s, total_position(s, rows.last()), rows.last());
        vstd::seq_lib::to_multiset_build(init, rows.last());
        assert(init.push(rows.last()) =~= rows);
    }
}

/// The sum of column `c` over the scopes `keys`, each summed on its own.
pub open spec fn scopes_sum(rows: Seq<LocRowView>, keys: Seq<Seq<char>>, c: LocColumn) -> nat
    decreases keys.len(),
{
    if keys.len() == 0 {
        0
    } else {
        scopes_sum(rows, keys.drop_last(), c) + column_sum(rows, Some(keys.last()), c)
    }
}

proof fn lemma_scopes_sum_no_rows(rows: Seq<LocRowView>, keys: Seq<Seq<char>>, c: LocColumn)
    requires
        rows.len() == 0,
    ensures
        scopes_sum(rows, keys, c) == 0,
    decreases keys.len(),
{
    if keys.len() > 0 {
        lemma_scopes_sum_no_rows(rows, keys.drop_last(), c);
    }
}

proof fn lemma_scopes_sum_last_row(rows: Seq<LocRowView>, keys: Seq<Seq<char>>, c: LocColumn)
    requires
        rows.len() > 0,
        keys.no_duplicates(),
    ensures
        scopes_sum(rows, keys, c) == scopes_sum(rows.drop_last(), keys, c)
            + (if keys.contains(rows.last().prefix) { column_value(rows.last(), c) } else { 0 }),
    decreases keys.len(),
{
    if keys.len() > 0 {
        let init = keys.drop_last();
        assert(init.no_duplicates()) by {
            assert forall|i: int, j: int| 0 <= i < init.len() && 0 <= j < init.len() && i != j
                implies init[i] != init[j] by {
                assert(init[i] == keys[i] && init[j] == keys[j]);
            }
        }
        lemma_scopes_sum_last_row(rows, init, c);
        let p = rows.last().prefix;
        if init.contains(p) {
            let i = choose|i: int| 0 <= i < init.len() && init[i] == p;
            assert(keys[i] == p);
            assert(keys.last() != p);
        }
        if keys.contains(p) && !init.contains(p) {
            let i = choose|i: int| 0 <= i < keys.len() && keys[i] == p;
            if i < init.len() {
                assert(init[i] == p);
            }
        }
        if keys.last() == p {
            assert(keys.contains(p)) by {
                assert(keys[keys.len() - 1] == p);
            }
        }
    }
}

proof fn lemma_scopes_sum_covers(rows: Seq<LocRowView>, keys: Seq<Seq<char>>, c: LocColumn)
    requires
        keys.no_duplicates(),
        forall|i: int| 0 <= i < rows.len() ==> keys.contains(#[trigger] rows[i].prefix),
    ensures
        scopes_sum(rows, keys, c) == column_sum(rows, None, c),
    decreases rows.len(),
{
    if rows.len() == 0 {
        lemma_scopes_sum_no_rows(rows, keys, c);
    } else {
        let init = rows.drop_last();
        assert forall|i: int| 0 <= i < init.len() implies keys.contains(#[trigger] init[i].prefix) by {
            assert(init[i] == rows[i]);
        }
        lemma_scopes_sum_covers(init, keys, c);
        lemma_scopes_sum_last_row(rows, keys, c);
        assert(keys.contains(rows[rows.len() - 1].prefix));
    }
}

/// The scope lines add up to the `ALL` line: summing a column over the
/// listed scopes gives the grand total of that column.
pub proof fn heatmap_scopes_add_up(rows: Seq<LocRowView>, c: LocColumn)
    ensures
        scopes_sum(rows, sorted_scopes(rows), c) == column_sum(rows, None, c),
{
    heatmap_scopes_ascending_once(rows);
    let keys = sorted_scopes(rows);
    assert(keys.no_duplicates()) by {
        assert forall|i: int, j: int| 0 <= i < keys.len() && 0 <= j < keys.len() && i != j
            implies keys[i] != keys[j] by {
            if keys[i] == keys[j] {
                lemma_text_before_irreflexive(keys[i]);
                if i < j {
                    assert(text_before(keys[i], keys[j]));
                } else {
                    assert(text_before(keys[j], keys[i]));
                }
            }
        }
    }
    assert forall|i: int| 0 <= i < rows.len() implies keys.contains(#[trigger] rows[i].prefix) by {
        assert(rows[i].prefix == rows[i].prefix);
    }
    lemma_scopes_sum_covers(rows, keys, c);
}

} // verus!
