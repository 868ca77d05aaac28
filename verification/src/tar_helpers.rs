//! Path and listing formatting for `tar`.
use vstd::prelude::*;
use crate::builtin_dispatch::ExecResult;
use crate::gzip_codec::{decompress_gzip, gzip_decompressed, has_gzip_magic, is_gzip};
use crate::path::{join_slash, relative_child, relative_joined};
use crate::text::{
    chars_of, decimal, pad_left, push_char, push_chars, push_decimal_padded, push_str_chars,
    split_char, string_from, lemma_split_char_nonempty, views_of, push_string, string_of, chars_start_with,
};

verus! {

/// The non-empty pieces among `ps`, in order.
pub open spec fn nonempty_pieces(ps: Seq<Seq<char>>) -> Seq<Seq<char>>
    decreases ps.len(),
{
    if ps.len() == 0 {
        Seq::empty()
    } else if ps.last().len() > 0 {
        nonempty_pieces(ps.drop_last()).push(ps.last())
    } else {
        nonempty_pieces(ps.drop_last())
    }
}

/// `path` without its first `count` components (empty components ignored).
pub open spec fn stripped_path(path: Seq<char>, count: nat) -> Seq<char> {
    if count == 0 {
        path
    } else {
        let parts = nonempty_pieces(split_char(path, '/'));
        if parts.len() <= count { Seq::empty() } else { join_slash(parts.skip(count as int)) }
    }
}

/// The non-empty `/`-separated components of `p`.
fn path_components(p: &Vec<char>) -> (r: Vec<Vec<char>>)
    ensures
        r@.map_values(|v: Vec<char>| v@) == nonempty_pieces(split_char(p@, '/')),
{
    let mut parts: Vec<Vec<char>> = Vec::new();
    let mut cur: Vec<char> = Vec::new();
    let mut i: usize = 0;
    assert(p@.take(0) =~= Seq::<char>::empty());
    assert(parts@.map_values(|v: Vec<char>| v@) =~= Seq::<Seq<char>>::empty());
    while i < p.len()
        invariant
            i <= p.len(),
            split_char(p@.take(i as int), '/').len() >= 1,
            split_char(p@.take(i as int), '/').last() == cur@,
            parts@.map_values(|v: Vec<char>| v@) == nonempty_pieces(split_char(p@.take(i as int), '/').drop_last()),
        decreases p.len() - i,
    {
        let ghost pieces = split_char(p@.take(i as int), '/');
        let ghost before = parts@.map_values(|v: Vec<char>| v@);
        let c = p[i];
        assert(p@.take(i + 1).drop_last() =~= p@.take(i as int));
        assert(p@.take(i + 1).last() == c);
        if c == '/' {
            let finished = cur;
            cur = Vec::new();
            let ghost fin = finished@;
            if finished.len() > 0 {
                parts.push(finished);
                assert(parts@.map_values(|v: Vec<char>| v@) =~= before.push(fin));
            }
            assert(split_char(p@.take(i + 1), '/') == pieces.push(Seq::<char>::empty()));
            assert(pieces.push(Seq::<char>::empty()).drop_last() =~= pieces);
            assert(pieces == pieces.drop_last().push(pieces.last()));
            assert(cur@ =~= Seq::<char>::empty());
        } else {
            cur.push(c);
            let ghost next = pieces.update(pieces.len() - 1, pieces.last().push(c));
            assert(split_char(p@.take(i + 1), '/') == next);
            assert(next.drop_last() =~= pieces.drop_last());
        }
        i = i + 1;
    }
    assert(p@.take(p.len() as int) =~= p@);
    proof {
        lemma_split_char_nonempty(p@, '/');
        let pieces = split_char(p@, '/');
        assert(pieces == pieces.drop_last().push(pieces.last()));
    }
    if cur.len() > 0 {
        let ghost before = parts@.map_values(|v: Vec<char>| v@);
        let ghost last = cur@;
        parts.push(cur);
        assert(parts@.map_values(|v: Vec<char>| v@) =~= before.push(last));
    }
    parts
}

/// Strip N leading path components.
pub fn strip_components(path: &str, count: usize) -> (r: String)
    ensures
        r@ == stripped_path(path@, count as nat),
{
    let p = chars_of(path);
    let mut r = String::new();
    if count == 0 {
        push_chars(&mut r, p.as_slice());
        return r;
    }
    let parts = path_components(&p);
    let ghost all = parts@.map_values(|v: Vec<char>| v@);
    if parts.len() <= count {
        return r;
    }
    let ghost kept = all.skip(count as int);
    let mut k = count;
    assert(kept.take(0) =~= Seq::<Seq<char>>::empty());
    while k < parts.len()
        invariant
            count <= k <= parts.len(),
            all == parts@.map_values(|v: Vec<char>| v@),
            kept == all.skip(count as int),
            r@ == join_slash(kept.take(k - count)),
        decreases parts.len() - k,
    {
        if k > count {
            push_char(&mut r, '/');
        }
        push_chars(&mut r, parts[k].as_slice());
        proof {
            let t = kept.take(k - count + 1);
            assert(t.drop_last() =~= kept.take(k - count));
            assert(t.last() == all[k as int]);
            if k == count {
                assert(t[0] == all[k as int]);
            }
        }
        k = k + 1;
    }
    assert(kept.take(parts.len() - count) =~= kept);
    r
}

/// `c` when `mode` has a bit of `mask` set, `-` otherwise.
pub open spec fn perm_char(mode: u32, mask: u32, c: char) -> char {
    if mode & mask != 0 { c } else { '-' }
}

/// The nine permission characters of `mode` (`rwxrwxrwx` with `-` for unset bits).
pub open spec fn permission_chars(mode: u32) -> Seq<char> {
    seq![
        perm_char(mode, 0o400, 'r'), perm_char(mode, 0o200, 'w'), perm_char(mode, 0o100, 'x'),
        perm_char(mode, 0o040, 'r'), perm_char(mode, 0o020, 'w'), perm_char(mode, 0o010, 'x'),
        perm_char(mode, 0o004, 'r'), perm_char(mode, 0o002, 'w'), perm_char(mode, 0o001, 'x'),
    ]
}

/// Character `k` of the permissions (owner, group, others; `r`, `w`, `x`
/// in each) is its letter when bit `8 - k` of `mode` is set and `-` when it
/// is clear.
pub proof fn permission_chars_show_mode_bits(mode: u32)
    ensures
        permission_chars(mode).len() == 9,
        forall|k: int| 0 <= k < 9 ==> #[trigger] permission_chars(mode)[k]
            == (if (mode >> ((8 - k) as u32)) & 1u32 == 1u32 { seq!['r', 'w', 'x'][k % 3] } else { '-' }),
{
    assert((mode & 256u32 != 0u32) == ((mode >> 8u32) & 1u32 == 1u32)) by (bit_vector);
    assert((mode & 128u32 != 0u32) == ((mode >> 7u32) & 1u32 == 1u32)) by (bit_vector);
    assert((mode & 64u32 != 0u32) == ((mode >> 6u32) & 1u32 == 1u32)) by (bit_vector);
    assert((mode & 32u32 != 0u32) == ((mode >> 5u32) & 1u32 == 1u32)) by (bit_vector);
    assert((mode & 16u32 != 0u32) == ((mode >> 4u32) & 1u32 == 1u32)) by (bit_vector);
    assert((mode & 8u32 != 0u32) == ((mode >> 3u32) & 1u32 == 1u32)) by (bit_vector);
    assert((mode & 4u32 != 0u32) == ((mode >> 2u32) & 1u32 == 1u32)) by (bit_vector);
    assert((mode & 2u32 != 0u32) == ((mode >> 1u32) & 1u32 == 1u32)) by (bit_vector);
    assert((mode & 1u32 != 0u32) == ((mode >> 0u32) & 1u32 == 1u32)) by (bit_vector);
    assert forall|k: int| 0 <= k < 9 implies #[trigger] permission_chars(mode)[k]
        == (if (mode >> ((8 - k) as u32)) & 1u32 == 1u32 { seq!['r', 'w', 'x'][k % 3] } else { '-' }) by {
        assert(seq!['r', 'w', 'x'][0] == 'r' && seq!['r', 'w', 'x'][1] == 'w' && seq!['r', 'w', 'x'][2] == 'x');
        if k == 0 { assert(((8 - k) as u32) == 8u32); }
        else if k == 1 { assert(((8 - k) as u32) == 7u32); }
        else if k == 2 { assert(((8 - k) as u32) == 6u32); }
        else if k == 3 { assert(((8 - k) as u32) == 5u32); }
        else if k == 4 { assert(((8 - k) as u32) == 4u32); }
        else if k == 5 { assert(((8 - k) as u32) == 3u32); }
        else if k == 6 { assert(((8 - k) as u32) == 2u32); }
        else if k == 7 { assert(((8 - k) as u32) == 1u32); }
        else { assert(((8 - k) as u32) == 0u32); }
    }
}

/// Appends the nine permission characters of `mode`.
pub fn push_permissions(s: &mut String, mode: u32)
    ensures
        final(s)@ == old(s)@ + permission_chars(mode),
{
    let perms = [
        if mode & 0o400 != 0 { 'r' } else { '-' },
        if mode & 0o200 != 0 { 'w' } else { '-' },
        if mode & 0o100 != 0 { 'x' } else { '-' },
        if mode & 0o040 != 0 { 'r' } else { '-' },
        if mode & 0o020 != 0 { 'w' } else { '-' },
        if mode & 0o010 != 0 { 'x' } else { '-' },
        if mode & 0o004 != 0 { 'r' } else { '-' },
        if mode & 0o002 != 0 { 'w' } else { '-' },
        if mode & 0o001 != 0 { 'x' } else { '-' },
    ];
    assert(perms@ =~= permission_chars(mode));
    push_chars(s, perms.as_slice());
}

/// Format file mode for verbose output (like ls -l).
pub fn format_mode(mode: u32, is_dir: bool) -> (r: String)
    ensures
        r@ == seq![if is_dir { 'd' } else { '-' }] + permission_chars(mode),
{
    let mut s = String::new();
    push_char(&mut s, if is_dir { 'd' } else { '-' });
    push_permissions(&mut s, mode);
    s
}

/// Whether `y` is a leap year of the Gregorian calendar.
pub open spec fn leap_year(y: int) -> bool {
    (y % 4 == 0 && y % 100 != 0) || y % 400 == 0
}

/// The number of days of year `y`.
pub open spec fn days_in_year(y: int) -> int {
    if leap_year(y) { 366 } else { 365 }
}

/// The year that day `rem` (counted from January 1st of year `y`) falls in,
/// and the day of that year.
pub open spec fn year_of_day(y: int, rem: int) -> (int, int)
    decreases rem,
{
    if rem < 0 || rem < days_in_year(y) {
        (y, rem)
    } else {
        year_of_day(y + 1, rem - days_in_year(y))
    }
}

/// The length of month `i` (0-based) in a leap or common year.
pub open spec fn month_length(i: int, leap: bool) -> int {
    if i == 1 { if leap { 29 } else { 28 } }
    else if i == 3 || i == 5 || i == 8 || i == 10 { 30 }
    else { 31 }
}

/// The month (0-based, from month `i` on) that day `rem` of the year falls
/// in, and the day of that month (0-based); month 0 when past December.
pub open spec fn month_of_day(rem: int, leap: bool, i: int) -> (int, int)
    decreases 12 - i,
{
    if i < 0 || i >= 12 {
        (0, rem)
    } else if rem < month_length(i, leap) {
        (i, rem)
    } else {
        month_of_day(rem - month_length(i, leap), leap, i + 1)
    }
}

/// The text of `format_mtime`: `YYYY-MM-DD HH:MM` in UTC.
pub open spec fn mtime_text(mtime: nat) -> Seq<char> {
    let days = mtime / 86400;
    let tod = mtime % 86400;
    let hours = tod / 3600;
    let minutes = (tod % 3600) / 60;
    let (y, rem) = year_of_day(1970, days as int);
    let (month, mday) = month_of_day(rem, leap_year(y), 0);
    pad_left(decimal(y as nat), 4, '0') + seq!['-'] + pad_left(decimal((month + 1) as nat), 2, '0')
        + seq!['-'] + pad_left(decimal((mday + 1) as nat), 2, '0') + seq![' ']
        + pad_left(decimal(hours), 2, '0') + seq![':'] + pad_left(decimal(minutes), 2, '0')
}

/// Whether `y` is a leap year.
#[verifier::spinoff_prover]
#[verifier::rlimit(50)]
pub fn is_leap_year(y: i64) -> (r: bool)
    ensures
        r == leap_year(y as int),
{
    (y % 4 == 0 && y % 100 != 0) || y % 400 == 0
}

fn month_length_of(i: usize, leap: bool) -> (r: i64)
    ensures
        r == month_length(i as int, leap),
{
    if i == 1 {
        if leap { 29 } else { 28 }
    } else if i == 3 || i == 5 || i == 8 || i == 10 {
        30
    } else {
        31
    }
}

/// Format a unix timestamp for verbose output.
pub fn format_mtime(mtime: u64) -> (r: String)
    ensures
        r@ == mtime_text(mtime as nat),
{
    let secs = mtime;
    let days = secs / 86400;
    let time_of_day = secs % 86400;
    let hours = time_of_day / 3600;
    let minutes = (time_of_day % 3600) / 60;

    let mut y: i64 = 1970;
    let mut remaining_days: i64 = days as i64;
    loop
        invariant
            0 <= remaining_days <= days,
            1970 <= y <= 1970 + (days - remaining_days),
            days == mtime / 86400,
            year_of_day(1970, days as int) == year_of_day(y as int, remaining_days as int),
        ensures
            0 <= remaining_days <= days,
            1970 <= y,
            days == mtime / 86400,
            year_of_day(1970, days as int) == (y as int, remaining_days as int),
        decreases remaining_days,
    {
        let days_in_year: i64 = if is_leap_year(y) { 366 } else { 365 };
        if remaining_days < days_in_year {
            break;
        }
        remaining_days = remaining_days - days_in_year;
        y = y + 1;
    }
    let leap = is_leap_year(y);
    let mut month: usize = 0;
    let mut i: usize = 0;
    while i < 12
        invariant_except_break
            i <= 12,
            month == 0,
            month_of_day(remaining_days as int, leap, i as int) == month_of_day(
                year_of_day(1970, days as int).1, leap_year(y as int), 0),
            0 <= remaining_days <= days,
            days == mtime / 86400,
            leap == leap_year(y as int),
        ensures
            0 <= remaining_days <= days,
            month < 12,
            month_of_day(year_of_day(1970, days as int).1, leap_year(y as int), 0)
                == (month as int, remaining_days as int),
        decreases 12 - i,
    {
        let md = month_length_of(i, leap);
        if remaining_days < md {
            month = i;
            break;
        }
        remaining_days = remaining_days - md;
        i = i + 1;
    }
    let day = remaining_days + 1;
    let mut s = String::new();
    push_decimal_padded(&mut s, y as u64, 4, '0');
    push_char(&mut s, '-');
    push_decimal_padded(&mut s, (month + 1) as u64, 2, '0');
    push_char(&mut s, '-');
    push_decimal_padded(&mut s, day as u64, 2, '0');
    push_char(&mut s, ' ');
    push_decimal_padded(&mut s, hours, 2, '0');
    push_char(&mut s, ':');
    push_decimal_padded(&mut s, minutes, 2, '0');
    s
}

/// Where `tar` reads an archive from.
pub enum ArchiveSource {
    /// Standard input (no `-f`, or `-f -`).
    Stdin,
    /// The named file.
    File(String),
}

/// The archive source selected by the `-f` operand.
pub fn archive_source(file: &Option<String>) -> (r: ArchiveSource)
    ensures
        match file {
            Some(f) => if f@ == "-"@ { r is Stdin } else { r matches ArchiveSource::File(g) && g@ == f@ },
            None => r is Stdin,
        },
{
    match file {
        Some(f) => {
            if crate::text::str_eq(f.as_str(), "-") {
                ArchiveSource::Stdin
            } else {
                ArchiveSource::File(string_from(f.as_str()))
            }
        },
        None => ArchiveSource::Stdin,
    }
}

/// The bytes of an archive passed on standard input: each character cut to
/// its low byte.
pub open spec fn stdin_bytes(s: Seq<char>) -> Seq<u8> {
    s.map_values(|c: char| ((c as u32) % 256) as u8)
}

/// The archive bytes of standard-input text (each character as its low byte).
pub fn stdin_archive_bytes(stdin: &str) -> (r: Vec<u8>)
    ensures
        r@ == stdin_bytes(stdin@),
{
    let cs = chars_of(stdin);
    let mut out: Vec<u8> = Vec::new();
    let mut i: usize = 0;
    while i < cs.len()
        invariant
            i <= cs.len(),
            cs@ == stdin@,
            out@ == stdin_bytes(cs@).take(i as int),
        decreases cs.len() - i,
    {
        let code = cs[i] as u32;
        out.push((code % 256) as u8);
        assert(stdin_bytes(cs@).take(i + 1) =~= stdin_bytes(cs@).take(i as int).push(((cs@[i as int] as u32) % 256) as u8));
        i = i + 1;
    }
    assert(stdin_bytes(cs@).take(cs.len() as int) =~= stdin_bytes(cs@));
    out
}

/// The failure of `tar` when the archive file cannot be read.
pub fn archive_open_error(file: &str) -> (r: ExecResult)
    ensures
        r.stdout@ == Seq::<char>::empty(),
        r.stderr@ == "tar: "@ + file@ + ": Cannot open: No such file or directory\n"@,
        r.exit_code == 2,
{
    let mut msg = string_from("tar: ");
    push_str_chars(&mut msg, file);
    push_str_chars(&mut msg, ": Cannot open: No such file or directory\n");
    ExecResult::new(String::new(), msg, 2)
}

/// The archive bytes to parse: decompressed when `-z` was given or the data
/// starts with the gzip magic, otherwise as they are. A decompression
/// failure ends `tar` with status 2.
pub fn unpack_archive_bytes(data: Vec<u8>, use_gzip: bool) -> (r: Result<Vec<u8>, ExecResult>)
    ensures
        (use_gzip || has_gzip_magic(data@)) ==> match r {
            Ok(v) => gzip_decompressed(data@) == Ok::<Seq<u8>, Seq<char>>(v@),
            Err(res) => (gzip_decompressed(data@) matches Err(e) && res.stdout@ == Seq::<char>::empty()
                && res.stderr@ == "tar: gzip decompression error: "@ + e + "\n"@ && res.exit_code == 2),
        },
        !(use_gzip || has_gzip_magic(data@)) ==> (r matches Ok(v) && v@ == data@),
{
    if use_gzip || is_gzip(data.as_slice()) {
        match decompress_gzip(data.as_slice()) {
            Ok(d) => Ok(d),
            Err(e) => {
                let mut msg = string_from("tar: gzip decompression error: ");
                push_str_chars(&mut msg, e.as_str());
                push_str_chars(&mut msg, "\n");
                Err(ExecResult::new(String::new(), msg, 2))
            },
        }
    } else {
        Ok(data)
    }
}

/// One member of a tar archive.
pub struct TarEntry {
    pub path: String,
    pub content: Vec<u8>,
    pub mode: u32,
    pub size: u64,
    pub mtime: u64,
    pub is_directory: bool,
    pub is_symlink: bool,
    pub link_target: String,
}

/// The archive member for a directory found at `relative_path`.
pub fn directory_entry(relative_path: &str, mode: u32, mtime: u64) -> (r: TarEntry)
    ensures
        r.path@ == relative_path@,
        r.content@ == Seq::<u8>::empty(),
        r.mode == mode,
        r.size == 0,
        r.mtime == mtime,
        r.is_directory,
        !r.is_symlink,
        r.link_target@ == Seq::<char>::empty(),
{
    TarEntry {
        path: string_from(relative_path),
        content: Vec::new(),
        mode,
        size: 0,
        mtime,
        is_directory: true,
        is_symlink: false,
        link_target: String::new(),
    }
}

/// The archive member for a regular file found at `relative_path`.
pub fn file_entry(relative_path: &str, content: Vec<u8>, mode: u32, mtime: u64) -> (r: TarEntry)
    ensures
        r.path@ == relative_path@,
        r.content@ == content@,
        r.mode == mode,
        r.size == content@.len(),
        r.mtime == mtime,
        !r.is_directory,
        !r.is_symlink,
        r.link_target@ == Seq::<char>::empty(),
{
    let size = content.len() as u64;
    TarEntry {
        path: string_from(relative_path),
        content,
        mode,
        size,
        mtime,
        is_directory: false,
        is_symlink: false,
        link_target: String::new(),
    }
}

/// The message `tar` collects when a path cannot be archived.
pub fn collect_error(relative_path: &str, error: &str) -> (r: String)
    ensures
        r@ == "tar: "@ + relative_path@ + ": "@ + error@,
{
    let mut msg = string_from("tar: ");
    push_str_chars(&mut msg, relative_path);
    push_str_chars(&mut msg, ": ");
    push_str_chars(&mut msg, error);
    msg
}

/// A member as plain values.
pub struct TarEntryView {
    pub path: Seq<char>,
    pub content: Seq<u8>,
    pub mode: u32,
    pub size: u64,
    pub mtime: u64,
    pub is_directory: bool,
    pub is_symlink: bool,
    pub link_target: Seq<char>,
}

impl View for TarEntry {
    type V = TarEntryView;

    open spec fn view(&self) -> TarEntryView {
        TarEntryView {
            path: self.path@,
            content: self.content@,
            mode: self.mode,
            size: self.size,
            mtime: self.mtime,
            is_directory: self.is_directory,
            is_symlink: self.is_symlink,
            link_target: self.link_target@,
        }
    }
}

/// The member that `directory_entry` makes.
pub open spec fn directory_entry_view(rel: Seq<char>, mode: u32, mtime: u64) -> TarEntryView {
    TarEntryView {
        path: rel,
        content: Seq::empty(),
        mode,
        size: 0,
        mtime,
        is_directory: true,
        is_symlink: false,
        link_target: Seq::empty(),
    }
}

/// The member that `file_entry` makes.
pub open spec fn file_entry_view(rel: Seq<char>, content: Seq<u8>, mode: u32, mtime: u64) -> TarEntryView {
    TarEntryView {
        path: rel,
        content,
        mode,
        size: content.len() as u64,
        mtime,
        is_directory: false,
        is_symlink: false,
        link_target: Seq::empty(),
    }
}

/// What the shell's filesystem said of one path of the tree being archived.
pub enum VisitOutcome {
    /// The path matches an `--exclude` pattern; nothing is read.
    Excluded,
    /// `stat` failed with this message.
    StatFailed(String),
    /// A directory, with its sorted entry names or the error of listing it.
    Directory { mode: u32, mtime: u64, listing: Result<Vec<String>, String> },
    /// A regular file, with its bytes or the error of reading it.
    File { mode: u32, mtime: u64, content: Result<Vec<u8>, String> },
    /// Neither a directory nor a regular file.
    Other,
}

/// A `VisitOutcome` as plain values.
pub enum OutcomeView {
    Excluded,
    StatFailed(Seq<char>),
    Directory(u32, u64, Result<Seq<Seq<char>>, Seq<char>>),
    File(u32, u64, Result<Seq<u8>, Seq<char>>),
    Other,
}

impl View for VisitOutcome {
    type V = OutcomeView;

    open spec fn view(&self) -> OutcomeView {
        match self {
            VisitOutcome::Excluded => OutcomeView::Excluded,
            VisitOutcome::StatFailed(e) => OutcomeView::StatFailed(e@),
            VisitOutcome::Directory { mode, mtime, listing } => OutcomeView::Directory(*mode, *mtime,
                match listing {
                    Ok(items) => Ok(views_of(items@)),
                    Err(e) => Err(e@),
                }),
            VisitOutcome::File { mode, mtime, content } => OutcomeView::File(*mode, *mtime,
                match content {
                    Ok(c) => Ok(c@),
                    Err(e) => Err(e@),
                }),
            VisitOutcome::Other => OutcomeView::Other,
        }
    }
}

/// The walk that collects the members of a tree for `tar -c`: the paths
/// still to visit (the next one last), the members found so far, and the
/// errors met so far.
pub struct CollectWalk {
    pub pending: Vec<String>,
    pub entries: Vec<TarEntry>,
    pub errors: Vec<String>,
}

/// The state of a walk as plain values.
#[verifier::ext_equal]
pub struct WalkView {
    pub pending: Seq<Seq<char>>,
    pub entries: Seq<TarEntryView>,
    pub errors: Seq<Seq<char>>,
}

impl View for CollectWalk {
    type V = WalkView;

    open spec fn view(&self) -> WalkView {
        WalkView {
            pending: views_of(self.pending@),
            entries: self.entries@.map_values(|e: TarEntry| e@),
            errors: views_of(self.errors@),
        }
    }
}

/// The paths of a directory's children, last child first, so that the
/// first child is visited next.
pub open spec fn children_to_visit(rel: Seq<char>, items: Seq<Seq<char>>) -> Seq<Seq<char>>
    decreases items.len(),
{
    if items.len() == 0 {
        Seq::empty()
    } else {
        children_to_visit(rel, items.skip(1)).push(relative_joined(rel, items[0]))
    }
}

/// The walk visits a directory's children in listing order: they are
/// queued last child first, and the queue is taken from its end.
pub proof fn walk_queues_children_in_reverse(rel: Seq<char>, items: Seq<Seq<char>>)
    ensures
        children_to_visit(rel, items).len() == items.len(),
        forall|i: int| 0 <= i < items.len()
            ==> #[trigger] children_to_visit(rel, items)[items.len() - 1 - i] == relative_joined(rel, items[i]),
    decreases items.len(),
{
    if items.len() > 0 {
        let rest = items.skip(1);
        walk_queues_children_in_reverse(rel, rest);
        assert forall|i: int| 0 <= i < items.len()
            implies #[trigger] children_to_visit(rel, items)[items.len() - 1 - i] == relative_joined(rel, items[i]) by {
            if i > 0 {
                assert(rest[i - 1] == items[i]);
                assert(children_to_visit(rel, rest)[rest.len() - 1 - (i - 1)] == relative_joined(rel, rest[i - 1]));
            }
        }
    }
}

/// The error line for `rel`.
pub open spec fn collect_error_text(rel: Seq<char>, e: Seq<char>) -> Seq<char> {
    "tar: "@ + rel + ": "@ + e
}

/// The walk that has visited nothing yet, with `rel` to visit.
pub open spec fn walk_start(rel: Seq<char>) -> WalkView {
    WalkView { pending: seq![rel], entries: Seq::empty(), errors: Seq::empty() }
}

/// The walk with what the filesystem said of `rel` recorded: a directory
/// becomes a member and its children are queued, a file becomes a member
/// with its bytes, a failure becomes an error line, and excluded and other
/// paths add nothing.
pub open spec fn walk_record(w: WalkView, rel: Seq<char>, o: OutcomeView) -> WalkView {
    match o {
        OutcomeView::Excluded => w,
        OutcomeView::Other => w,
        OutcomeView::StatFailed(e) => WalkView { errors: w.errors.push(collect_error_text(rel, e)), ..w },
        OutcomeView::Directory(mode, mtime, listing) => {
            let entries = w.entries.push(directory_entry_view(rel, mode, mtime));
            match listing {
                Ok(items) => WalkView { pending: w.pending + children_to_visit(rel, items), entries, ..w },
                Err(e) => WalkView { entries, errors: w.errors.push(collect_error_text(rel, e)), ..w },
            }
        },
        OutcomeView::File(mode, mtime, content) => match content {
            Ok(c) => WalkView { entries: w.entries.push(file_entry_view(rel, c, mode, mtime)), ..w },
            Err(e) => WalkView { errors: w.errors.push(collect_error_text(rel, e)), ..w },
        },
    }
}

impl CollectWalk {
    /// The walk of the tree at `relative_path`, which is visited first.
    pub fn start(relative_path: &str) -> (w: CollectWalk)
        ensures
            w@ == walk_start(relative_path@),
    {
        let mut pending: Vec<String> = Vec::new();
        push_string(&mut pending, string_from(relative_path));
        let w = CollectWalk { pending, entries: Vec::new(), errors: Vec::new() };
        assert(w@ =~= walk_start(relative_path@));
        w
    }

    /// The next path to visit, taken off the queue, if any is left.
    pub fn next_path(&mut self) -> (r: Option<String>)
        ensures
            old(self)@.pending.len() == 0 ==> r is None && final(self)@ == old(self)@,
            old(self)@.pending.len() > 0 ==> (r matches Some(p)
                && p@ == old(self)@.pending.last()
                && final(self)@ == WalkView { pending: old(self)@.pending.drop_last(), ..old(self)@ }),
    {
        let ghost before = self@;
        let r = self.pending.pop();
        proof {
            if before.pending.len() > 0 {
                assert(self@ =~= WalkView { pending: before.pending.drop_last(), ..before });
            } else {
                assert(self@ =~= before);
            }
        }
        r
    }

    /// Records what the filesystem said of `rel` (see `walk_record`).
    pub fn record(&mut self, rel: &str, outcome: VisitOutcome)
        ensures
            final(self)@ == walk_record(old(self)@, rel@, outcome@),
    {
        proof {
            reveal_strlit("tar: ");
            reveal_strlit(": ");
        }
        let ghost w = self@;
        let ghost o = outcome@;
        match outcome {
            VisitOutcome::Excluded => {},
            VisitOutcome::Other => {},
            VisitOutcome::StatFailed(e) => {
                push_string(&mut self.errors, collect_error(rel, e.as_str()));
                assert(self@ =~= walk_record(w, rel@, o));
            },
            VisitOutcome::Directory { mode, mtime, listing } => {
                let ghost before = self.entries@.map_values(|e: TarEntry| e@);
                let d = directory_entry(rel, mode, mtime);
                self.entries.push(d);
                assert(self.entries@.map_values(|e: TarEntry| e@) =~= before.push(directory_entry_view(rel@, mode, mtime)));
                match listing {
                    Ok(items) => {
                        let ghost base = views_of(self.pending@);
                        let ghost iv = views_of(items@);
                        let ghost found = self.entries@;
                        let ghost errs = self.errors@;
                        let mut j: usize = items.len();
                        assert(iv.skip(j as int) =~= Seq::<Seq<char>>::empty());
                        assert(base + Seq::<Seq<char>>::empty() =~= base);
                        while j > 0
                            invariant
                                j <= items.len(),
                                iv == views_of(items@),
                                self.entries@ == found,
                                self.errors@ == errs,
                                views_of(self.pending@) == base + children_to_visit(rel@, iv.skip(j as int)),
                            decreases j,
                        {
                            let child = relative_child(rel, items[j - 1].as_str());
                            push_string(&mut self.pending, child);
                            proof {
                                let s = iv.skip(j - 1);
                                assert(s.skip(1) =~= iv.skip(j as int));
                                assert(s[0] == items@[j - 1]@);
                            }
                            j = j - 1;
                        }
                        assert(iv.skip(0) =~= iv);
                        assert(self@ =~= walk_record(w, rel@, o));
                    },
                    Err(e) => {
                        push_string(&mut self.errors, collect_error(rel, e.as_str()));
                        assert(self@ =~= walk_record(w, rel@, o));
                    },
                }
            },
            VisitOutcome::File { mode, mtime, content } => {
                match content {
                    Ok(c) => {
                        let ghost before = self.entries@.map_values(|e: TarEntry| e@);
                        let ghost cv = c@;
                        let f = file_entry(rel, c, mode, mtime);
                        self.entries.push(f);
                        assert(self.entries@.map_values(|e: TarEntry| e@) =~= before.push(file_entry_view(rel@, cv, mode, mtime)));
                        assert(self@ =~= walk_record(w, rel@, o));
                    },
                    Err(e) => {
                        push_string(&mut self.errors, collect_error(rel, e.as_str()));
                        assert(self@ =~= walk_record(w, rel@, o));
                    },
                }
            },
        }
    }
}

/// The walk after `n` turns of taking the next path and recording what
/// the filesystem `fs` says of it (fewer when nothing is left to visit).
pub open spec fn walk_run(fs: spec_fn(Seq<char>) -> OutcomeView, w: WalkView, n: nat) -> WalkView
    decreases n,
{
    if n == 0 || w.pending.len() == 0 {
        w
    } else {
        let rel = w.pending.last();
        walk_run(fs, walk_record(WalkView { pending: w.pending.drop_last(), ..w }, rel, fs(rel)), (n - 1) as nat)
    }
}

/// The members and errors that collecting `rel` gives, as the recursive
/// collection makes them: an excluded path gives nothing; a failed `stat`,
/// listing or read gives its error line; a directory gives its member and
/// then, child by child in listing order, what collecting each child gives;
/// a file gives its member. `depth` bounds how deep the tree is followed.
pub open spec fn collected(fs: spec_fn(Seq<char>) -> OutcomeView, rel: Seq<char>, depth: nat)
    -> (Seq<TarEntryView>, Seq<Seq<char>>)
    decreases depth, 0nat, 0nat,
{
    if depth == 0 {
        (Seq::empty(), Seq::empty())
    } else {
        match fs(rel) {
            OutcomeView::Excluded => (Seq::empty(), Seq::empty()),
            OutcomeView::Other => (Seq::empty(), Seq::empty()),
            OutcomeView::StatFailed(e) => (Seq::empty(), seq![collect_error_text(rel, e)]),
            OutcomeView::Directory(mode, mtime, listing) => match listing {
                Ok(items) => {
                    let below = collected_children(fs, rel, items, (depth - 1) as nat);
                    (seq![directory_entry_view(rel, mode, mtime)] + below.0, below.1)
                },
                Err(e) => (seq![directory_entry_view(rel, mode, mtime)], seq![collect_error_text(rel, e)]),
            },
            OutcomeView::File(mode, mtime, content) => match content {
                Ok(c) => (seq![file_entry_view(rel, c, mode, mtime)], Seq::empty()),
                Err(e) => (Seq::empty(), seq![collect_error_text(rel, e)]),
            },
        }
    }
}

/// What collecting the children `items` of directory `rel` gives, in order.
pub open spec fn collected_children(fs: spec_fn(Seq<char>) -> OutcomeView, rel: Seq<char>, items: Seq<Seq<char>>, depth: nat)
    -> (Seq<TarEntryView>, Seq<Seq<char>>)
    decreases depth, 1nat, items.len(),
{
    if items.len() == 0 {
        (Seq::empty(), Seq::empty())
    } else {
        let first = collected(fs, relative_joined(rel, items[0]), depth);
        let rest = collected_children(fs, rel, items.skip(1), depth);
        (first.0 + rest.0, first.1 + rest.1)
    }
}

/// Whether the tree at `rel` is at most `depth` levels deep.
pub open spec fn tree_within(fs: spec_fn(Seq<char>) -> OutcomeView, rel: Seq<char>, depth: nat) -> bool
    decreases depth, 0nat, 0nat,
{
    depth > 0 && match fs(rel) {
        OutcomeView::Directory(_, _, Ok(items)) => children_within(fs, rel, items, (depth - 1) as nat),
        _ => true,
    }
}

/// Whether the trees of the children `items` of `rel` are at most `depth` deep.
pub open spec fn children_within(fs: spec_fn(Seq<char>) -> OutcomeView, rel: Seq<char>, items: Seq<Seq<char>>, depth: nat) -> bool
    decreases depth, 1nat, items.len(),
{
    items.len() == 0 || (tree_within(fs, relative_joined(rel, items[0]), depth)
        && children_within(fs, rel, items.skip(1), depth))
}

/// The number of paths the walk visits in the tree at `rel`.
pub open spec fn tree_visits(fs: spec_fn(Seq<char>) -> OutcomeView, rel: Seq<char>, depth: nat) -> nat
    decreases depth, 0nat, 0nat,
{
    if depth == 0 {
        0
    } else {
        1 + match fs(rel) {
            OutcomeView::Directory(_, _, Ok(items)) => children_visits(fs, rel, items, (depth - 1) as nat),
            _ => 0,
        }
    }
}

/// The number of paths the walk visits in the trees of the children `items`.
pub open spec fn children_visits(fs: spec_fn(Seq<char>) -> OutcomeView, rel: Seq<char>, items: Seq<Seq<char>>, depth: nat) -> nat
    decreases depth, 1nat, items.len(),
{
    if items.len() == 0 {
        0
    } else {
        tree_visits(fs, relative_joined(rel, items[0]), depth) + children_visits(fs, rel, items.skip(1), depth)
    }
}

/// `w` with members and errors `c` appended.
pub open spec fn walk_append(w: WalkView, c: (Seq<TarEntryView>, Seq<Seq<char>>)) -> WalkView {
    WalkView { entries: w.entries + c.0, errors: w.errors + c.1, ..w }
}

proof fn lemma_walk_tree(fs: spec_fn(Seq<char>) -> OutcomeView, rel: Seq<char>, depth: nat, w: WalkView, k: nat)
    requires
        tree_within(fs, rel, depth),
    ensures
        walk_run(fs, WalkView { pending: w.pending.push(rel), ..w }, tree_visits(fs, rel, depth) + k)
            == walk_run(fs, walk_append(w, collected(fs, rel, depth)), k),
    decreases depth, 0nat, 0nat,
{
    let start = WalkView { pending: w.pending.push(rel), ..w };
    let popped = WalkView { pending: start.pending.drop_last(), ..start };
    assert(popped =~= w);
    let n = tree_visits(fs, rel, depth) + k;
    assert(start.pending.last() == rel);
    assert(walk_run(fs, start, n) == walk_run(fs, walk_record(w, rel, fs(rel)), (n - 1) as nat));
    let e = Seq::<TarEntryView>::empty();
    let no = Seq::<Seq<char>>::empty();
    match fs(rel) {
        OutcomeView::Directory(mode, mtime, listing) => {
            match listing {
                Ok(items) => {
                    let below = collected_children(fs, rel, items, (depth - 1) as nat);
                    let wd = WalkView { entries: w.entries.push(directory_entry_view(rel, mode, mtime)), ..w };
                    lemma_walk_children(fs, rel, items, (depth - 1) as nat, wd, k);
                    assert(walk_record(w, rel, fs(rel)) =~= WalkView { pending: wd.pending + children_to_visit(rel, items), ..wd });
                    assert(walk_append(wd, below) =~= walk_append(w, collected(fs, rel, depth)));
                },
                Err(msg) => {
                    assert(walk_record(w, rel, fs(rel)) =~= walk_append(w, collected(fs, rel, depth)));
                },
            }
        },
        OutcomeView::File(mode, mtime, content) => {
            assert(walk_record(w, rel, fs(rel)) =~= walk_append(w, collected(fs, rel, depth)));
        },
        OutcomeView::StatFailed(msg) => {
            assert(walk_record(w, rel, fs(rel)) =~= walk_append(w, collected(fs, rel, depth)));
        },
        _ => {
            assert(w.entries + e =~= w.entries);
            assert(w.errors + no =~= w.errors);
            assert(walk_record(w, rel, fs(rel)) =~= walk_append(w, collected(fs, rel, depth)));
        },
    }
}

proof fn lemma_walk_children(fs: spec_fn(Seq<char>) -> OutcomeView, rel: Seq<char>, items: Seq<Seq<char>>, depth: nat, w: WalkView, k: nat)
    requires
        children_within(fs, rel, items, depth),
    ensures
        walk_run(fs, WalkView { pending: w.pending + children_to_visit(rel, items), ..w },
            children_visits(fs, rel, items, depth) + k)
            == walk_run(fs, walk_append(w, collected_children(fs, rel, items, depth)), k),
    decreases depth, 1nat, items.len(),
{
    if items.len() == 0 {
        assert(WalkView { pending: w.pending + children_to_visit(rel, items), ..w } =~= w);
        assert(walk_append(w, collected_children(fs, rel, items, depth)) =~= w);
    } else {
        let rest = items.skip(1);
        let child = relative_joined(rel, items[0]);
        let first = collected(fs, child, depth);
        let wa = WalkView { pending: w.pending + children_to_visit(rel, rest), ..w };
        assert(WalkView { pending: w.pending + children_to_visit(rel, items), ..w }
            =~= WalkView { pending: wa.pending.push(child), ..wa });
        lemma_walk_tree(fs, child, depth, wa, children_visits(fs, rel, rest, depth) + k);
        let w1 = walk_append(w, first);
        lemma_walk_children(fs, rel, rest, depth, w1, k);
        assert(walk_append(wa, first) =~= WalkView { pending: w1.pending + children_to_visit(rel, rest), ..w1 });
        assert(walk_append(w1, collected_children(fs, rel, rest, depth))
            =~= walk_append(w, collected_children(fs, rel, items, depth)));
    }
}

/// Driving a walk (`next_path`, then `record` of what the filesystem says
/// of that path) until nothing is left to visit collects the same members
/// and errors, in the same order, as the recursive collection: the tree in
/// pre-order, children in listing order, excluded paths skipped and a
/// failed path ending its branch with an error line.
pub proof fn collect_walk_is_preorder(fs: spec_fn(Seq<char>) -> OutcomeView, rel: Seq<char>, depth: nat)
    requires
        tree_within(fs, rel, depth),
    ensures
        walk_run(fs, walk_start(rel), tree_visits(fs, rel, depth)) == (WalkView {
            pending: Seq::empty(),
            entries: collected(fs, rel, depth).0,
            errors: collected(fs, rel, depth).1,
        }),
{
    let empty = WalkView { pending: Seq::empty(), entries: Seq::empty(), errors: Seq::empty() };
    lemma_walk_tree(fs, rel, depth, empty, 0);
    assert(WalkView { pending: empty.pending.push(rel), ..empty } =~= walk_start(rel));
    assert(walk_append(empty, collected(fs, rel, depth)) =~= (WalkView {
        pending: Seq::empty(),
        entries: collected(fs, rel, depth).0,
        errors: collected(fs, rel, depth).1,
    }));
}

/// The part of `p` after its last `/` (all of `p` when it has none).
pub open spec fn path_basename(p: Seq<char>) -> Seq<char>
    decreases p.len(),
{
    if p.len() == 0 || p.last() == '/' {
        Seq::empty()
    } else {
        path_basename(p.drop_last()).push(p.last())
    }
}

/// The part of `path` after its last `/`.
pub fn basename_of(path: &str) -> (r: String)
    ensures
        r@ == path_basename(path@),
{
    let c = chars_of(path);
    let mut start: usize = c.len();
    assert(c@.take(c.len() as int) =~= c@);
    assert(c@.skip(start as int) =~= Seq::<char>::empty());
    while start > 0 && c[start - 1] != '/'
        invariant
            start <= c.len(),
            path@ == c@,
            path_basename(c@) == path_basename(c@.take(start as int)) + c@.skip(start as int),
        decreases start,
    {
        let ghost t = c@.take(start as int);
        assert(t.drop_last() =~= c@.take(start - 1));
        assert(c@.skip(start - 1) =~= seq![t.last()] + c@.skip(start as int));
        start = start - 1;
    }
    proof {
        let t = c@.take(start as int);
        assert(path_basename(t) =~= Seq::<char>::empty());
    }
    string_of(c.as_slice().split_at(start).1)
}

/// `pattern` with a `/` after it: the form that `--exclude` also tries,
/// so that a directory pattern excludes what lies below it.
pub fn pattern_with_slash(pattern: &str) -> (r: String)
    ensures
        r@ == pattern@.push('/'),
{
    let mut r = string_from(pattern);
    push_char(&mut r, '/');
    r
}

/// What the shell glob matcher answers for one `--exclude` pattern and
/// one path: whether the pattern matches the path, whether the pattern
/// with a `/` after it matches the path, and whether the pattern matches
/// the path's basename.
#[derive(Clone, Copy)]
pub struct ExcludeGlobs {
    pub path: bool,
    pub path_with_slash: bool,
    pub basename: bool,
}

/// Whether `pattern` excludes `path`: it matches the path as a glob, or
/// with a `/` after it (as a glob, or as a plain prefix of the path), or,
/// when it has no `/`, it matches the basename.
pub open spec fn excluded_by(path: Seq<char>, pattern: Seq<char>, g: ExcludeGlobs) -> bool {
    ||| g.path
    ||| g.path_with_slash
    ||| (path.len() > pattern.len() && path.take(pattern.len() + 1int) == pattern.push('/'))
    ||| (!pattern.contains('/') && g.basename)
}

/// Whether one of `patterns` (with the glob answers `globs`, one for each)
/// excludes `path`.
pub open spec fn excluded(path: Seq<char>, patterns: Seq<Seq<char>>, globs: Seq<ExcludeGlobs>) -> bool {
    exists|i: int| 0 <= i < patterns.len() && excluded_by(path, patterns[i], #[trigger] globs[i])
}

/// Whether `path` matches one of the `--exclude` patterns, from the glob
/// matcher's answers for each pattern (`globs[i]` is for `patterns[i]`).
pub fn matches_exclude(path: &str, patterns: &[String], globs: &[ExcludeGlobs]) -> (r: bool)
    requires
        globs.len() == patterns.len(),
    ensures
        r == excluded(path@, views_of(patterns@), globs@),
{
    let pc = chars_of(path);
    let mut i: usize = 0;
    while i < patterns.len()
        invariant
            i <= patterns.len(),
            globs.len() == patterns.len(),
            pc@ == path@,
            forall|k: int| 0 <= k < i ==> !excluded_by(path@, views_of(patterns@)[k], #[trigger] globs@[k]),
        decreases patterns.len() - i,
    {
        let g = &globs[i];
        let pat = chars_of(patterns[i].as_str());
        assert(views_of(patterns@)[i as int] == pat@);
        let mut has_slash = false;
        let mut k: usize = 0;
        while k < pat.len()
            invariant
                k <= pat.len(),
                has_slash == exists|m: int| 0 <= m < k && pat@[m] == '/',
            decreases pat.len() - k,
        {
            if pat[k] == '/' {
                has_slash = true;
            }
            k = k + 1;
        }
        assert(has_slash == pat@.contains('/'));
        let with_slash = pattern_with_slash(patterns[i].as_str());
        let ws = chars_of(with_slash.as_str());
        let prefix = pc.len() > pat.len() && chars_start_with(pc.as_slice(), ws.as_slice());
        if g.path || g.path_with_slash || prefix || (!has_slash && g.basename) {
            assert(excluded_by(path@, views_of(patterns@)[i as int], globs@[i as int]));
            return true;
        }
        i = i + 1;
    }
    false
}

/// Whether `y` is a Gregorian leap year: every fourth year, except the
/// century years not divisible by 400.
pub open spec fn gregorian_leap(y: int) -> bool {
    (y % 4 == 0 && y % 100 != 0) || y % 400 == 0
}

/// The days of a year before month `m` (0-based; 12 gives the whole year),
/// from the Gregorian month lengths 31, 28 or 29, 31, 30, 31, 30, 31, 31,
/// 30, 31, 30, 31.
pub open spec fn days_before_month(m: int, leap: bool) -> int {
    let l: int = if leap { 1 } else { 0 };
    if m <= 0 { 0 }
    else if m == 1 { 31 }
    else if m == 2 { 59 + l }
    else if m == 3 { 90 + l }
    else if m == 4 { 120 + l }
    else if m == 5 { 151 + l }
    else if m == 6 { 181 + l }
    else if m == 7 { 212 + l }
    else if m == 8 { 243 + l }
    else if m == 9 { 273 + l }
    else if m == 10 { 304 + l }
    else if m == 11 { 334 + l }
    else { 365 + l }
}

/// The days from 1970-01-01 to January 1st of year `y`.
pub open spec fn days_before_year(y: int) -> int
    decreases y - 1970,
{
    if y <= 1970 {
        0
    } else {
        days_before_year(y - 1) + (if gregorian_leap(y - 1) { 366int } else { 365int })
    }
}

proof fn lemma_days_before_year_monotone(a: int, b: int)
    requires
        1970 <= a <= b,
    ensures
        days_before_year(a) <= days_before_year(b),
    decreases b - a,
{
    if a < b {
        lemma_days_before_year_monotone(a, b - 1);
    }
}

proof fn lemma_year_of_day_at(y0: int, y: int, r: int)
    requires
        1970 <= y0 <= y,
        0 <= r < days_before_month(12, gregorian_leap(y)),
    ensures
        year_of_day(y0, days_before_year(y) - days_before_year(y0) + r) == (y, r),
    decreases y - y0,
{
    if y0 < y {
        lemma_days_before_year_monotone(y0 + 1, y);
        assert(days_before_year(y0 + 1) == days_before_year(y0) + days_in_year(y0));
        lemma_year_of_day_at(y0 + 1, y, r);
        let x = days_before_year(y) - days_before_year(y0) + r;
        assert(x - days_in_year(y0) == days_before_year(y) - days_before_year(y0 + 1) + r);
    } else {
        assert(days_in_year(y) == days_before_month(12, gregorian_leap(y)));
    }
}

proof fn lemma_month_lengths(i: int, leap: bool)
    requires
        0 <= i < 12,
    ensures
        month_length(i, leap) == days_before_month(i + 1, leap) - days_before_month(i, leap),
        days_before_month(i, leap) < days_before_month(i + 1, leap),
{
}

proof fn lemma_days_before_month_monotone(i: int, j: int, leap: bool)
    requires
        0 <= i <= j <= 12,
    ensures
        days_before_month(i, leap) <= days_before_month(j, leap),
    decreases j - i,
{
    if i < j {
        lemma_days_before_month_monotone(i, j - 1, leap);
        lemma_month_lengths(j - 1, leap);
    }
}

proof fn lemma_month_of_day_at(m: int, d: int, leap: bool, i: int)
    requires
        0 <= i <= m < 12,
        0 <= d < days_before_month(m + 1, leap) - days_before_month(m, leap),
    ensures
        month_of_day(days_before_month(m, leap) - days_before_month(i, leap) + d, leap, i) == (m, d),
    decreases m - i,
{
    lemma_month_lengths(i, leap);
    if i < m {
        lemma_days_before_month_monotone(i + 1, m, leap);
        lemma_month_of_day_at(m, d, leap, i + 1);
    }
}

/// `format_mtime` follows the Gregorian calendar in UTC: the second
/// `sec` of minute `mi` of hour `h` of day `d` (0-based) of month `m`
/// (0-based) of year `y` is shown as `y-(m+1)-(d+1) h:mi`, each part
/// zero-padded (the first second of every month shows day 01).
pub proof fn format_mtime_follows_calendar(y: int, m: int, d: int, h: int, mi: int, sec: int)
    requires
        1970 <= y,
        0 <= m < 12,
        0 <= d < days_before_month(m + 1, gregorian_leap(y)) - days_before_month(m, gregorian_leap(y)),
        0 <= h < 24,
        0 <= mi < 60,
        0 <= sec < 60,
    ensures
        mtime_text(((days_before_year(y) + days_before_month(m, gregorian_leap(y)) + d) * 86400
            + h * 3600 + mi * 60 + sec) as nat)
            == pad_left(decimal(y as nat), 4, '0') + seq!['-'] + pad_left(decimal((m + 1) as nat), 2, '0')
                + seq!['-'] + pad_left(decimal((d + 1) as nat), 2, '0') + seq![' ']
                + pad_left(decimal(h as nat), 2, '0') + seq![':'] + pad_left(decimal(mi as nat), 2, '0'),
{
    let leap = gregorian_leap(y);
    let r = days_before_month(m, leap) + d;
    let days = days_before_year(y) + r;
    lemma_days_before_year_monotone(1970, y);
    lemma_days_before_month_monotone(m + 1, 12, leap);
    assert(0 <= r < days_before_month(12, leap));
    let tod = h * 3600 + mi * 60 + sec;
    let t = days * 86400 + tod;
    assert(0 <= tod < 86400);
    assert(t / 86400 == days && t % 86400 == tod) by (nonlinear_arith)
        requires
            t == days * 86400 + tod,
            0 <= tod < 86400,
            days >= 0,
    ;
    assert(tod / 3600 == h && (tod % 3600) / 60 == mi) by (nonlinear_arith)
        requires
            tod == h * 3600 + mi * 60 + sec,
            0 <= mi < 60,
            0 <= sec < 60,
            0 <= h,
    ;
    lemma_year_of_day_at(1970, y, r);
    assert(days_before_year(1970) == 0);
    assert(leap_year(y) == leap);
    lemma_month_of_day_at(m, d, leap, 0);
}

} // verus!
