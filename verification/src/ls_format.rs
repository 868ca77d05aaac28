//! Long listing formatting (`ls -l`).
use vstd::prelude::*;
use crate::tar_helpers::{permission_chars, push_permissions};
use crate::text::{decimal, pad_left, push_char, push_decimal_padded, push_str_chars};

verus! {

/// The type character and permissions of an entry, as `ls -l` shows them.
pub fn format_mode(mode: u32, is_dir: bool, is_link: bool) -> (r: String)
    ensures
        r@ == seq![if is_link { 'l' } else if is_dir { 'd' } else { '-' }] + permission_chars(mode),
{
    let file_type = if is_link {
        'l'
    } else if is_dir {
        'd'
    } else {
        '-'
    };
    let mut s = String::new();
    push_char(&mut s, file_type);
    push_permissions(&mut s, mode);
    s
}

/// The three-letter name of month `m` (0-based, at most 11).
pub open spec fn month_name(m: int) -> Seq<char> {
    if m == 0 { "Jan"@ } else if m == 1 { "Feb"@ } else if m == 2 { "Mar"@ } else if m == 3 { "Apr"@ }
    else if m == 4 { "May"@ } else if m == 5 { "Jun"@ } else if m == 6 { "Jul"@ } else if m == 7 { "Aug"@ }
    else if m == 8 { "Sep"@ } else if m == 9 { "Oct"@ } else if m == 10 { "Nov"@ } else { "Dec"@ }
}

fn month_name_of(m: u64) -> (r: &'static str)
    ensures
        r@ == month_name(m as int),
{
    if m == 0 { "Jan" } else if m == 1 { "Feb" } else if m == 2 { "Mar" } else if m == 3 { "Apr" }
    else if m == 4 { "May" } else if m == 5 { "Jun" } else if m == 6 { "Jul" } else if m == 7 { "Aug" }
    else if m == 8 { "Sep" } else if m == 9 { "Oct" } else if m == 10 { "Nov" } else { "Dec" }
}

/// The modification-time column of `ls -l` for an entry modified `secs`
/// seconds after the epoch, at `now_secs`: month and day, then the time of
/// day for entries of the last six months and the year for older ones.
/// Months are approximated as 30 days and years as 365.
pub open spec fn mtime_column(secs: nat, now_secs: nat) -> Seq<char> {
    let days = secs / 86400;
    let year = 1970 + days / 365;
    let day_of_year = days % 365;
    let month = if day_of_year / 30 < 11 { day_of_year / 30 } else { 11 };
    let day = day_of_year % 30 + 1;
    let tod = secs % 86400;
    let hour = tod / 3600;
    let minute = (tod % 3600) / 60;
    let six_months_ago: int = if now_secs >= 180 * 86400 { now_secs - 180 * 86400 } else { 0 };
    if secs > six_months_ago {
        month_name(month as int) + seq![' '] + pad_left(decimal(day), 2, ' ') + seq![' ']
            + pad_left(decimal(hour), 2, '0') + seq![':'] + pad_left(decimal(minute), 2, '0')
    } else {
        month_name(month as int) + seq![' '] + pad_left(decimal(day), 2, ' ') + seq![' ', ' ']
            + decimal(year as nat)
    }
}

/// The modification-time column of `ls -l` (see `mtime_column`). The year
/// is an `i32` in the listing, so timestamps whose year does not fit are
/// outside its range.
pub fn format_time_at(secs: u64, now_secs: u64) -> (r: String)
    requires
        secs / 86400 / 365 <= 2147483647 - 1970,
    ensures
        r@ == mtime_column(secs as nat, now_secs as nat),
{
    let days_since_epoch = secs / 86400;
    let year: i32 = 1970 + (days_since_epoch / 365) as i32;
    let day_of_year = days_since_epoch % 365;
    let month = if day_of_year / 30 < 11 { day_of_year / 30 } else { 11 };
    let day = (day_of_year % 30) + 1;
    let time_of_day = secs % 86400;
    let hour = time_of_day / 3600;
    let minute = (time_of_day % 3600) / 60;
    let six_months_ago = now_secs.saturating_sub(180 * 86400);

    let mut s = String::new();
    push_str_chars(&mut s, month_name_of(month));
    push_char(&mut s, ' ');
    push_decimal_padded(&mut s, day, 2, ' ');
    push_char(&mut s, ' ');
    if secs > six_months_ago {
        push_decimal_padded(&mut s, hour, 2, '0');
        push_char(&mut s, ':');
        push_decimal_padded(&mut s, minute, 2, '0');
    } else {
        push_char(&mut s, ' ');
        push_decimal_padded(&mut s, year as u64, 0, '0');
        assert(pad_left(decimal(year as nat), 0, '0') == decimal(year as nat));
    }
    s
}

} // verus!
