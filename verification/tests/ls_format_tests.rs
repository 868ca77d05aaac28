use just_bash::ls_format::{format_mode, format_time_at};

#[test]
fn ls_format_mode_types() {
    assert_eq!(format_mode(0o777, false, true), "lrwxrwxrwx");
    assert_eq!(format_mode(0o700, true, false), "drwx------");
    assert_eq!(format_mode(0o640, false, false), "-rw-r-----");
}

#[test]
fn ls_time_recent_and_old() {
    let now = 1_700_000_000u64;
    // recent: within six months
    let recent = now - 3600;
    let days = recent / 86400;
    let doy = days % 365;
    let month = ["Jan", "Feb", "Mar", "Apr", "May", "Jun", "Jul", "Aug", "Sep", "Oct", "Nov", "Dec"]
        [std::cmp::min(doy / 30, 11) as usize];
    let expected = format!("{} {:>2} {:02}:{:02}", month, doy % 30 + 1, (recent % 86400) / 3600, (recent % 3600) / 60);
    assert_eq!(format_time_at(recent, now), expected);
    assert_eq!(format_time_at(0, now), "Jan  1  1970");
    assert_eq!(format_time_at(86400 * 40, now), "Feb 11  1970");
    assert_eq!(format_time_at(86400 * 364 + 5 * 3600 + 7 * 60, 0), "Dec  5 05:07");
}
