//! Shared argument and flag handling for external commands.
use vstd::prelude::*;
use crate::text::{chars_eq, chars_of, push_char, push_str_chars};

verus! {

/// The characters of `--help`.
pub open spec fn help_flag() -> Seq<char> {
    seq!['-', '-', 'h', 'e', 'l', 'p']
}

/// Whether `a` is exactly `--help`.
pub fn is_help_flag(a: &str) -> (r: bool)
    ensures
        r == (a@ == help_flag()),
{
    let v = chars_of(a);
    let flag = ['-', '-', 'h', 'e', 'l', 'p'];
    assert(flag@ =~= help_flag());
    chars_eq(v.as_slice(), flag.as_slice())
}

/// True if any argument is exactly `--help` (common GNU-style idiom).
pub fn wants_help(args: &[String]) -> (r: bool)
    ensures
        r == exists|i: int| 0 <= i < args@.len() && #[trigger] args@[i]@ == help_flag(),
{
    let mut i: usize = 0;
    while i < args.len()
        invariant
            i <= args.len(),
            forall|j: int| 0 <= j < i ==> #[trigger] args@[j]@ != help_flag(),
        decreases args.len() - i,
    {
        if is_help_flag(args[i].as_str()) {
            return true;
        }
        i = i + 1;
    }
    false
}

/// The message of `invalid_option_line`: `{cmd}: invalid option -- '{flag}'`.
pub open spec fn invalid_option_text(cmd: Seq<char>, flag: Seq<char>) -> Seq<char> {
    cmd + seq![':', ' ', 'i', 'n', 'v', 'a', 'l', 'i', 'd', ' ', 'o', 'p', 't', 'i', 'o', 'n', ' ', '-', '-', ' ', '\'']
        + flag + seq!['\'']
}

/// Same as [`invalid_option`] but **no** trailing newline (for layering: `format!("{}\n", msg)` or `Err(msg)`).
pub fn invalid_option_line(cmd: &str, bad_flag: &str) -> (r: String)
    ensures
        r@ == invalid_option_text(cmd@, bad_flag@),
{
    let mut r = String::new();
    push_str_chars(&mut r, cmd);
    let middle = ": invalid option -- '";
    proof {
        reveal_strlit(": invalid option -- '");
    }
    push_str_chars(&mut r, middle);
    push_str_chars(&mut r, bad_flag);
    push_char(&mut r, '\'');
    assert(r@ =~= invalid_option_text(cmd@, bad_flag@));
    r
}

/// POSIX / GNU style: `{cmd}: invalid option -- '{flag}'\n`
pub fn invalid_option(cmd: &str, bad_flag: &str) -> (r: String)
    ensures
        r@ == invalid_option_text(cmd@, bad_flag@).push('\n'),
{
    let mut r = invalid_option_line(cmd, bad_flag);
    push_char(&mut r, '\n');
    r
}

/// If no file operands were parsed, default to stdin (`-`).
pub fn files_or_stdin(files: Vec<String>) -> (r: Vec<String>)
    ensures
        files@.len() == 0 ==> r@.len() == 1 && r@[0]@ == seq!['-'],
        files@.len() > 0 ==> r@ == files@,
{
    if files.len() == 0 {
        let mut dash = String::new();
        push_char(&mut dash, '-');
        let mut r: Vec<String> = Vec::new();
        r.push(dash);
        r
    } else {
        files
    }
}

} // verus!
