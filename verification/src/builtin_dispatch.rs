//! Builtin command dispatch.
//!
//! Decides which built-in shell command a command name selects, and answers
//! the stub builtins (`type`, `command -v`, `source`, `eval`, ...) directly.
//! The caller performs the chosen handler or recursive command run.
use vstd::prelude::*;
use crate::text::{
    chars_eq_str, chars_of, list_contains, push_str_chars, push_string, str_eq, string_from,
    views_of,
};

verus! {

/// The outcome of a command: its output, error output and exit status.
pub struct ExecResult {
    pub stdout: String,
    pub stderr: String,
    pub exit_code: i32,
}

impl ExecResult {
    /// A result with the given output, error output and status.
    pub fn new(stdout: String, stderr: String, exit_code: i32) -> (r: ExecResult)
        ensures
            r.stdout == stdout,
            r.stderr == stderr,
            r.exit_code == exit_code,
    {
        ExecResult { stdout, stderr, exit_code }
    }

    /// Success with no output.
    pub fn ok() -> (r: ExecResult)
        ensures
            r.stdout@ == Seq::<char>::empty(),
            r.stderr@ == Seq::<char>::empty(),
            r.exit_code == 0,
    {
        ExecResult { stdout: String::new(), stderr: String::new(), exit_code: 0 }
    }

    /// Failure (status 1) with the given error output.
    pub fn failure(message: String) -> (r: ExecResult)
        ensures
            r.stdout@ == Seq::<char>::empty(),
            r.stderr == message,
            r.exit_code == 1,
    {
        ExecResult { stdout: String::new(), stderr: message, exit_code: 1 }
    }
}

/// The builtins whose work is done by a dedicated handler of the interpreter.
#[derive(PartialEq, Eq, Structural, Clone, Copy, Debug)]
pub enum BuiltinHandler {
    Export,
    Exit,
    SetOptions,
    Break,
    Continue,
    Return,
    Shift,
    Shopt,
    Help,
    Unset,
    Local,
    Getopts,
    Compgen,
    Complete,
    Compopt,
    Pushd,
    Popd,
    Dirs,
    Read,
    Mapfile,
    Declare,
    Readonly,
    Cd,
    Let,
    Hash,
}

/// What the dispatcher decided for a builtin command.
pub enum BuiltinAction {
    /// Call the interpreter's handler for this builtin with the arguments.
    Handler(BuiltinHandler),
    /// The builtin's result, already computed.
    Done(ExecResult),
    /// Run `command` with `args` through the interpreter's command runner.
    Run { command: String, args: Vec<String>, skip_functions: bool, use_default_path: bool },
}

/// The interpreter state that builtin dispatch reads.
pub struct BuiltinDispatchContext {
    /// Whether the shell runs in POSIX mode.
    pub posix: bool,
    /// The names of the defined shell functions.
    pub functions: Vec<String>,
    /// The defined aliases as (name, value) pairs, when alias support is on.
    pub aliases: Option<Vec<(String, String)>>,
    /// The names of the shell builtins.
    pub builtins: Vec<String>,
}

impl BuiltinDispatchContext {
    /// The shell keeps its functions, aliases and builtins in maps keyed by
    /// name: no name occurs twice in any of the three lists.
    pub open spec fn well_formed(&self) -> bool {
        &&& views_of(self.functions@).no_duplicates()
        &&& views_of(self.builtins@).no_duplicates()
        &&& match alias_pairs(self.aliases) {
            Some(pairs) => pairs.map_values(|p: (Seq<char>, Seq<char>)| p.0).no_duplicates(),
            None => true,
        }
    }
}

/// A dispatch decision over plain values.
pub enum ActionSpec {
    Handler(BuiltinHandler),
    Done(Seq<char>, Seq<char>, i32),
    Run(Seq<char>, Seq<Seq<char>>, bool, bool),
}

/// The decision that an action stands for.
pub open spec fn action_view(a: BuiltinAction) -> ActionSpec {
    match a {
        BuiltinAction::Handler(h) => ActionSpec::Handler(h),
        BuiltinAction::Done(r) => ActionSpec::Done(r.stdout@, r.stderr@, r.exit_code),
        BuiltinAction::Run { command, args, skip_functions, use_default_path } =>
            ActionSpec::Run(command@, views_of(args@), skip_functions, use_default_path),
    }
}

/// Success with no output.
pub open spec fn done_ok() -> ActionSpec {
    ActionSpec::Done(Seq::empty(), Seq::empty(), 0)
}

/// The special builtins, which functions cannot override, and their handlers.
pub open spec fn special_handler(name: Seq<char>) -> Option<BuiltinHandler> {
    if name == "export"@ { Some(BuiltinHandler::Export) }
    else if name == "exit"@ { Some(BuiltinHandler::Exit) }
    else if name == "set"@ { Some(BuiltinHandler::SetOptions) }
    else if name == "break"@ { Some(BuiltinHandler::Break) }
    else if name == "continue"@ { Some(BuiltinHandler::Continue) }
    else if name == "return"@ { Some(BuiltinHandler::Return) }
    else if name == "shift"@ { Some(BuiltinHandler::Shift) }
    else if name == "shopt"@ { Some(BuiltinHandler::Shopt) }
    else if name == "help"@ { Some(BuiltinHandler::Help) }
    else if name == "unset"@ { Some(BuiltinHandler::Unset) }
    else if name == "local"@ { Some(BuiltinHandler::Local) }
    else if name == "getopts"@ { Some(BuiltinHandler::Getopts) }
    else if name == "compgen"@ { Some(BuiltinHandler::Compgen) }
    else if name == "complete"@ { Some(BuiltinHandler::Complete) }
    else if name == "compopt"@ { Some(BuiltinHandler::Compopt) }
    else if name == "pushd"@ { Some(BuiltinHandler::Pushd) }
    else if name == "popd"@ { Some(BuiltinHandler::Popd) }
    else if name == "dirs"@ { Some(BuiltinHandler::Dirs) }
    else if name == "read"@ { Some(BuiltinHandler::Read) }
    else if name == "mapfile"@ || name == "readarray"@ { Some(BuiltinHandler::Mapfile) }
    else if name == "declare"@ || name == "typeset"@ { Some(BuiltinHandler::Declare) }
    else if name == "readonly"@ { Some(BuiltinHandler::Readonly) }
    else { None }
}

/// The overridable builtins that have a handler.
pub open spec fn simple_handler(name: Seq<char>) -> Option<BuiltinHandler> {
    if name == "cd"@ { Some(BuiltinHandler::Cd) }
    else if name == "let"@ { Some(BuiltinHandler::Let) }
    else if name == "hash"@ { Some(BuiltinHandler::Hash) }
    else { None }
}

fn special_handler_of(name: &[char]) -> (r: Option<BuiltinHandler>)
    ensures
        r == special_handler(name@),
{
    if chars_eq_str(name, "export") { Some(BuiltinHandler::Export) }
    else if chars_eq_str(name, "exit") { Some(BuiltinHandler::Exit) }
    else if chars_eq_str(name, "set") { Some(BuiltinHandler::SetOptions) }
    else if chars_eq_str(name, "break") { Some(BuiltinHandler::Break) }
    else if chars_eq_str(name, "continue") { Some(BuiltinHandler::Continue) }
    else if chars_eq_str(name, "return") { Some(BuiltinHandler::Return) }
    else if chars_eq_str(name, "shift") { Some(BuiltinHandler::Shift) }
    else if chars_eq_str(name, "shopt") { Some(BuiltinHandler::Shopt) }
    else if chars_eq_str(name, "help") { Some(BuiltinHandler::Help) }
    else if chars_eq_str(name, "unset") { Some(BuiltinHandler::Unset) }
    else if chars_eq_str(name, "local") { Some(BuiltinHandler::Local) }
    else if chars_eq_str(name, "getopts") { Some(BuiltinHandler::Getopts) }
    else if chars_eq_str(name, "compgen") { Some(BuiltinHandler::Compgen) }
    else if chars_eq_str(name, "complete") { Some(BuiltinHandler::Complete) }
    else if chars_eq_str(name, "compopt") { Some(BuiltinHandler::Compopt) }
    else if chars_eq_str(name, "pushd") { Some(BuiltinHandler::Pushd) }
    else if chars_eq_str(name, "popd") { Some(BuiltinHandler::Popd) }
    else if chars_eq_str(name, "dirs") { Some(BuiltinHandler::Dirs) }
    else if chars_eq_str(name, "read") { Some(BuiltinHandler::Read) }
    else if chars_eq_str(name, "mapfile") || chars_eq_str(name, "readarray") { Some(BuiltinHandler::Mapfile) }
    else if chars_eq_str(name, "declare") || chars_eq_str(name, "typeset") { Some(BuiltinHandler::Declare) }
    else if chars_eq_str(name, "readonly") { Some(BuiltinHandler::Readonly) }
    else { None }
}

fn simple_handler_of(name: &[char]) -> (r: Option<BuiltinHandler>)
    ensures
        r == simple_handler(name@),
{
    if chars_eq_str(name, "cd") { Some(BuiltinHandler::Cd) }
    else if chars_eq_str(name, "let") { Some(BuiltinHandler::Let) }
    else if chars_eq_str(name, "hash") { Some(BuiltinHandler::Hash) }
    else { None }
}

/// The defined aliases as pairs of character sequences.
pub open spec fn alias_pairs(a: Option<Vec<(String, String)>>) -> Option<Seq<(Seq<char>, Seq<char>)>> {
    match a {
        Some(v) => Some(v@.map_values(|p: (String, String)| (p.0@, p.1@))),
        None => None,
    }
}

/// The value of the first alias named `name`.
pub open spec fn alias_value(pairs: Seq<(Seq<char>, Seq<char>)>, name: Seq<char>) -> Option<Seq<char>>
    decreases pairs.len(),
{
    if pairs.len() == 0 {
        None
    } else if pairs[0].0 == name {
        Some(pairs[0].1)
    } else {
        alias_value(pairs.skip(1), name)
    }
}

/// The alias named `name`, when aliases are supported and one is defined.
pub open spec fn lookup_alias(aliases: Option<Seq<(Seq<char>, Seq<char>)>>, name: Seq<char>) -> Option<Seq<char>> {
    match aliases {
        Some(pairs) => alias_value(pairs, name),
        None => None,
    }
}

/// The result of the `source` stub: it only insists on a filename.
pub open spec fn source_stub(args: Seq<Seq<char>>) -> ActionSpec {
    if args.len() == 0 {
        ActionSpec::Done(Seq::empty(), "bash: source: filename argument required\n"@, 1)
    } else {
        done_ok()
    }
}

/// What `command -v` / `command -V` prints for one name.
pub open spec fn command_v_line(name: Seq<char>, builtins: Seq<Seq<char>>, functions: Seq<Seq<char>>, verbose: bool) -> Seq<char> {
    if builtins.contains(name) {
        if verbose { name + " is a shell builtin\n"@ } else { name + "\n"@ }
    } else if functions.contains(name) {
        if verbose { name + " is a function\n"@ } else { name + "\n"@ }
    } else {
        Seq::empty()
    }
}

/// What `command -v` / `command -V` prints for all names.
pub open spec fn command_v_stdout(names: Seq<Seq<char>>, builtins: Seq<Seq<char>>, functions: Seq<Seq<char>>, verbose: bool) -> Seq<char>
    decreases names.len(),
{
    if names.len() == 0 {
        Seq::empty()
    } else {
        command_v_stdout(names.drop_last(), builtins, functions, verbose)
            + command_v_line(names.last(), builtins, functions, verbose)
    }
}

/// The status of `command -v`: 1 when some name is neither a builtin nor a function.
pub open spec fn command_v_status(names: Seq<Seq<char>>, builtins: Seq<Seq<char>>, functions: Seq<Seq<char>>) -> i32
    decreases names.len(),
{
    if names.len() == 0 {
        0
    } else if !builtins.contains(names.last()) && !functions.contains(names.last()) {
        1
    } else {
        command_v_status(names.drop_last(), builtins, functions)
    }
}

/// Whether an argument looks like an option (starts with `-`).
pub open spec fn is_option_like(a: Seq<char>) -> bool {
    a.len() > 0 && a[0] == '-'
}

/// What `type` prints for one name.
pub open spec fn type_line(name: Seq<char>, builtins: Seq<Seq<char>>, functions: Seq<Seq<char>>, aliases: Option<Seq<(Seq<char>, Seq<char>)>>) -> Seq<char> {
    if is_option_like(name) {
        Seq::empty()
    } else if builtins.contains(name) {
        name + " is a shell builtin\n"@
    } else if functions.contains(name) {
        name + " is a function\n"@
    } else {
        match lookup_alias(aliases, name) {
            Some(v) => name + " is aliased to `"@ + v + "'\n"@,
            None => "bash: type: "@ + name + ": not found\n"@,
        }
    }
}

/// Whether `type` fails on one name.
pub open spec fn type_unknown(name: Seq<char>, builtins: Seq<Seq<char>>, functions: Seq<Seq<char>>, aliases: Option<Seq<(Seq<char>, Seq<char>)>>) -> bool {
    !is_option_like(name) && !builtins.contains(name) && !functions.contains(name)
        && lookup_alias(aliases, name) is None
}

/// What `type` prints for all names.
pub open spec fn type_stdout(names: Seq<Seq<char>>, builtins: Seq<Seq<char>>, functions: Seq<Seq<char>>, aliases: Option<Seq<(Seq<char>, Seq<char>)>>) -> Seq<char>
    decreases names.len(),
{
    if names.len() == 0 {
        Seq::empty()
    } else {
        type_stdout(names.drop_last(), builtins, functions, aliases)
            + type_line(names.last(), builtins, functions, aliases)
    }
}

/// The status of `type`: 1 when some name is unknown.
pub open spec fn type_status(names: Seq<Seq<char>>, builtins: Seq<Seq<char>>, functions: Seq<Seq<char>>, aliases: Option<Seq<(Seq<char>, Seq<char>)>>) -> i32
    decreases names.len(),
{
    if names.len() == 0 {
        0
    } else if type_unknown(names.last(), builtins, functions, aliases) {
        1
    } else {
        type_status(names.drop_last(), builtins, functions, aliases)
    }
}

fn lookup_alias_of(aliases: &Option<Vec<(String, String)>>, name: &str) -> (r: Option<String>)
    ensures
        match r {
            Some(v) => lookup_alias(alias_pairs(*aliases), name@) == Some(v@),
            None => lookup_alias(alias_pairs(*aliases), name@) is None,
        },
{
    match aliases {
        None => None,
        Some(pairs) => {
            let ghost all = alias_pairs(*aliases)->0;
            let mut i: usize = 0;
            assert(all.skip(0) =~= all);
            while i < pairs.len()
                invariant
                    i <= pairs.len(),
                    all == pairs@.map_values(|p: (String, String)| (p.0@, p.1@)),
                    alias_pairs(*aliases) == Some(all),
                    alias_value(all, name@) == alias_value(all.skip(i as int), name@),
                decreases pairs.len() - i,
            {
                let ghost rest = all.skip(i as int);
                assert(rest[0] == (pairs@[i as int].0@, pairs@[i as int].1@));
                if str_eq(pairs[i].0.as_str(), name) {
                    assert(rest.len() > 0);
                    assert(alias_value(rest, name@) == Some(rest[0].1));
                    return Some(string_from(pairs[i].1.as_str()));
                }
                assert(rest.skip(1) =~= all.skip(i + 1));
                i = i + 1;
            }
            None
        },
    }
}

/// Answer `command -v` / `command -V` for `names`.
pub fn handle_command_v_stub(
    ctx: &BuiltinDispatchContext,
    names: &[String],
    show_path: bool,
    verbose_describe: bool,
) -> (r: ExecResult)
    requires
        ctx.well_formed(),
    ensures
        r.stdout@ == command_v_stdout(views_of(names@), views_of(ctx.builtins@), views_of(ctx.functions@), verbose_describe),
        r.stderr@ == Seq::<char>::empty(),
        r.exit_code == command_v_status(views_of(names@), views_of(ctx.builtins@), views_of(ctx.functions@)),
{
    let ghost b = views_of(ctx.builtins@);
    let ghost f = views_of(ctx.functions@);
    let ghost ns = views_of(names@);
    let mut stdout = String::new();
    let mut exit_code: i32 = 0;
    let mut i: usize = 0;
    while i < names.len()
        invariant
            i <= names.len(),
            b == views_of(ctx.builtins@),
            f == views_of(ctx.functions@),
            ns == views_of(names@),
            stdout@ == command_v_stdout(ns.take(i as int), b, f, verbose_describe),
            exit_code == command_v_status(ns.take(i as int), b, f),
        decreases names.len() - i,
    {
        let name = names[i].as_str();
        proof {
            assert(ns.take(i + 1).drop_last() =~= ns.take(i as int));
            assert(ns.take(i + 1).last() == name@);
        }
        if list_contains(ctx.builtins.as_slice(), name) {
            push_str_chars(&mut stdout, name);
            if verbose_describe {
                push_str_chars(&mut stdout, " is a shell builtin\n");
            } else {
                push_str_chars(&mut stdout, "\n");
            }
        } else if list_contains(ctx.functions.as_slice(), name) {
            push_str_chars(&mut stdout, name);
            if verbose_describe {
                push_str_chars(&mut stdout, " is a function\n");
            } else {
                push_str_chars(&mut stdout, "\n");
            }
        } else {
            exit_code = 1;
        }
        proof {
            assert(stdout@ =~= command_v_stdout(ns.take(i + 1), b, f, verbose_describe));
        }
        i = i + 1;
    }
    assert(ns.take(names.len() as int) =~= ns);
    let _ = show_path;
    ExecResult::new(stdout, String::new(), exit_code)
}

/// The `source` builtin, not wired to script execution: it only checks for
/// a filename argument.
pub fn handle_source_stub(args: &[String]) -> (r: ExecResult)
    ensures
        source_stub(views_of(args@)) == ActionSpec::Done(r.stdout@, r.stderr@, r.exit_code),
{
    if args.len() == 0 {
        return ExecResult::failure(string_from("bash: source: filename argument required\n"));
    }
    ExecResult::ok()
}

/// The `eval` builtin, not wired to script execution: it succeeds silently.
pub fn handle_eval_stub(args: &[String], stdin: &str) -> (r: ExecResult)
    ensures
        r.stdout@ == Seq::<char>::empty(),
        r.stderr@ == Seq::<char>::empty(),
        r.exit_code == 0,
{
    let _ = args;
    let _ = stdin;
    ExecResult::ok()
}

/// Answer `type` for the names in `args` (arguments starting with `-` are skipped).
pub fn handle_type_stub(ctx: &BuiltinDispatchContext, args: &[String]) -> (r: ExecResult)
    requires
        ctx.well_formed(),
    ensures
        r.stdout@ == type_stdout(views_of(args@), views_of(ctx.builtins@), views_of(ctx.functions@), alias_pairs(ctx.aliases)),
        r.stderr@ == Seq::<char>::empty(),
        r.exit_code == type_status(views_of(args@), views_of(ctx.builtins@), views_of(ctx.functions@), alias_pairs(ctx.aliases)),
{
    let ghost b = views_of(ctx.builtins@);
    let ghost f = views_of(ctx.functions@);
    let ghost al = alias_pairs(ctx.aliases);
    let ghost ns = views_of(args@);
    let mut stdout = String::new();
    let mut exit_code: i32 = 0;
    let mut i: usize = 0;
    while i < args.len()
        invariant
            i <= args.len(),
            b == views_of(ctx.builtins@),
            f == views_of(ctx.functions@),
            al == alias_pairs(ctx.aliases),
            ns == views_of(args@),
            stdout@ == type_stdout(ns.take(i as int), b, f, al),
            exit_code == type_status(ns.take(i as int), b, f, al),
        decreases args.len() - i,
    {
        let name = args[i].as_str();
        proof {
            assert(ns.take(i + 1).drop_last() =~= ns.take(i as int));
            assert(ns.take(i + 1).last() == name@);
        }
        let nc = chars_of(name);
        if nc.len() > 0 && nc[0] == '-' {
        } else if list_contains(ctx.builtins.as_slice(), name) {
            push_str_chars(&mut stdout, name);
            push_str_chars(&mut stdout, " is a shell builtin\n");
        } else if list_contains(ctx.functions.as_slice(), name) {
            push_str_chars(&mut stdout, name);
            push_str_chars(&mut stdout, " is a function\n");
        } else {
            match lookup_alias_of(&ctx.aliases, name) {
                Some(v) => {
                    push_str_chars(&mut stdout, name);
                    push_str_chars(&mut stdout, " is aliased to `");
                    push_str_chars(&mut stdout, v.as_str());
                    push_str_chars(&mut stdout, "'\n");
                },
                None => {
                    push_str_chars(&mut stdout, "bash: type: ");
                    push_str_chars(&mut stdout, name);
                    push_str_chars(&mut stdout, ": not found\n");
                    exit_code = 1;
                },
            }
        }
        proof {
            assert(stdout@ =~= type_stdout(ns.take(i + 1), b, f, al));
        }
        i = i + 1;
    }
    assert(ns.take(args.len() as int) =~= ns);
    ExecResult::new(stdout, String::new(), exit_code)
}

/// Whether the option word `opt` (after its leading `-`) holds `c`.
pub open spec fn has_flag_char(opt: Seq<char>, c: char) -> bool {
    exists|i: int| 1 <= i < opt.len() && opt[i] == c
}

/// The leading options of `command`: the words left after them, and whether
/// `-p`, `-V` and `-v` were among them. `--` ends the options.
pub open spec fn scan_command_options(args: Seq<Seq<char>>) -> (Seq<Seq<char>>, bool, bool, bool)
    decreases args.len(),
{
    if args.len() == 0 || !is_option_like(args[0]) {
        (args, false, false, false)
    } else if args[0] == "--"@ {
        (args.skip(1), false, false, false)
    } else {
        let t = scan_command_options(args.skip(1));
        (t.0, t.1 || has_flag_char(args[0], 'p'), t.2 || has_flag_char(args[0], 'V'),
            t.3 || has_flag_char(args[0], 'v'))
    }
}

/// What the `command` builtin does with `args`.
pub open spec fn command_builtin_action(args: Seq<Seq<char>>, builtins: Seq<Seq<char>>, functions: Seq<Seq<char>>) -> ActionSpec {
    if args.len() == 0 {
        done_ok()
    } else {
        let t = scan_command_options(args);
        let rest = t.0;
        if rest.len() == 0 {
            done_ok()
        } else if t.3 || t.2 {
            ActionSpec::Done(command_v_stdout(rest, builtins, functions, t.2), Seq::empty(),
                command_v_status(rest, builtins, functions))
        } else {
            ActionSpec::Run(rest[0], rest.skip(1), true, t.1)
        }
    }
}

/// What the `builtin` builtin does with `args`.
pub open spec fn builtin_builtin_action(args: Seq<Seq<char>>, builtins: Seq<Seq<char>>) -> ActionSpec {
    if args.len() == 0 {
        done_ok()
    } else {
        let a = if args[0] == "--"@ { args.skip(1) } else { args };
        if a.len() == 0 {
            done_ok()
        } else if !builtins.contains(a[0]) {
            ActionSpec::Done(Seq::empty(), "bash: builtin: "@ + a[0] + ": not a shell builtin\n"@, 1)
        } else {
            ActionSpec::Run(a[0], a.skip(1), true, false)
        }
    }
}

/// Copies of the strings of `v` from index `from` on.
pub fn strings_from(v: &[String], from: usize) -> (r: Vec<String>)
    requires
        from <= v.len(),
    ensures
        views_of(r@) == views_of(v@).skip(from as int),
{
    let mut r: Vec<String> = Vec::new();
    let mut i = from;
    while i < v.len()
        invariant
            from <= i <= v.len(),
            views_of(r@) == views_of(v@).subrange(from as int, i as int),
        decreases v.len() - i,
    {
        push_string(&mut r, v[i].clone());
        assert(views_of(v@).subrange(from as int, i + 1) =~= views_of(v@).subrange(from as int, i as int).push(v@[i as int]@));
        i = i + 1;
    }
    assert(views_of(v@).subrange(from as int, v.len() as int) =~= views_of(v@).skip(from as int));
    r
}

fn flag_chars(opt: &str) -> (r: (bool, bool, bool))
    ensures
        r.0 == has_flag_char(opt@, 'p'),
        r.1 == has_flag_char(opt@, 'V'),
        r.2 == has_flag_char(opt@, 'v'),
{
    let c = chars_of(opt);
    let mut p = false;
    let mut big_v = false;
    let mut v = false;
    let mut j: usize = 1;
    while j < c.len()
        invariant
            1 <= j,
            c@ == opt@,
            p == (exists|i: int| 1 <= i < j && i < c@.len() && c@[i] == 'p'),
            big_v == (exists|i: int| 1 <= i < j && i < c@.len() && c@[i] == 'V'),
            v == (exists|i: int| 1 <= i < j && i < c@.len() && c@[i] == 'v'),
        decreases c.len() - j,
    {
        if c[j] == 'p' {
            p = true;
        } else if c[j] == 'V' {
            big_v = true;
        } else if c[j] == 'v' {
            v = true;
        }
        j = j + 1;
    }
    (p, big_v, v)
}

/// Handle the 'command' builtin
pub fn handle_command_builtin(ctx: &BuiltinDispatchContext, args: &[String]) -> (r: BuiltinAction)
    requires
        ctx.well_formed(),
    ensures
        action_view(r) == command_builtin_action(views_of(args@), views_of(ctx.builtins@), views_of(ctx.functions@)),
{
    let ghost all = views_of(args@);
    if args.len() == 0 {
        return BuiltinAction::Done(ExecResult::ok());
    }
    let mut use_default_path = false;
    let mut verbose_describe = false;
    let mut show_path = false;
    let mut k: usize = 0;
    assert(all.skip(0) =~= all);
    while k < args.len()
        invariant_except_break
            k <= args.len(),
            all == views_of(args@),
            ({
                let t = scan_command_options(all.skip(k as int));
                scan_command_options(all) == (t.0, use_default_path || t.1, verbose_describe || t.2, show_path || t.3)
            }),
        ensures
            k <= args.len(),
            all == views_of(args@),
            scan_command_options(all) == (all.skip(k as int), use_default_path, verbose_describe, show_path),
        decreases args.len() - k,
    {
        let ghost rest = all.skip(k as int);
        assert(rest[0] == args@[k as int]@);
        assert(rest.skip(1) =~= all.skip(k + 1));
        let opt = args[k].as_str();
        let oc = chars_of(opt);
        if !(oc.len() > 0 && oc[0] == '-') {
            break;
        }
        if chars_eq_str(oc.as_slice(), "--") {
            k = k + 1;
            break;
        }
        let (p, big_v, v) = flag_chars(opt);
        use_default_path = use_default_path || p;
        verbose_describe = verbose_describe || big_v;
        show_path = show_path || v;
        k = k + 1;
    }
    if k == args.len() {
        return BuiltinAction::Done(ExecResult::ok());
    }
    let rest = strings_from(args, k);
    if show_path || verbose_describe {
        return BuiltinAction::Done(handle_command_v_stub(ctx, rest.as_slice(), show_path, verbose_describe));
    }
    let command = args[k].clone();
    let tail = strings_from(args, k + 1);
    proof {
        assert(all.skip(k as int)[0] == command@);
        assert(all.skip(k as int).skip(1) =~= all.skip(k + 1));
    }
    BuiltinAction::Run { command, args: tail, skip_functions: true, use_default_path }
}

/// Handle the 'builtin' builtin
pub fn handle_builtin_builtin(ctx: &BuiltinDispatchContext, args: &[String]) -> (r: BuiltinAction)
    requires
        ctx.well_formed(),
    ensures
        action_view(r) == builtin_builtin_action(views_of(args@), views_of(ctx.builtins@)),
{
    let ghost all = views_of(args@);
    if args.len() == 0 {
        return BuiltinAction::Done(ExecResult::ok());
    }
    assert(all[0] == args@[0]@);
    let start: usize = if str_eq(args[0].as_str(), "--") { 1 } else { 0 };
    assert(all.skip(0) =~= all);
    if start == args.len() {
        return BuiltinAction::Done(ExecResult::ok());
    }
    let cmd = args[start].as_str();
    assert(all.skip(start as int)[0] == cmd@);
    if !list_contains(ctx.builtins.as_slice(), cmd) {
        let mut msg = string_from("bash: builtin: ");
        push_str_chars(&mut msg, cmd);
        push_str_chars(&mut msg, ": not a shell builtin\n");
        return BuiltinAction::Done(ExecResult::failure(msg));
    }
    let tail = strings_from(args, start + 1);
    assert(all.skip(start as int).skip(1) =~= all.skip(start + 1));
    BuiltinAction::Run { command: args[start].clone(), args: tail, skip_functions: true, use_default_path: false }
}

/// The dispatch decision for `name` with `args`: `None` when the command is
/// not a builtin and goes to external command resolution.
pub open spec fn dispatch_decision(
    posix: bool,
    functions: Seq<Seq<char>>,
    builtins: Seq<Seq<char>>,
    aliases: Option<Seq<(Seq<char>, Seq<char>)>>,
    name: Seq<char>,
    args: Seq<Seq<char>>,
    skip_functions: bool,
) -> Option<ActionSpec> {
    match special_handler(name) {
        Some(h) => Some(ActionSpec::Handler(h)),
        None => if name == "source"@ || name == "."@ {
            Some(source_stub(args))
        } else if name == "eval"@ && posix {
            Some(done_ok())
        } else if !skip_functions && functions.contains(name) {
            Some(done_ok())
        } else if name == ":"@ || name == "true"@ || name == "wait"@ || name == "eval"@ {
            Some(done_ok())
        } else if name == "false"@ {
            Some(ActionSpec::Done(Seq::empty(), Seq::empty(), 1))
        } else if name == "command"@ {
            Some(command_builtin_action(args, builtins, functions))
        } else if name == "builtin"@ {
            Some(builtin_builtin_action(args, builtins))
        } else if name == "exec"@ {
            if args.len() == 0 {
                Some(done_ok())
            } else {
                Some(ActionSpec::Run(args[0], args.skip(1), false, false))
            }
        } else if name == "type"@ {
            Some(ActionSpec::Done(type_stdout(args, builtins, functions, aliases), Seq::empty(),
                type_status(args, builtins, functions, aliases)))
        } else {
            match simple_handler(name) {
                Some(h) => Some(ActionSpec::Handler(h)),
                None => None,
            }
        },
    }
}

/// Special builtins cannot be overridden: whatever functions are defined,
/// and whether functions are skipped or not, a special builtin goes to its
/// handler.
pub proof fn special_builtins_not_overridable(
    posix: bool,
    functions: Seq<Seq<char>>,
    builtins: Seq<Seq<char>>,
    aliases: Option<Seq<(Seq<char>, Seq<char>)>>,
    name: Seq<char>,
    args: Seq<Seq<char>>,
    skip_functions: bool,
)
    requires
        special_handler(name) is Some,
    ensures
        dispatch_decision(posix, functions, builtins, aliases, name, args, skip_functions)
            == Some(ActionSpec::Handler(special_handler(name)->0)),
{
}

/// A defined function overrides every builtin but the special ones,
/// `source`/`.` and (in POSIX mode) `eval`: unless functions are skipped,
/// the builtin is not run and the dispatcher reports success.
pub proof fn functions_override_builtins(
    posix: bool,
    functions: Seq<Seq<char>>,
    builtins: Seq<Seq<char>>,
    aliases: Option<Seq<(Seq<char>, Seq<char>)>>,
    name: Seq<char>,
    args: Seq<Seq<char>>,
)
    requires
        functions.contains(name),
        special_handler(name) is None,
        name != "source"@,
        name != "."@,
        !(posix && name == "eval"@),
    ensures
        dispatch_decision(posix, functions, builtins, aliases, name, args, false) == Some(done_ok()),
{
}

/// Dispatch a command to the appropriate builtin handler or external command.
/// Returns `None` if the command should be handled by external command resolution.
pub fn dispatch_builtin(
    dispatch_ctx: &BuiltinDispatchContext,
    command_name: &str,
    args: &[String],
    skip_functions: bool,
) -> (r: Option<BuiltinAction>)
    requires
        dispatch_ctx.well_formed(),
    ensures
        match r {
            Some(a) => dispatch_decision(dispatch_ctx.posix, views_of(dispatch_ctx.functions@),
                views_of(dispatch_ctx.builtins@), alias_pairs(dispatch_ctx.aliases), command_name@,
                views_of(args@), skip_functions) == Some(action_view(a)),
            None => dispatch_decision(dispatch_ctx.posix, views_of(dispatch_ctx.functions@),
                views_of(dispatch_ctx.builtins@), alias_pairs(dispatch_ctx.aliases), command_name@,
                views_of(args@), skip_functions) is None,
        },
{
    let name = chars_of(command_name);
    let n = name.as_slice();
    match special_handler_of(n) {
        Some(h) => {
            return Some(BuiltinAction::Handler(h));
        },
        None => {},
    }
    if chars_eq_str(n, "source") || chars_eq_str(n, ".") {
        return Some(BuiltinAction::Done(handle_source_stub(args)));
    }
    if chars_eq_str(n, "eval") && dispatch_ctx.posix {
        return Some(BuiltinAction::Done(ExecResult::ok()));
    }
    if !skip_functions && list_contains(dispatch_ctx.functions.as_slice(), command_name) {
        return Some(BuiltinAction::Done(ExecResult::ok()));
    }
    if chars_eq_str(n, ":") || chars_eq_str(n, "true") || chars_eq_str(n, "wait") || chars_eq_str(n, "eval") {
        return Some(BuiltinAction::Done(ExecResult::ok()));
    }
    if chars_eq_str(n, "false") {
        return Some(BuiltinAction::Done(ExecResult::new(String::new(), String::new(), 1)));
    }
    if chars_eq_str(n, "command") {
        return Some(handle_command_builtin(dispatch_ctx, args));
    }
    if chars_eq_str(n, "builtin") {
        return Some(handle_builtin_builtin(dispatch_ctx, args));
    }
    if chars_eq_str(n, "exec") {
        if args.len() == 0 {
            return Some(BuiltinAction::Done(ExecResult::ok()));
        }
        let rest = strings_from(args, 1);
        return Some(BuiltinAction::Run { command: args[0].clone(), args: rest, skip_functions: false, use_default_path: false });
    }
    if chars_eq_str(n, "type") {
        return Some(BuiltinAction::Done(handle_type_stub(dispatch_ctx, args)));
    }
    match simple_handler_of(n) {
        Some(h) => Some(BuiltinAction::Handler(h)),
        None => None,
    }
}

/// `true` and `:` always succeed with no output, whatever functions,
/// builtins and aliases are defined; `false`, unless a function of that
/// name overrides it, fails with status 1 and no output.
pub proof fn true_colon_false_results(
    posix: bool,
    functions: Seq<Seq<char>>,
    builtins: Seq<Seq<char>>,
    aliases: Option<Seq<(Seq<char>, Seq<char>)>>,
    args: Seq<Seq<char>>,
    skip_functions: bool,
)
    ensures
        dispatch_decision(posix, functions, builtins, aliases, "true"@, args, skip_functions)
            == Some(ActionSpec::Done(Seq::empty(), Seq::empty(), 0)),
        dispatch_decision(posix, functions, builtins, aliases, ":"@, args, skip_functions)
            == Some(ActionSpec::Done(Seq::empty(), Seq::empty(), 0)),
        (skip_functions || !functions.contains("false"@)) ==>
            dispatch_decision(posix, functions, builtins, aliases, "false"@, args, skip_functions)
                == Some(ActionSpec::Done(Seq::empty(), Seq::empty(), 1)),
{
    reveal_strlit("export");
    assert("export"@.len() == 6 && "export"@[0] == 'e');
    reveal_strlit("exit");
    assert("exit"@.len() == 4 && "exit"@[0] == 'e');
    reveal_strlit("set");
    assert("set"@.len() == 3 && "set"@[0] == 's');
    reveal_strlit("break");
    assert("break"@.len() == 5 && "break"@[0] == 'b');
    reveal_strlit("continue");
    assert("continue"@.len() == 8 && "continue"@[0] == 'c');
    reveal_strlit("return");
    assert("return"@.len() == 6 && "return"@[0] == 'r');
    reveal_strlit("shift");
    assert("shift"@.len() == 5 && "shift"@[0] == 's');
    reveal_strlit("shopt");
    assert("shopt"@.len() == 5 && "shopt"@[0] == 's');
    reveal_strlit("help");
    assert("help"@.len() == 4 && "help"@[0] == 'h');
    reveal_strlit("unset");
    assert("unset"@.len() == 5 && "unset"@[0] == 'u');
    reveal_strlit("local");
    assert("local"@.len() == 5 && "local"@[0] == 'l');
    reveal_strlit("getopts");
    assert("getopts"@.len() == 7 && "getopts"@[0] == 'g');
    reveal_strlit("compgen");
    assert("compgen"@.len() == 7 && "compgen"@[0] == 'c');
    reveal_strlit("complete");
    assert("complete"@.len() == 8 && "complete"@[0] == 'c');
    reveal_strlit("compopt");
    assert("compopt"@.len() == 7 && "compopt"@[0] == 'c');
    reveal_strlit("pushd");
    assert("pushd"@.len() == 5 && "pushd"@[0] == 'p');
    reveal_strlit("popd");
    assert("popd"@.len() == 4 && "popd"@[0] == 'p');
    reveal_strlit("dirs");
    assert("dirs"@.len() == 4 && "dirs"@[0] == 'd');
    reveal_strlit("read");
    assert("read"@.len() == 4 && "read"@[0] == 'r');
    reveal_strlit("mapfile");
    assert("mapfile"@.len() == 7 && "mapfile"@[0] == 'm');
    reveal_strlit("readarray");
    assert("readarray"@.len() == 9 && "readarray"@[0] == 'r');
    reveal_strlit("declare");
    assert("declare"@.len() == 7 && "declare"@[0] == 'd');
    reveal_strlit("typeset");
    assert("typeset"@.len() == 7 && "typeset"@[0] == 't');
    reveal_strlit("readonly");
    assert("readonly"@.len() == 8 && "readonly"@[0] == 'r');
    reveal_strlit("source");
    assert("source"@.len() == 6 && "source"@[0] == 's');
    reveal_strlit(".");
    assert("."@.len() == 1 && "."@[0] == '.');
    reveal_strlit("eval");
    assert("eval"@.len() == 4 && "eval"@[0] == 'e');
    reveal_strlit(":");
    assert(":"@.len() == 1 && ":"@[0] == ':');
    reveal_strlit("true");
    assert("true"@.len() == 4 && "true"@[0] == 't');
    reveal_strlit("false");
    assert("false"@.len() == 5 && "false"@[0] == 'f');
    reveal_strlit("wait");
    assert("wait"@.len() == 4 && "wait"@[0] == 'w');
}

} // verus!
