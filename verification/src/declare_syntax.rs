//! The patterns of `declare`, `local` and related builtins: shell names,
//! array assignments and subscripted elements.
use vstd::prelude::*;
use crate::regex_support::{compile_regex, regex_compile_error, CompiledRegex};

verus! {

/// `r` is what compiling `pattern` gives: the expression compiled from
/// exactly that text, or the compiler's error for it.
pub open spec fn compiled_from(r: Result<CompiledRegex, String>, pattern: Seq<char>) -> bool {
    match r {
        Ok(c) => c.pattern() == pattern && regex_compile_error(pattern) is None,
        Err(e) => regex_compile_error(pattern) == Some(e@),
    }
}

/// A whole shell variable name: a letter or `_`, then letters, digits or `_`.
pub fn valid_name_re() -> (r: Result<CompiledRegex, String>)
    ensures
        compiled_from(r, "^[a-zA-Z_][a-zA-Z0-9_]*$"@),
{
    compile_regex("^[a-zA-Z_][a-zA-Z0-9_]*$")
}

/// A variable name, optionally followed by a non-empty subscript.
pub fn valid_target_re() -> (r: Result<CompiledRegex, String>)
    ensures
        compiled_from(r, "^[a-zA-Z_][a-zA-Z0-9_]*(\\[.+\\])?$"@),
{
    compile_regex("^[a-zA-Z_][a-zA-Z0-9_]*(\\[.+\\])?$")
}

/// The name at the start of a string (for subscript parsing).
pub fn name_prefix_re() -> (r: Result<CompiledRegex, String>)
    ensures
        compiled_from(r, "^[a-zA-Z_][a-zA-Z0-9_]*"@),
{
    compile_regex("^[a-zA-Z_][a-zA-Z0-9_]*")
}

/// `name=(items)`: a whole-array assignment.
pub fn array_assign_re() -> (r: Result<CompiledRegex, String>)
    ensures
        compiled_from(r, "^([a-zA-Z_][a-zA-Z0-9_]*)=\\((.*)\\)$"@),
{
    compile_regex("^([a-zA-Z_][a-zA-Z0-9_]*)=\\((.*)\\)$")
}

/// `name+=(items)`: appending to an array.
pub fn array_append_re() -> (r: Result<CompiledRegex, String>)
    ensures
        compiled_from(r, "^([a-zA-Z_][a-zA-Z0-9_]*)\\+=\\((.*)\\)$"@),
{
    compile_regex("^([a-zA-Z_][a-zA-Z0-9_]*)\\+=\\((.*)\\)$")
}

/// `name+=value`: appending to a scalar.
pub fn append_scalar_re() -> (r: Result<CompiledRegex, String>)
    ensures
        compiled_from(r, "^([a-zA-Z_][a-zA-Z0-9_]*)\\+=(.*)$"@),
{
    compile_regex("^([a-zA-Z_][a-zA-Z0-9_]*)\\+=(.*)$")
}

/// `name[index]=value`: assigning one element.
pub fn index_assign_re() -> (r: Result<CompiledRegex, String>)
    ensures
        compiled_from(r, "^([a-zA-Z_][a-zA-Z0-9_]*)\\[([^\\]]+)\\]=(.*)$"@),
{
    compile_regex("^([a-zA-Z_][a-zA-Z0-9_]*)\\[([^\\]]+)\\]=(.*)$")
}

/// The `[key]=` that starts a keyed element of an array literal.
pub fn keyed_elem_prefix_re() -> (r: Result<CompiledRegex, String>)
    ensures
        compiled_from(r, "^\\[[^\\]]+\\]="@),
{
    compile_regex("^\\[[^\\]]+\\]=")
}

/// `[key]=value`, capturing the key and the value.
pub fn keyed_elem_capture_re() -> (r: Result<CompiledRegex, String>)
    ensures
        compiled_from(r, "^\\[([^\\]]+)\\]=(.*)$"@),
{
    compile_regex("^\\[([^\\]]+)\\]=(.*)$")
}

} // verus!
