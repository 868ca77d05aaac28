//! Lexical helpers of a sandboxed shell: path normalization, glob escaping,
//! argument parsing for several commands, and output formatting.

pub mod text;
pub mod path;
pub mod regex_support;
pub mod declare_syntax;
pub mod glob_escape;
pub mod arg_helpers;
pub mod gzip_codec;
pub mod builtin_dispatch;
pub mod sort_args;
pub mod grep;
pub mod tar_helpers;
pub mod ls_format;
pub mod loc_heatmap;
pub mod find_actions;
