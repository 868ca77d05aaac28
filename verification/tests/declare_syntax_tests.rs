use just_bash::declare_syntax::{
    append_scalar_re, array_append_re, array_assign_re, index_assign_re, keyed_elem_capture_re,
    keyed_elem_prefix_re, name_prefix_re, valid_name_re, valid_target_re,
};
use just_bash::regex_support::{regex_find_all, regex_is_match};

#[test]
fn declare_patterns_accept_names_and_targets() {
    let name = valid_name_re().ok().unwrap();
    assert!(regex_is_match(&name, "_a1"));
    assert!(!regex_is_match(&name, "1a"));
    assert!(!regex_is_match(&name, "a-b"));
    let target = valid_target_re().ok().unwrap();
    assert!(regex_is_match(&target, "arr[3]"));
    assert!(regex_is_match(&target, "x"));
    assert!(!regex_is_match(&target, "arr[]"));
    let prefix = name_prefix_re().ok().unwrap();
    assert_eq!(regex_find_all(&prefix, "abc[1]"), vec!["abc".to_string()]);
}

#[test]
fn declare_patterns_recognise_assignments() {
    assert!(regex_is_match(&array_assign_re().ok().unwrap(), "a=(1 2)"));
    assert!(!regex_is_match(&array_assign_re().ok().unwrap(), "a+=(1 2)"));
    assert!(regex_is_match(&array_append_re().ok().unwrap(), "a+=(1 2)"));
    assert!(regex_is_match(&append_scalar_re().ok().unwrap(), "a+=x"));
    assert!(regex_is_match(&index_assign_re().ok().unwrap(), "a[k]=v"));
    assert!(!regex_is_match(&index_assign_re().ok().unwrap(), "a[]=v"));
    assert!(regex_is_match(&keyed_elem_prefix_re().ok().unwrap(), "[k]=v"));
    assert!(regex_is_match(&keyed_elem_capture_re().ok().unwrap(), "[k]=v"));
    assert!(!regex_is_match(&keyed_elem_capture_re().ok().unwrap(), "k=v"));
}
