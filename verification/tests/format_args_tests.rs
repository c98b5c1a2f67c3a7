use cosmox::format_args::count_format_args_in_string;

#[test]
fn counts_implicit_placeholders() {
    assert_eq!(count_format_args_in_string("{} and {}"), Ok(2));
    assert_eq!(count_format_args_in_string("no placeholders"), Ok(0));
    assert_eq!(count_format_args_in_string(""), Ok(0));
}

#[test]
fn explicit_indices_need_one_more_argument() {
    assert_eq!(count_format_args_in_string("{0} {2}"), Ok(3));
    assert_eq!(count_format_args_in_string("{1:>8}"), Ok(2));
    assert_eq!(count_format_args_in_string("{} {} {} {0}"), Ok(3));
    assert_eq!(count_format_args_in_string("{} {5}"), Ok(6));
}

#[test]
fn escaped_braces_are_not_placeholders() {
    assert_eq!(count_format_args_in_string("{{}} {}"), Ok(1));
    assert_eq!(count_format_args_in_string("{{literal}}"), Ok(0));
}

#[test]
fn brace_errors() {
    assert_eq!(
        count_format_args_in_string("oops }"),
        Err("Mismatched closing brace `}`".to_string())
    );
    assert_eq!(
        count_format_args_in_string("open {"),
        Err("Unmatched opening brace `{`".to_string())
    );
}

#[test]
fn named_and_formatted_placeholders_are_refused() {
    assert_eq!(
        count_format_args_in_string("{name}"),
        Err("Unsupported or invalid placeholder: {name}".to_string())
    );
    assert_eq!(
        count_format_args_in_string("{:?}"),
        Err("Unsupported or invalid placeholder: {:?}".to_string())
    );
}

#[test]
fn count_is_the_larger_of_empty_placeholders_and_largest_index() {
    assert_eq!(count_format_args_in_string("{} {1} {{ }}"), Ok(2));
    assert_eq!(count_format_args_in_string("{} {} {} {0}"), Ok(3));
    assert_eq!(count_format_args_in_string("{0}}}"), Ok(1));
    assert_eq!(count_format_args_in_string("{}}}{{{}"), Ok(2));
    assert_eq!(count_format_args_in_string("{2:>8}"), Ok(3));
    assert_eq!(count_format_args_in_string("plain {{text}}"), Ok(0));
}
