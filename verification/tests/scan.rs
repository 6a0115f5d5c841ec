use bf_interpreter::scan::extract_loop;

fn to_chars(text: &str) -> Vec<char> {
    text.chars().collect()
}

#[test]
fn body_of_a_simple_loop() {
    let (body, exit) = extract_loop(&to_chars("[-]+"), 1);
    assert_eq!(body, to_chars("-"));
    assert_eq!(exit, 3);
}

#[test]
fn body_of_an_empty_loop() {
    let (body, exit) = extract_loop(&to_chars("[]"), 1);
    assert_eq!(body, to_chars(""));
    assert_eq!(exit, 2);
}

#[test]
fn nested_loops_stay_in_the_body() {
    let (body, exit) = extract_loop(&to_chars("+[>[-]<[[+]]-]."), 2);
    assert_eq!(body, to_chars(">[-]<[[+]]-"));
    assert_eq!(exit, 14);
}

#[test]
fn body_ends_at_the_first_matching_bracket() {
    let (body, exit) = extract_loop(&to_chars("[a]b]"), 1);
    assert_eq!(body, to_chars("a"));
    assert_eq!(exit, 3);
}

#[test]
fn unclosed_loop_runs_to_the_end_of_the_code() {
    let (body, exit) = extract_loop(&to_chars("[+>[-]"), 1);
    assert_eq!(body, to_chars("+>[-]"));
    assert_eq!(exit, 6);
}

#[test]
fn unclosed_loop_at_the_end_of_the_code_is_empty() {
    let (body, exit) = extract_loop(&to_chars("+["), 2);
    assert_eq!(body, to_chars(""));
    assert_eq!(exit, 2);
}

#[test]
fn other_characters_are_kept_as_they_are() {
    let (body, exit) = extract_loop(&to_chars("[ @\n,.]"), 1);
    assert_eq!(body, to_chars(" @\n,."));
    assert_eq!(exit, 7);
}
