use rustible::modules::lineinfile::{LineEdit, LineState, LineinfileModule, InsertPosition};
use rustible::modules::ModuleError;

fn lines(v: &[&str]) -> Vec<String> {
    v.iter().map(|s| s.to_string()).collect()
}

fn edit(
    current: &[&str],
    state: LineState,
    line: Option<&str>,
    regexp: Option<&str>,
    after: Option<&str>,
    before: Option<&str>,
) -> Result<LineEdit, ModuleError> {
    let re = LineinfileModule::compile_regexp(regexp).unwrap();
    LineinfileModule::edit_lines(lines(current), state, line, re.as_ref(), after, before, false, false)
}

fn changed(e: Result<LineEdit, ModuleError>) -> Vec<String> {
    match e {
        Ok(LineEdit::Changed(v)) => v,
        other => panic!("expected a change, got {:?}", other),
    }
}

#[test]
fn a_missing_line_is_appended() {
    let out = changed(edit(&["line1", "line2"], LineState::Present, Some("line3"), None, None, None));
    assert_eq!(out, lines(&["line1", "line2", "line3"]));
}

#[test]
fn a_present_line_changes_nothing() {
    let r = edit(&["line1", "line2", "line3"], LineState::Present, Some("line2"), None, None, None);
    assert!(matches!(r, Ok(LineEdit::Unchanged)));
}

#[test]
fn matching_lines_are_replaced() {
    let out = changed(edit(&["key=old_value", "other=stuff"], LineState::Present, Some("key=new_value"), Some("^key="), None, None));
    assert_eq!(out, lines(&["key=new_value", "other=stuff"]));
}

#[test]
fn every_matching_line_is_replaced_unless_firstmatch() {
    let re = LineinfileModule::compile_regexp(Some("^k=")).unwrap();
    let all = LineinfileModule::edit_lines(lines(&["k=1", "x", "k=2"]), LineState::Present, Some("k=3"), re.as_ref(), None, None, false, false);
    assert_eq!(changed(all), lines(&["k=3", "x", "k=3"]));
    let first = LineinfileModule::edit_lines(lines(&["k=1", "x", "k=2"]), LineState::Present, Some("k=3"), re.as_ref(), None, None, true, false);
    assert_eq!(changed(first), lines(&["k=3", "x", "k=2"]));
}

#[test]
fn a_line_is_removed() {
    let out = changed(edit(&["line1", "line2", "line3"], LineState::Absent, Some("line2"), None, None, None));
    assert_eq!(out, lines(&["line1", "line3"]));
}

#[test]
fn lines_matching_the_expression_are_removed() {
    let out = changed(edit(&["a=1", "b=2", "a=3"], LineState::Absent, None, Some("^a="), None, None));
    assert_eq!(out, lines(&["b=2"]));
    let r = edit(&["b=2"], LineState::Absent, None, Some("^a="), None, None);
    assert!(matches!(r, Ok(LineEdit::Unchanged)));
}

#[test]
fn a_line_goes_after_the_last_match() {
    let out = changed(edit(&["line1", "line2", "line3"], LineState::Present, Some("new_line"), None, Some("^line1"), None));
    assert_eq!(out[1], "new_line");
    let out = changed(edit(&["a", "b", "a"], LineState::Present, Some("n"), None, Some("^a$"), None));
    assert_eq!(out, lines(&["a", "b", "a", "n"]));
}

#[test]
fn a_line_goes_before_the_first_match() {
    let out = changed(edit(&["line1", "line2", "line3"], LineState::Present, Some("new_line"), None, None, Some("^line3")));
    assert_eq!(out[2], "new_line");
}

#[test]
fn position_words_are_read_in_any_case() {
    let out = changed(edit(&["x", "y"], LineState::Present, Some("top"), None, Some("bof"), None));
    assert_eq!(out, lines(&["top", "x", "y"]));
    let out = changed(edit(&["x", "y"], LineState::Present, Some("end"), None, None, Some("EOF")));
    assert_eq!(out, lines(&["x", "y", "end"]));
    let out = changed(edit(&["x", "y"], LineState::Present, Some("end"), None, Some("^nothing"), None));
    assert_eq!(out, lines(&["x", "y", "end"]));
}

#[test]
fn a_new_file_gets_the_line() {
    let out = changed(edit(&[], LineState::Present, Some("new_line"), None, None, None));
    assert_eq!(out, lines(&["new_line"]));
}

#[test]
fn bad_expressions_are_reported() {
    let err = LineinfileModule::compile_regexp(Some("[")).unwrap_err();
    assert!(matches!(err, ModuleError::InvalidParameter(m) if m.starts_with("Invalid regexp: ")));
    let r = edit(&["x"], LineState::Present, Some("n"), None, Some("("), None);
    assert!(matches!(r, Err(ModuleError::InvalidParameter(m)) if m.starts_with("Invalid insertafter regex: ")));
    let r = edit(&["x"], LineState::Present, Some("n"), None, None, Some("("));
    assert!(matches!(r, Err(ModuleError::InvalidParameter(m)) if m.starts_with("Invalid insertbefore regex: ")));
}

#[test]
fn present_needs_a_line() {
    let r = edit(&["x"], LineState::Present, None, Some("x"), None, None);
    assert_eq!(r.unwrap_err(), ModuleError::MissingParameter("line is required for state=present".to_string()));
    let r = LineinfileModule::validate_params(None, false, false);
    assert_eq!(r, Err(ModuleError::MissingParameter("Either 'line' or 'regexp' is required for state=present".to_string())));
    let r = LineinfileModule::validate_params(Some("absent"), false, false);
    assert_eq!(r, Err(ModuleError::MissingParameter("Either 'line' or 'regexp' is required for state=absent".to_string())));
    assert!(LineinfileModule::validate_params(Some("absent"), false, true).is_ok());
}

#[test]
fn back_references_fill_in_the_groups() {
    let re = LineinfileModule::compile_regexp(Some("^port=(\\d+)")).unwrap();
    let out = LineinfileModule::edit_lines(lines(&["port=80"]), LineState::Present, Some("listen \\1"), re.as_ref(), None, None, false, true);
    assert_eq!(changed(out), lines(&["listen 80"]));
    let none = LineinfileModule::edit_lines(lines(&["host=a"]), LineState::Present, Some("listen \\1"), re.as_ref(), None, None, false, true);
    assert!(matches!(none, Ok(LineEdit::NoMatch)));
}

#[test]
fn insert_position_is_found() {
    let ls = lines(&["a", "b", "a"]);
    assert_eq!(LineinfileModule::find_insert_position(&ls, Some("^a"), None).unwrap(), (InsertPosition::AfterMatch, Some(2)));
    assert_eq!(LineinfileModule::find_insert_position(&ls, None, Some("^a")).unwrap(), (InsertPosition::BeforeMatch, Some(0)));
    assert_eq!(LineinfileModule::find_insert_position(&ls, None, None).unwrap(), (InsertPosition::EndOfFile, None));
}

#[test]
fn editing_twice_changes_nothing_the_second_time() {
    let first = changed(edit(&["a", "key=1"], LineState::Present, Some("key=2"), Some("^key="), None, None));
    let again = edit(&first.iter().map(|s| s.as_str()).collect::<Vec<_>>(), LineState::Present, Some("key=2"), Some("^key="), None, None);
    assert!(matches!(again, Ok(LineEdit::Unchanged)));
    let first = changed(edit(&["a", "b", "a"], LineState::Absent, Some("a"), None, None, None));
    let again = edit(&first.iter().map(|s| s.as_str()).collect::<Vec<_>>(), LineState::Absent, Some("a"), None, None, None);
    assert!(matches!(again, Ok(LineEdit::Unchanged)));
}
