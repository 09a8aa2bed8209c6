//! Field errors, their rendering, and the composite report.

use docquery::error::{Error, Errors};

#[test]
fn owned() {
    let e = Error::owned("count", ".count", "invalid type: string, expected an integer".to_string());
    assert_eq!(
        e.to_message(),
        "Query for field 'count' failed at '.count': invalid type: string, expected an integer"
    );
}

#[test]
fn borrowed() {
    let e = Error::borrowed("x", ".", "missing field 'x'");
    assert_eq!(e.to_message(), "Query for field 'x' failed at '.': missing field 'x'");
}

#[test]
fn new() {
    let errors = Errors::new(vec![
        None,
        Some(Error::borrowed("a", ".", "missing field 'a'")),
        None,
    ]);
    assert_eq!(errors.error_count(), 1);
    let list = errors.errors();
    assert_eq!(list.len(), 1);
    assert_eq!(list[0].field, "a");
}

#[test]
fn no_errors_render_empty() {
    let errors = Errors::new(vec![None, None]);
    assert_eq!(errors.error_count(), 0);
    assert_eq!(errors.to_message(), "");
}

#[test]
fn one_error_renders_verbatim() {
    let errors = Errors::new(vec![
        None,
        Some(Error::borrowed("name", ".author", "missing field 'name'")),
    ]);
    assert_eq!(
        errors.to_message(),
        "Query for field 'name' failed at '.author': missing field 'name'"
    );
}

#[test]
fn several_errors_render_a_numbered_list() {
    let errors = Errors::new(vec![
        Some(Error::borrowed("a", ".", "missing field 'a'")),
        None,
        Some(Error::borrowed("b", ".", "missing field 'b'")),
    ]);
    assert_eq!(errors.error_count(), 2);
    assert_eq!(
        errors.to_message(),
        "Queries failed for fields: 'a', 'b'\n\
         \x20 1. Query for field 'a' failed at '.': missing field 'a'\n\
         \x20 2. Query for field 'b' failed at '.': missing field 'b'\n"
    );
}
