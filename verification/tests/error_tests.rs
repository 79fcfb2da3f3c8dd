use dq::error::Error;

#[test]
fn display_type_error() {
    let e = Error::TypeError { expected: "string", actual: "number" };
    assert_eq!(e.message(), "type error: expected string, got number");
}

#[test]
fn display_key_not_found() {
    let e = Error::KeyNotFound("foo".into());
    assert_eq!(e.message(), "key not found: foo");
}

#[test]
fn display_index_out_of_bounds() {
    let e = Error::IndexOutOfBounds { index: 5, length: 3 };
    assert_eq!(e.message(), "index out of bounds: 5 (length 3)");
}

#[test]
fn display_merge_conflict() {
    let e = Error::MergeConflict { path: "a.b".into(), message: "both modified".into() };
    assert_eq!(e.message(), "merge conflict at a.b: both modified");
}

#[test]
fn display_other_variants() {
    assert_eq!(Error::InvalidPath("x..".into()).message(), "invalid path: x..");
    assert_eq!(Error::Format("bad".into()).message(), "format error: bad");
    assert_eq!(Error::Parse("eof".into()).message(), "parse error: eof");
    assert_eq!(Error::Other("plain".into()).message(), "plain");
}
