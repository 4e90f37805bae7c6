use clevert::Error;
use clevert::ErrorKind;

#[test]
fn default_error_is_other_and_silent() {
    let e = Error::default();
    assert_eq!(e.kind, ErrorKind::Other);
    assert_eq!(e.message, "");
}

#[test]
fn new_keeps_kind_and_message() {
    let e = Error::new(ErrorKind::ExecutePanic, "boom".to_string());
    assert_eq!(e.kind, ErrorKind::ExecutePanic);
    assert_eq!(e.message, "boom");
    let copy = e.clone();
    assert_eq!(copy.kind, ErrorKind::ExecutePanic);
}
