use codexferry::metrics::ErrorClass;

#[test]
fn error_classification() {
    assert_eq!(ErrorClass::from_status(200), ErrorClass::Empty);
    assert_eq!(ErrorClass::from_status(204), ErrorClass::Empty);
    assert_eq!(ErrorClass::from_status(429), ErrorClass::Http429);
    assert_eq!(ErrorClass::from_status(500), ErrorClass::Http500);
    assert_eq!(ErrorClass::from_status(503), ErrorClass::Http503);
    assert_eq!(ErrorClass::from_status(400), ErrorClass::Http4xx);
    assert_eq!(ErrorClass::from_status(404), ErrorClass::Http4xx);
    assert_eq!(ErrorClass::from_status(502), ErrorClass::Http5xx);
    assert_eq!(ErrorClass::from_status(504), ErrorClass::Http5xx);
}
