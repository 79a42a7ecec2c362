use scuffed::error::Error;

#[test]
fn error_statuses() {
    assert_eq!(Error::NotFound.status_code(), 404);
    assert_eq!(Error::InvalidLogin.status_code(), 401);
    assert_eq!(Error::InvalidPassword.status_code(), 401);
    assert_eq!(Error::Unathorized.status_code(), 401);
    assert_eq!(Error::InternalError.status_code(), 500);
    assert_eq!(Error::JsonRejection("missing field".to_string()).status_code(), 400);
    assert_eq!(Error::TooManyCharacters { field: "name".to_string(), maximum_length: 32 }.status_code(), 400);
    assert_eq!(Error::InvalidKey.status_code(), 400);
}
