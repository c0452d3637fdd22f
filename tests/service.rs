use aviation_weather::service::{AirportQuery, ApiError, Error, ServiceError, UserType, Weather};

#[test]
fn errors_keep_status_and_message() {
    let e = Error::new(404, "missing".to_string());
    assert_eq!((e.status, e.details.as_str()), (404, "missing"));
    let e = ApiError::new(500, "boom".to_string());
    assert_eq!((e.status, e.message.as_str()), (500, "boom"));
    let e = ServiceError::new(401, "no".to_string());
    assert_eq!((e.status, e.message.as_str()), (401, "no"));
}

#[test]
fn default_airport_query() {
    let q = AirportQuery::default();
    assert_eq!(q.page, Some(1));
    assert_eq!(q.limit, Some(1000));
    assert!(q.icaos.is_none() && q.metars.is_none());
}

#[test]
fn user_type_text() {
    assert_eq!(UserType::Admin.as_text(), "admin");
    assert_eq!(UserType::User.as_text(), "user");
    assert_eq!(UserType::from_text("admin"), Some(UserType::Admin));
    assert_eq!(UserType::from_text("user"), Some(UserType::User));
    assert_eq!(UserType::from_text("root"), None);
}

#[test]
fn batch_url() {
    let w = Weather { base_url: "https://example.org/api".to_string() };
    assert_eq!(w.batch_url(&"KAAA,KBBB".to_string()), "https://example.org/api/metar?ids=KAAA,KBBB&order=id");
}
