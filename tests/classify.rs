use aviation_weather::classify::classify;
use aviation_weather::report::{FlightCategory, SkyCondition};

fn layer(cover: &str, base: Option<i32>) -> SkyCondition {
    SkyCondition { sky_cover: cover.to_string(), cloud_base_ft_agl: base, significant_convective_clouds: None }
}

#[test]
fn ten_miles_and_no_clouds_is_vfr() {
    assert_eq!(classify(&Some("10SM".to_string()), &vec![]), FlightCategory::VFR);
    assert_eq!(classify(&Some("10".to_string()), &vec![]), FlightCategory::VFR);
}

#[test]
fn low_overcast_without_visibility_is_lifr() {
    assert_eq!(classify(&None, &vec![layer("OVC", Some(200))]), FlightCategory::LIFR);
}

#[test]
fn nothing_known_is_unknown() {
    assert_eq!(classify(&None, &vec![]), FlightCategory::UNKN);
    assert_eq!(classify(&Some("??".to_string()), &vec![]), FlightCategory::UNKN);
}

#[test]
fn thresholds() {
    assert_eq!(classify(&Some("5".to_string()), &vec![layer("BKN", Some(3000))]), FlightCategory::VFR);
    assert_eq!(classify(&Some("4.99".to_string()), &vec![layer("BKN", Some(3000))]), FlightCategory::MVFR);
    assert_eq!(classify(&Some("5".to_string()), &vec![layer("BKN", Some(2900))]), FlightCategory::MVFR);
    assert_eq!(classify(&Some("3".to_string()), &vec![layer("OVC", Some(1000))]), FlightCategory::MVFR);
    assert_eq!(classify(&Some("2.75".to_string()), &vec![]), FlightCategory::IFR);
    assert_eq!(classify(&Some("1".to_string()), &vec![layer("OVC", Some(500))]), FlightCategory::IFR);
    assert_eq!(classify(&Some("M0.25".to_string()), &vec![]), FlightCategory::LIFR);
    assert_eq!(classify(&Some("P10".to_string()), &vec![layer("OVC", Some(400))]), FlightCategory::LIFR);
}

#[test]
fn ceiling_rules() {
    assert_eq!(classify(&Some("10".to_string()), &vec![layer("VV", Some(5000))]), FlightCategory::LIFR);
    assert_eq!(classify(&Some("10".to_string()), &vec![layer("BKN", None)]), FlightCategory::LIFR);
    assert_eq!(classify(&Some("10".to_string()), &vec![layer("SCT", Some(500)), layer("OVC", Some(600))]), FlightCategory::VFR);
    assert_eq!(classify(&None, &vec![layer("FEW", Some(100))]), FlightCategory::VFR);
}
