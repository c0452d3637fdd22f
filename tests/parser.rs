use aviation_weather::calendar::UtcTime;
use aviation_weather::codec::MetarRow;
use aviation_weather::parser::ParseError;
use aviation_weather::report::{FlightCategory, Metar};

fn at(year: i32, month: u32, day: u32, hour: u32, minute: u32) -> UtcTime {
    UtcTime { year, month, day, hour, minute, second: 0 }
}

fn now() -> UtcTime {
    at(2024, 3, 15, 12, 0)
}

fn parse(line: &str) -> Metar {
    Metar::parse(line, &now()).unwrap()
}

#[test]
fn test_metar() {
    let mut metar_string = "METAR KABC 121755Z AUTO 21016G24KT 180V240 1SM R11/P6000FT -RA BR BKN015 OVC025 06/04 A2990
RMK AO2 PK WND 20032/25 WSHFT 1715 VIS 3/4V1 1/2 VIS 3/4 RWY11 RAB07 CIG 013V017 CIG 017 RWY11 PRESFR
SLP125 P0003 60009 T00640036 10066 21012 58033 TSNO $".to_string();
    let metar = Metar::parse(&metar_string, &now()).unwrap();
    let _ = &metar;

    metar_string = "KMIA 090053Z 33004KT 10SM FEW015 FEW024 SCT075 SCT250 25/22 A2990 RMK AO2 SLP126 T02500217 $".to_string();
    let metar = Metar::parse(&metar_string, &now()).unwrap();
    let _ = &metar;

    metar_string =
        "KMRB 082253Z 30014G23KT 10SM CLR 05/M12 A3002 RMK AO2 PK WND 30028/2157 SLP168 T00501117"
            .to_string();
    let metar = Metar::parse(&metar_string, &now()).unwrap();
    let _ = &metar;
}

#[test]
fn full_report_fields() {
    let line = "METAR KABC 121755Z AUTO 21016G24KT 180V240 1SM R11/P6000FT -RA BR BKN015 OVC025 06/04 A2990 RMK AO2 PK WND 20032/25 SLP125 T00640036 TSNO $";
    let m = parse(line);
    assert_eq!(m.station_id, "KABC");
    assert_eq!(m.raw_text, line);
    assert_eq!(m.remarks.auto, Some(true));
    assert_eq!(m.wind_dir_degrees.as_deref(), Some("210"));
    assert_eq!(m.wind_speed_kt_e5, Some(1_600_000));
    assert_eq!(m.wind_gust_kt_e5, Some(2_400_000));
    assert_eq!(m.variable_wind_dir_degrees.as_deref(), Some("180V240"));
    assert_eq!(m.visibility_statute_mi.as_deref(), Some("1"));
    assert_eq!(m.runway_visual_range.len(), 1);
    assert_eq!(m.runway_visual_range[0].runway, "R11");
    assert_eq!(m.runway_visual_range[0].visibility_ft.as_deref(), Some("P6000"));
    assert_eq!(m.weather_phenomena, vec!["-RA".to_string(), "BR".to_string()]);
    assert_eq!(m.sky_condition.len(), 2);
    assert_eq!(m.sky_condition[0].sky_cover, "BKN");
    assert_eq!(m.sky_condition[0].cloud_base_ft_agl, Some(1500));
    assert_eq!(m.sky_condition[1].sky_cover, "OVC");
    assert_eq!(m.sky_condition[1].cloud_base_ft_agl, Some(2500));
    assert_eq!(m.altim_in_hg_hundredths, Some(2990));
    assert_eq!(m.remarks.auto_station_with_precipication, Some(true));
    let pk = m.remarks.peak_wind.unwrap();
    assert_eq!((pk.degrees, pk.speed, pk.hour, pk.minutes), (200, 32, None, 25));
    assert_eq!(m.sea_level_pressure_mb_tenths, Some(10125));
    assert_eq!(m.temp_c_tenths, Some(64));
    assert_eq!(m.dewpoint_c_tenths, Some(36));
    assert_eq!(m.remarks.thunderstorm_information_not_available, Some(true));
    assert_eq!(m.remarks.maintenance_indicator_on, Some(true));
    assert_eq!(m.flight_category, FlightCategory::IFR);
    assert_eq!(m.humidity_pct_tenths, Some(1000 - (64 - 36) * 5));
}

#[test]
fn kmrb_example() {
    let m = parse("KMRB 082253Z 30014G23KT 10SM CLR 05/M12 A3002 RMK AO2 PK WND 30028/2157 SLP168 T00501117");
    assert_eq!(m.station_id, "KMRB");
    assert_eq!(m.wind_dir_degrees.as_deref(), Some("300"));
    assert_eq!(m.wind_speed_kt_e5, Some(1_400_000));
    assert_eq!(m.wind_gust_kt_e5, Some(2_300_000));
    assert_eq!(m.visibility_statute_mi.as_deref(), Some("10"));
    assert_eq!(m.sky_condition.len(), 1);
    assert_eq!(m.sky_condition[0].sky_cover, "CLR");
    assert_eq!(m.sky_condition[0].cloud_base_ft_agl, None);
    assert_eq!(m.altim_in_hg_hundredths, Some(3002));
    // SLP168 is at most 500, so it reads in the 1000s: 1016.8 mb
    assert_eq!(m.sea_level_pressure_mb_tenths, Some(10168));
    // the hourly group T00501117 refines 05/M12 to 5.0 and -11.7
    assert_eq!(m.temp_c_tenths, Some(50));
    assert_eq!(m.dewpoint_c_tenths, Some(-117));
    let pk = m.remarks.peak_wind.unwrap();
    assert_eq!((pk.degrees, pk.speed, pk.hour, pk.minutes), (300, 28, Some(21), 57));
    assert_eq!(m.flight_category, FlightCategory::VFR);
    assert_eq!(m.humidity_pct_tenths, Some(1000 - (50 + 117) * 5));
}

#[test]
fn body_temperature_without_hourly_group() {
    let m = parse("KMRB 082253Z 30014G23KT 10SM CLR 05/M12 A3002");
    assert_eq!(m.temp_c_tenths, Some(50));
    assert_eq!(m.dewpoint_c_tenths, Some(-120));
    assert_eq!(m.humidity_pct_tenths, Some(150));
}

#[test]
fn split_wind_group_reads_as_one() {
    let a = parse("KABC 121755Z 21016 KT 10SM CLR 10/05 A3001");
    let b = parse("KABC 121755Z 21016KT 10SM CLR 10/05 A3001");
    assert_eq!(a.wind_dir_degrees.as_deref(), Some("210"));
    assert_eq!(a.wind_speed_kt_e5, Some(1_600_000));
    let mut a2 = a.clone();
    a2.raw_text = b.raw_text.clone();
    assert_eq!(format!("{:?}", a2), format!("{:?}", b));
}

#[test]
fn split_gust_group_in_mps() {
    let a = parse("KABC 121755Z 21016G24 MPS 9999 CLR");
    assert_eq!(a.wind_speed_kt_e5, Some(16 * 194_384));
    assert_eq!(a.wind_gust_kt_e5, Some(24 * 194_384));
    assert_eq!(a.visibility_statute_mi.as_deref(), Some("P10"));
}

#[test]
fn parsing_twice_gives_the_same_report() {
    let line = "KMIA 090053Z 33004KT 10SM FEW015 FEW024 SCT075 SCT250 25/22 A2990 RMK AO2 SLP126 T02500217 $";
    let a = parse(line);
    let b = parse(line);
    assert_eq!(format!("{:?}", a), format!("{:?}", b));
}

#[test]
fn observation_time_same_month() {
    let m = parse("KMRB 082253Z 30014KT 10SM CLR");
    assert_eq!(m.observation_time, at(2024, 3, 8, 22, 53));
    let m = parse("KMRB 151130Z 30014KT 10SM CLR");
    assert_eq!(m.observation_time, at(2024, 3, 15, 11, 30));
}

#[test]
fn observation_time_later_today_is_last_month() {
    let m = parse("KMRB 152253Z 30014KT 10SM CLR");
    assert_eq!(m.observation_time, at(2024, 2, 15, 22, 53));
}

#[test]
fn observation_time_within_tolerance_stays_today() {
    let m = parse("KMRB 151204Z 30014KT 10SM CLR");
    assert_eq!(m.observation_time, at(2024, 3, 15, 12, 4));
    let m = parse("KMRB 151206Z 30014KT 10SM CLR");
    assert_eq!(m.observation_time, at(2024, 2, 15, 12, 6));
}

#[test]
fn observation_time_just_past_month_end() {
    let m = Metar::parse("KMRB 010001Z 30014KT 10SM CLR", &at(2024, 3, 31, 23, 58)).unwrap();
    assert_eq!(m.observation_time, at(2024, 4, 1, 0, 1));
    let m = Metar::parse("KMRB 312350Z 30014KT 10SM CLR", &at(2025, 1, 1, 0, 10)).unwrap();
    assert_eq!(m.observation_time, at(2024, 12, 31, 23, 50));
}

#[test]
fn observation_time_previous_month() {
    let m = parse("KMRB 202253Z 30014KT 10SM CLR");
    assert_eq!(m.observation_time, at(2024, 2, 20, 22, 53));
}

#[test]
fn observation_time_skips_month_without_the_day() {
    let m = Metar::parse("KMRB 312253Z 30014KT 10SM CLR", &at(2024, 3, 1, 0, 10)).unwrap();
    assert_eq!(m.observation_time, at(2024, 1, 31, 22, 53));
    let m = Metar::parse("KMRB 302253Z 30014KT 10SM CLR", &at(2023, 3, 1, 0, 10)).unwrap();
    assert_eq!(m.observation_time, at(2023, 1, 30, 22, 53));
    let m = Metar::parse("KMRB 292253Z 30014KT 10SM CLR", &at(2024, 3, 1, 0, 10)).unwrap();
    assert_eq!(m.observation_time, at(2024, 2, 29, 22, 53));
}

#[test]
fn observation_time_previous_year() {
    let m = Metar::parse("KMRB 202253Z 30014KT 10SM CLR", &at(2024, 1, 5, 0, 0)).unwrap();
    assert_eq!(m.observation_time, at(2023, 12, 20, 22, 53));
}

#[test]
fn too_few_tokens() {
    assert_eq!(Metar::parse("", &now()).unwrap_err(), ParseError::TooFewTokens);
    assert_eq!(Metar::parse("   ", &now()).unwrap_err(), ParseError::TooFewTokens);
    assert_eq!(Metar::parse("KABC 121755Z 21016KT", &now()).unwrap_err(), ParseError::TooFewTokens);
}

#[test]
fn malformed_time_group() {
    assert_eq!(Metar::parse("KABC 1217Z 21016KT 10SM", &now()).unwrap_err(), ParseError::MalformedTime);
    assert_eq!(Metar::parse("KABC 121755 21016KT 10SM", &now()).unwrap_err(), ParseError::MalformedTime);
    assert_eq!(Metar::parse("KABC 321755Z 21016KT 10SM", &now()).unwrap_err(), ParseError::MalformedTime);
    assert_eq!(Metar::parse("KABC 001755Z 21016KT 10SM", &now()).unwrap_err(), ParseError::MalformedTime);
    assert_eq!(Metar::parse("KABC 122455Z 21016KT 10SM", &now()).unwrap_err(), ParseError::MalformedTime);
    assert_eq!(Metar::parse("KABC 121760Z 21016KT 10SM", &now()).unwrap_err(), ParseError::MalformedTime);
}

#[test]
fn leading_report_type_is_dropped() {
    let m = parse("METAR KABC 121755Z 21016KT 10SM");
    assert_eq!(m.station_id, "KABC");
    let m = parse("KABC 121755Z 21016KT 10SM");
    assert_eq!(m.station_id, "KABC");
}

#[test]
fn modifiers_and_trend() {
    let m = parse("KABC 121755Z COR 21016KT 10SM CLR 10/05 A3001 TEMPO");
    assert_eq!(m.remarks.corrected, Some(true));
    assert_eq!(m.remarks.temporary_change, Some(true));
    let m = parse("EGLL 121750Z 24010KT 9999 FEW030 15/08 Q1013 NOSIG");
    assert_eq!(m.remarks.no_significant_change, Some(true));
    assert_eq!(m.sea_level_pressure_mb_tenths, Some(10130));
    assert_eq!(m.visibility_statute_mi.as_deref(), Some("P10"));
}

#[test]
fn visibility_fractions() {
    assert_eq!(parse("KABC 121755Z 21016KT 1/2SM BR").visibility_statute_mi.as_deref(), Some("0.5"));
    assert_eq!(parse("KABC 121755Z 21016KT M1/4SM FG").visibility_statute_mi.as_deref(), Some("M0.25"));
    assert_eq!(parse("KABC 121755Z 21016KT 1 1/2SM BR").visibility_statute_mi.as_deref(), Some("1.5"));
    assert_eq!(parse("KABC 121755Z 21016KT 2 3/4SM BR").visibility_statute_mi.as_deref(), Some("2.75"));
    assert_eq!(parse("KABC 121755Z 21016KT P10SM SKC").visibility_statute_mi.as_deref(), Some("P10"));
    assert_eq!(parse("KABC 121755Z 21016KT 1/3SM BR").visibility_statute_mi.as_deref(), Some("0.3333333333333333"));
    assert_eq!(parse("KABC 121755Z 21016KT 1/0SM BR").visibility_statute_mi, None);
}

#[test]
fn visibility_in_meters() {
    assert_eq!(parse("LFPG 121730Z 24010KT 1600 BR").visibility_statute_mi.as_deref(), Some("0.99"));
    assert_eq!(parse("LFPG 121730Z 24010KT 0800NE FG").visibility_statute_mi.as_deref(), Some("0.50"));
    assert_eq!(parse("LFPG 121730Z 24010KT 5000 BR").visibility_statute_mi.as_deref(), Some("3.11"));
}

#[test]
fn runway_visual_ranges() {
    let m = parse("KABC 121755Z 21016KT 1/4SM R04L/1200V1800FT R22R/M0600FT FG VV002");
    assert_eq!(m.runway_visual_range.len(), 2);
    let a = &m.runway_visual_range[0];
    assert_eq!(a.runway, "R04L");
    assert_eq!(a.visibility_ft, None);
    assert_eq!(a.variable_visibility_low_ft.as_deref(), Some("1200"));
    assert_eq!(a.variable_visibility_high_ft.as_deref(), Some("1800"));
    let b = &m.runway_visual_range[1];
    assert_eq!(b.runway, "R22R");
    assert_eq!(b.visibility_ft.as_deref(), Some("M0600"));
    assert_eq!(b.variable_visibility_low_ft, None);
    assert_eq!(m.sky_condition[0].sky_cover, "VV");
    assert_eq!(m.sky_condition[0].cloud_base_ft_agl, Some(200));
    assert_eq!(m.flight_category, FlightCategory::LIFR);
}

#[test]
fn weather_and_sky_groups() {
    let m = parse("KABC 121755Z 21016KT 3SM +TSRA VCSH FEW020CB BKN035TCU OVC///");
    assert_eq!(m.weather_phenomena, vec!["+TSRA".to_string(), "VCSH".to_string()]);
    assert_eq!(m.sky_condition.len(), 3);
    assert_eq!(m.sky_condition[0].significant_convective_clouds.as_deref(), Some("CB"));
    assert_eq!(m.sky_condition[0].cloud_base_ft_agl, Some(2000));
    assert_eq!(m.sky_condition[1].significant_convective_clouds.as_deref(), Some("TCU"));
    assert_eq!(m.sky_condition[1].cloud_base_ft_agl, Some(3500));
    assert_eq!(m.sky_condition[2].sky_cover, "OVC");
    assert_eq!(m.sky_condition[2].cloud_base_ft_agl, None);
    assert_eq!(m.flight_category, FlightCategory::MVFR);
}

#[test]
fn cavok_is_clear_sky() {
    let m = parse("LFPG 121730Z 24010KT CAVOK 18/09 Q1015");
    assert_eq!(m.sky_condition.len(), 1);
    assert_eq!(m.sky_condition[0].sky_cover, "CLR");
    assert_eq!(m.flight_category, FlightCategory::VFR);
}

#[test]
fn temperature_groups() {
    let m = parse("KABC 121755Z 21016KT 10SM CLR M05/M10");
    assert_eq!(m.temp_c_tenths, Some(-50));
    assert_eq!(m.dewpoint_c_tenths, Some(-100));
    let m = parse("KABC 121755Z 21016KT 10SM CLR 05/");
    assert_eq!(m.temp_c_tenths, Some(50));
    assert_eq!(m.dewpoint_c_tenths, None);
    assert_eq!(m.humidity_pct_tenths, None);
    let m = parse("KABC 121755Z 21016KT 10SM CLR RMK T10121023");
    assert_eq!(m.temp_c_tenths, Some(-12));
    assert_eq!(m.dewpoint_c_tenths, Some(-23));
    let m = parse("KABC 121755Z 21016KT 10SM CLR RMK T00121023");
    assert_eq!(m.temp_c_tenths, Some(12));
    assert_eq!(m.dewpoint_c_tenths, Some(-23));
}

#[test]
fn sea_level_pressure_remark() {
    assert_eq!(parse("KABC 121755Z 21016KT 10SM RMK SLP982").sea_level_pressure_mb_tenths, Some(9982));
    assert_eq!(parse("KABC 121755Z 21016KT 10SM RMK SLP500").sea_level_pressure_mb_tenths, Some(10500));
}

#[test]
fn remark_codes() {
    let m = parse("KABC 121755Z 21016KT 10SM RMK AO1 PNO RVRNO PWINO FZRANO VISNO RWY06 CHINO RWY24");
    assert_eq!(m.remarks.auto_station_without_precipication, Some(true));
    assert_eq!(m.remarks.precipication_information_not_available, Some(true));
    assert_eq!(m.remarks.rvr_missing, Some(true));
    assert_eq!(m.remarks.precipication_identifier_information_not_available, Some(true));
    assert_eq!(m.remarks.freezing_rain_information_not_available, Some(true));
    assert_eq!(m.remarks.visibility_at_secondary_location_not_available.as_deref(), Some("RWY06"));
    assert_eq!(m.remarks.sky_condition_at_secondary_location_not_available.as_deref(), Some("RWY24"));
}

#[test]
fn unrecognized_tokens_are_skipped() {
    let m = parse("KABC 121755Z 21016KT XYZZY 10SM ??? CLR 10/05");
    assert_eq!(m.visibility_statute_mi.as_deref(), Some("10"));
    assert_eq!(m.sky_condition[0].sky_cover, "CLR");
    assert_eq!(m.temp_c_tenths, Some(100));
    let m = parse("KABC 121755Z 21016KT RMK PK WND XXXX");
    assert!(m.remarks.peak_wind.is_none());
}

#[test]
fn unknown_category_without_visibility_or_sky() {
    let m = parse("KABC 121755Z 21016KT 10/05");
    assert_eq!(m.flight_category, FlightCategory::UNKN);
}

#[test]
fn stored_row_reads_back_to_the_same_report() {
    let m = parse("KMRB 202253Z 30014G23KT 10SM CLR 05/M12 A3002 RMK AO2 PK WND 30028/2157 SLP168 T00501117");
    let row: MetarRow = m.to_db();
    assert_eq!(row.icao, "KMRB");
    assert_eq!(row.observation_time, at(2024, 2, 20, 22, 53));
    assert_eq!(format!("{:?}", row.data), format!("{:?}", m));
    let back = Metar::from_db(&row);
    assert_eq!(format!("{:?}", back), format!("{:?}", m));
}
