use aviation_weather::acquisition::{batch_queries, merge_reports, response_lines, BATCH_SIZE};
use aviation_weather::calendar::UtcTime;
use aviation_weather::freshness::{missing_stations, plan_fetch, still_missing, NegativeCache, EMPTY_STATION_TTL_SECS};
use aviation_weather::lookup::{finish_request, plan_request};
use aviation_weather::refresh::{next_refresh_delay, oldest_observation};
use aviation_weather::report::Metar;

fn at(year: i32, month: u32, day: u32, hour: u32, minute: u32) -> UtcTime {
    UtcTime { year, month, day, hour, minute, second: 0 }
}

fn report(line: &str, now: &UtcTime) -> Metar {
    Metar::parse(line, now).unwrap()
}

fn ids(v: &[&str]) -> Vec<String> {
    v.iter().map(|s| s.to_string()).collect()
}

fn sorted(mut v: Vec<String>) -> Vec<String> {
    v.sort();
    v
}

#[test]
fn unix_seconds_of_known_instants() {
    assert_eq!(at(1970, 1, 1, 0, 0).unix_seconds(), 0);
    assert_eq!(at(2024, 1, 1, 0, 0).unix_seconds(), 1_704_067_200);
    let t = UtcTime { year: 2000, month: 2, day: 29, hour: 12, minute: 34, second: 56 };
    assert_eq!(t.unix_seconds(), 951_827_696);
    assert_eq!(at(1969, 12, 31, 23, 59).unix_seconds(), -60);
}

#[test]
fn missing_is_symmetric_difference_plus_stale() {
    let now = at(2024, 3, 15, 12, 0);
    let now_secs = now.unix_seconds();
    let stored = vec![
        report("KAAA 151130Z 21016KT 10SM CLR", &now),
        report("KBBB 151030Z 21016KT 10SM CLR", &now),
        report("KZZZ 151150Z 21016KT 10SM CLR", &now),
    ];
    let requested = ids(&["KAAA", "KBBB", "KCCC"]);
    let missing = missing_stations(&requested, &stored, now_secs);
    assert_eq!(sorted(missing), ids(&["KBBB", "KCCC", "KZZZ"]));
}

#[test]
fn stale_report_is_fetched_when_forced() {
    let now = at(2024, 3, 15, 12, 0);
    let now_secs = now.unix_seconds();
    let stored = vec![report("KBBB 151000Z 21016KT 10SM CLR", &now)];
    let requested = ids(&["KBBB"]);
    let missing = missing_stations(&requested, &stored, now_secs);
    assert_eq!(missing, ids(&["KBBB"]));
    let mut cache = NegativeCache::new();
    cache.mark_empty(&"KBBB".to_string(), now_secs);
    assert_eq!(plan_fetch(&missing, &cache, now_secs, true), ids(&["KBBB"]));
    assert!(plan_fetch(&missing, &cache, now_secs, false).is_empty());
}

#[test]
fn station_without_data_is_not_fetched_twice() {
    let now = at(2024, 3, 15, 12, 0);
    let t1 = now.unix_seconds();
    let mut cache = NegativeCache::new();
    let missing = ids(&["KAAA", "KNOD"]);
    let to_fetch = plan_fetch(&missing, &cache, t1, false);
    assert_eq!(to_fetch, ids(&["KAAA", "KNOD"]));
    let fetched = vec![report("KAAA 151150Z 21016KT 10SM CLR", &now)];
    let empty = still_missing(&to_fetch, &fetched);
    assert_eq!(empty, ids(&["KNOD"]));
    cache.mark_all_empty(&empty, t1);
    let t2 = t1 + 5;
    assert_eq!(plan_fetch(&ids(&["KNOD"]), &cache, t2, false), Vec::<String>::new());
    assert_eq!(plan_fetch(&ids(&["KNOD"]), &cache, t2, true), ids(&["KNOD"]));
    let later = t1 + EMPTY_STATION_TTL_SECS;
    assert_eq!(plan_fetch(&ids(&["KNOD"]), &cache, later, false), ids(&["KNOD"]));
}

#[test]
fn marking_again_replaces_the_mark() {
    let mut cache = NegativeCache::new();
    let s = "KNOD".to_string();
    cache.mark_empty(&s, 100);
    cache.mark_empty(&s, 200);
    assert_eq!(cache.entries.len(), 1);
    assert!(cache.is_known_empty(&s, 200 + EMPTY_STATION_TTL_SECS - 1));
    assert!(!cache.is_known_empty(&s, 200 + EMPTY_STATION_TTL_SECS));
    assert!(!cache.is_known_empty(&"KAAA".to_string(), 150));
}

#[test]
fn batches_of_ten() {
    let v: Vec<String> = (0..23).map(|i| format!("S{:02}", i)).collect();
    let q = batch_queries(&v);
    assert_eq!(BATCH_SIZE, 10);
    assert_eq!(q.len(), 3);
    assert_eq!(q[0], "S00,S01,S02,S03,S04,S05,S06,S07,S08,S09");
    assert_eq!(q[2], "S20,S21,S22");
    assert!(batch_queries(&vec![]).is_empty());
    assert_eq!(batch_queries(&ids(&["KAAA"])), ids(&["KAAA"]));
    let ten: Vec<String> = (0..10).map(|i| format!("T{}", i)).collect();
    assert_eq!(batch_queries(&ten).len(), 1);
}

#[test]
fn response_body_reports() {
    let now = at(2024, 3, 15, 12, 0);
    let body = "KAAA 151150Z 21016KT 10SM CLR\n\n  \nnot a report\nKBBB 151151Z 18005KT 5SM BR OVC008\n";
    let lines = response_lines(body);
    assert_eq!(lines.len(), 5);
    assert_eq!(lines[0], "KAAA 151150Z 21016KT 10SM CLR");
    let reports = Metar::parse_response(body, &now);
    assert_eq!(reports.len(), 2);
    assert_eq!(reports[0].station_id, "KAAA");
    assert_eq!(reports[1].station_id, "KBBB");
}

#[test]
fn merge_keeps_one_report_per_station_and_fetched_wins() {
    let now = at(2024, 3, 15, 12, 0);
    let stored = vec![
        report("KAAA 150950Z 21016KT 10SM CLR", &now),
        report("KBBB 151130Z 21016KT 10SM CLR", &now),
    ];
    let fetched = vec![
        report("KAAA 151150Z 21016KT 10SM CLR", &now),
        report("KAAA 151120Z 21016KT 10SM CLR", &now),
    ];
    let merged = merge_reports(fetched, stored);
    assert_eq!(merged.len(), 2);
    assert_eq!(merged[0].station_id, "KAAA");
    assert_eq!(merged[0].observation_time, at(2024, 3, 15, 11, 50));
    assert_eq!(merged[1].station_id, "KBBB");
}

#[test]
fn refresh_waits_until_oldest_report_is_stale() {
    let now = at(2024, 3, 15, 12, 0);
    let now_secs = now.unix_seconds();
    let reports = vec![
        report("KAAA 151150Z 21016KT 10SM CLR", &now),
        report("KBBB 151130Z 21016KT 10SM CLR", &now),
    ];
    let oldest = oldest_observation(&reports, now_secs);
    assert_eq!(oldest, at(2024, 3, 15, 11, 30).unix_seconds());
    assert_eq!(next_refresh_delay(oldest, now_secs), 1800);
    assert_eq!(oldest_observation(&vec![], now_secs), now_secs);
    assert_eq!(next_refresh_delay(now_secs, now_secs), 3600);
    assert_eq!(next_refresh_delay(now_secs - 7200, now_secs), 1);
}

#[test]
fn date_time_validity() {
    assert!(at(2024, 2, 29, 23, 59).is_valid());
    assert!(!at(2023, 2, 29, 0, 0).is_valid());
    assert!(!at(2024, 4, 31, 0, 0).is_valid());
    assert!(!at(2024, 13, 1, 0, 0).is_valid());
    assert!(!at(2024, 1, 1, 24, 0).is_valid());
    assert!(at(2000, 2, 29, 0, 0).is_valid());
    assert!(!at(1900, 2, 29, 0, 0).is_valid());
}

#[test]
fn response_body_is_trimmed() {
    let now = at(2024, 3, 15, 12, 0);
    let lines = response_lines(" KABC 121755Z 10SM A2990\r\n");
    assert_eq!(lines, vec!["KABC 121755Z 10SM A2990".to_string()]);
    let reports = Metar::parse_response("\n  KABC 121755Z 10SM A2990\r\n", &now);
    assert_eq!(reports.len(), 1);
    assert_eq!(reports[0].raw_text, "KABC 121755Z 10SM A2990");
}

#[test]
fn request_halves() {
    let now = at(2024, 3, 15, 12, 0);
    let t = now.unix_seconds();
    let stored = vec![report("KBBB 151000Z 21016KT 10SM CLR", &now)];
    let requested = ids(&["KAAA", "KBBB", "KNOD"]);
    let mut cache = NegativeCache::new();
    let to_fetch = plan_request(&requested, &stored, &cache, t, false);
    assert_eq!(sorted(to_fetch.clone()), ids(&["KAAA", "KBBB", "KNOD"]));
    let fetched = vec![report("KAAA 151150Z 21016KT 10SM CLR", &now), report("KBBB 151151Z 21016KT 10SM CLR", &now)];
    let out = finish_request(&to_fetch, fetched, stored, &mut cache, t);
    assert_eq!(out.len(), 2);
    assert_eq!(out[1].observation_time, at(2024, 3, 15, 11, 51));
    assert!(cache.is_known_empty(&"KNOD".to_string(), t + 10));
    let again = plan_request(&requested, &out, &cache, t + 10, false);
    assert!(!again.contains(&"KNOD".to_string()));
    let forced = plan_request(&requested, &out, &cache, t + 10, true);
    assert!(forced.contains(&"KNOD".to_string()));
}
