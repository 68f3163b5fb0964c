use cryptotrace::decimal::format_u64;
use cryptotrace::jobs::{highest_job_file_id, job_file_name, job_id_from_file_name};
use cryptotrace::text::text_eq;
use cryptotrace::timestamp::{chrono_now, format_timestamp, timestamp_seconds};

#[test]
fn decimal_rendering_matches_display() {
    for n in [0u64, 7, 10, 99, 100, 1716000000, u64::MAX] {
        assert_eq!(format_u64(n), n.to_string());
    }
}

#[test]
fn decimal_parsing_matches_std() {
    for s in ["0", "42", "+42", "+", "", "-1", "12a", "18446744073709551615", "18446744073709551616", "007"] {
        assert_eq!(timestamp_seconds(s), s.parse::<u64>().unwrap_or(0), "input {:?}", s);
        let name = format!("job_{}.json", s);
        assert_eq!(job_id_from_file_name(&name), s.parse::<u64>().ok(), "input {:?}", name);
    }
}

#[test]
fn timestamp_format() {
    assert_eq!(format_timestamp(1716000000, 0), "1716000000.000");
    assert_eq!(format_timestamp(5, 7), "5.007");
    assert_eq!(format_timestamp(12, 345), "12.345");
    assert_eq!(format_timestamp(0, 99), "0.099");
}

#[test]
fn timestamp_seconds_reads_back() {
    assert_eq!(timestamp_seconds(&format_timestamp(1716000010, 250)), 1716000010);
    assert_eq!(timestamp_seconds("1716000000.000"), 1716000000);
    assert_eq!(timestamp_seconds("42"), 42);
    assert_eq!(timestamp_seconds("garbage"), 0);
    assert_eq!(timestamp_seconds(".5"), 0);
    assert_eq!(timestamp_seconds(""), 0);
}

#[test]
fn now_is_a_timestamp() {
    let now = chrono_now();
    let (secs, millis) = now.split_once('.').unwrap();
    assert!(secs.parse::<u64>().unwrap() > 1_600_000_000);
    assert_eq!(millis.len(), 3);
    assert!(millis.chars().all(|c| c.is_ascii_digit()));
}

#[test]
fn job_file_names() {
    assert_eq!(job_file_name(17), "job_17.json");
    assert_eq!(job_id_from_file_name("job_17.json"), Some(17));
    assert_eq!(job_id_from_file_name(&job_file_name(u64::MAX)), Some(u64::MAX));
    assert_eq!(job_id_from_file_name("job_+3.json"), Some(3));
    assert_eq!(job_id_from_file_name("job_.json"), None);
    assert_eq!(job_id_from_file_name("job_x.json"), None);
    assert_eq!(job_id_from_file_name("task_3.json"), None);
    assert_eq!(job_id_from_file_name("job_3.txt"), None);
}

#[test]
fn highest_file_id_ignores_other_files() {
    let names = vec![
        "job_4.json".to_string(),
        "notes.txt".to_string(),
        "job_12.json".to_string(),
        "job_9.json".to_string(),
    ];
    assert_eq!(highest_job_file_id(&names), 12);
    assert_eq!(highest_job_file_id(&Vec::new()), 0);
}

#[test]
fn text_equality() {
    assert!(text_eq("malware", "malware"));
    assert!(!text_eq("malware", "Malware"));
    assert!(!text_eq("", "x"));
}
