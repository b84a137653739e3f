use bettertui_engine::logger::subscriber::{
    civil_from_days, daily_log_path, date_from_secs, is_leap, log_path_for_date, platform_validate_path,
    same_day, today_date,
};

#[test]
fn leap_years() {
    assert!(is_leap(2020));
    assert!(is_leap(2000));
    assert!(is_leap(2400));
    assert!(!is_leap(2021));
    assert!(!is_leap(1900));
    assert!(!is_leap(2100));
}

#[test]
fn today_date_format() {
    let date = today_date();
    assert_eq!(date.len(), 10, "date should be YYYY-MM-DD");
    let parts: Vec<&str> = date.split('-').collect();
    assert_eq!(parts.len(), 3);
    let year: u64 = parts[0].parse().unwrap();
    let month: u64 = parts[1].parse().unwrap();
    let day: u64 = parts[2].parse().unwrap();
    assert!(year >= 2020);
    assert!((1..=12).contains(&month));
    assert!((1..=31).contains(&day));
}

#[test]
fn validate_path_rejects_empty() {
    assert!(platform_validate_path("").is_err());
}

#[test]
fn validate_path_accepts_absolute() {
    assert!(platform_validate_path("/tmp/bettertui/app.log").is_ok());
}

#[test]
fn daily_log_path_shape() {
    let dir = "/tmp/bettertui_sub_test";
    let path = daily_log_path(dir);
    assert!(path.starts_with(dir));
    let name = path.rsplit('/').next().unwrap();
    assert!(name.starts_with("bettertui-"));
    assert!(name.ends_with(".log"));
}

#[test]
fn civil_dates() {
    assert_eq!(civil_from_days(0), (1970, 1, 1));
    assert_eq!(civil_from_days(31), (1970, 2, 1));
    assert_eq!(civil_from_days(365), (1971, 1, 1));
    assert_eq!(civil_from_days(789), (1972, 2, 29));
    assert_eq!(civil_from_days(11016), (2000, 2, 29));
    assert_eq!(civil_from_days(19723), (2024, 1, 1));
    assert_eq!(date_from_secs(1_700_000_000), "2023-11-14");
    assert_eq!(date_from_secs(86_399), "1970-01-01");
}

#[test]
fn log_paths_and_validation_messages() {
    assert_eq!(log_path_for_date("/var/log/", "2024-01-02"), "/var/log/bettertui-2024-01-02.log");
    assert_eq!(log_path_for_date("logs", "2024-01-02"), "logs/bettertui-2024-01-02.log");
    assert_eq!(log_path_for_date("", "2024-01-02"), "bettertui-2024-01-02.log");
    assert_eq!(platform_validate_path("a\0b"), Err("Log path contains null character".to_string()));
    assert_eq!(platform_validate_path(""), Err("Log path must not be empty".to_string()));
}

#[test]
fn resolve_target_prod_no_path_is_none() {
    let cfg = bettertui_engine::logger::LoggerConfig::default();
    assert!(cfg.resolve_file_target(None, "/repo/logs").is_none());
}

#[test]
fn resolve_target_env_dir_wins() {
    let mut cfg = bettertui_engine::logger::LoggerConfig::default();
    cfg.file = Some("/tmp/btui/custom.log".to_string());
    cfg.dev = true;
    let t = cfg.resolve_file_target(Some("/var/log/btui".to_string()), "/repo/logs").unwrap();
    assert_eq!(t.dir, "/var/log/btui");
    assert!(t.file.starts_with("/var/log/btui/bettertui-"));
    assert!(t.file.ends_with(".log"));
}

#[test]
fn resolve_target_explicit_file_wins() {
    let mut cfg = bettertui_engine::logger::LoggerConfig::default();
    cfg.file = Some("/tmp/btui/custom.log".to_string());
    let target = cfg.resolve_file_target(None, "/repo/logs").expect("explicit file → Some");
    assert_eq!(target.file, "/tmp/btui/custom.log");
    assert_eq!(target.dir, "/tmp/btui");
}

#[test]
fn resolve_target_empty_env_and_file_fall_through() {
    let mut cfg = bettertui_engine::logger::LoggerConfig::default();
    cfg.file = Some(String::new());
    assert!(cfg.resolve_file_target(Some(String::new()), "/repo/logs").is_none());
}

#[test]
fn resolve_target_bare_file_name_has_empty_parent() {
    let mut cfg = bettertui_engine::logger::LoggerConfig::default();
    cfg.file = Some("custom.log".to_string());
    let t = cfg.resolve_file_target(None, "/repo/logs").unwrap();
    assert_eq!(t.file, "custom.log");
    assert_eq!(t.dir, "");
}

#[test]
fn resolve_target_dev_uses_repo_logs_dir() {
    let mut cfg = bettertui_engine::logger::LoggerConfig::default();
    cfg.dev = true;
    let target = cfg.resolve_file_target(None, "/repo/logs").expect("dev → Some");
    assert!(target.dir.ends_with("logs"), "dev dir should end with logs, got {:?}", target.dir);
    let name = target.file.rsplit('/').next().unwrap();
    assert!(name.starts_with("bettertui-") && name.ends_with(".log"));
}

#[test]
fn same_day_compares_utc_days() {
    assert!(same_day(0, 86_399));
    assert!(!same_day(86_399, 86_400));
    assert!(same_day(1_700_000_000, 1_700_000_100));
}
