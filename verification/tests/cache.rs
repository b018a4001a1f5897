use cfrp_detector::cache::{
    chrono_like_date, cleanup, date_name, file_name, find_fresh, find_latest, serves, CacheEntry,
};
use cfrp_detector::cidr::{ipv4_download, ipv6_download};
use cfrp_detector::location::locations_download;
use cfrp_detector::{CacheConfig, Duration, FileCache};

fn entry(name: &str, modified: i64) -> CacheEntry {
    CacheEntry { name: name.into(), modified }
}

#[test]
fn cache_config_default_values() {
    let cfg = CacheConfig::default();
    assert_eq!(cfg.directory, "data/cfrpdata");
    assert_eq!(cfg.max_age, Duration::from_secs(7 * 24 * 3600));
}

#[test]
fn cache_config_clone() {
    let cfg = CacheConfig { directory: "/tmp/test".into(), max_age: Duration::from_secs(60) };
    let cfg2 = cfg.clone();
    assert_eq!(cfg.directory, cfg2.directory);
    assert_eq!(cfg.max_age, cfg2.max_age);
}

#[test]
fn file_cache_new_constructs() {
    let cfg = CacheConfig::default();
    let cache = FileCache::new(cfg.clone());
    assert_eq!(cache.cfg.directory, cfg.directory);
}

#[test]
fn chrono_like_date_format() {
    let s = chrono_like_date();
    assert!(s.starts_with("day-"));
    let days_part = &s[4..];
    assert!(days_part.parse::<u64>().is_ok());
}

#[test]
fn cache_config_default_max_age_is_one_week() {
    let cfg = CacheConfig::default();
    let expected = Duration::from_secs(7 * 24 * 60 * 60);
    assert_eq!(cfg.max_age, expected);
}

#[test]
fn cache_config_is_clonable_copyable_independent() {
    let mut a = CacheConfig::default();
    let b = a.clone();
    a.directory = "/tmp/modified".into();
    assert_ne!(a.directory, b.directory);
}

#[test]
fn cache_config_new_path_and_age() {
    let cfg =
        CacheConfig { directory: "/tmp/cfrp-test".into(), max_age: Duration::from_secs(3600) };
    assert_eq!(cfg.directory, "/tmp/cfrp-test");
    assert_eq!(cfg.max_age, Duration::from_secs(3600));
}

#[test]
fn cache_config_directory_default_exists_subpath() {
    let cfg = CacheConfig::default();
    assert!(cfg.directory.contains("cfrpdata"));
    assert!(!cfg.directory.is_empty());
}

#[test]
fn file_cache_accepts_cfg_ref() {
    let cfg = CacheConfig {
        directory: "/tmp/should-not-be-created".into(),
        max_age: Duration::from_millis(10),
    };
    let cache = FileCache::new(cfg.clone());
    assert_eq!(cache.cfg.directory, cfg.directory);
    assert_eq!(cache.cfg.max_age, cfg.max_age);
}

#[test]
fn zero_max_age_is_allowed() {
    let cfg =
        CacheConfig { directory: "/tmp/cfrp-zero".into(), max_age: Duration::from_secs(0) };
    assert!(cfg.max_age.is_zero());
}

#[test]
fn days_are_counted_from_the_epoch() {
    assert_eq!(date_name(0), "day-0");
    assert_eq!(date_name(86_399), "day-0");
    assert_eq!(date_name(86_400), "day-1");
    assert_eq!(date_name(1_700_000_000), "day-19675");
    assert_eq!(file_name("ips-v4", "day-1", ".txt"), "ips-v4-day-1.txt");
    let today: u64 = chrono_like_date()[4..].parse().unwrap();
    assert!(today > 19_675);
}

#[test]
fn the_newest_matching_file_is_used_where_it_is_fresh() {
    let entries = vec![
        entry("ips-v4-day-1.txt", 1_000),
        entry("ips-v4-day-3.txt", 3_000),
        entry("ips-v6-day-9.txt", 9_000),
        entry("ips-v4-day-2.txt", 2_000),
        entry("ips-v4-day-8.json", 8_000),
    ];
    let age = Duration::from_nanos(500);
    assert_eq!(find_fresh(&entries, "ips-v4", ".txt", 3_400, age), Some(1));
    assert_eq!(find_fresh(&entries, "ips-v4", ".txt", 3_600, age), None);
    assert_eq!(find_fresh(&entries, "ips-v6", ".txt", 9_000, age), Some(2));
    assert_eq!(find_fresh(&entries, "locations", ".json", 9_000, age), None);
}

#[test]
fn only_other_files_of_the_family_are_cleaned_up() {
    let names: Vec<String> = ["ips-v4-day-1.txt", "ips-v4-day-2.txt", "ips-v6-day-1.txt", "notes"]
        .iter()
        .map(|s| s.to_string())
        .collect();
    assert_eq!(
        cleanup(&names, "ips-v4", ".txt", "ips-v4-day-2.txt"),
        vec!["ips-v4-day-1.txt".to_string()]
    );
    let kept = file_name("ips-v4", "day-1", ".txt");
    assert!(!cleanup(&names, "ips-v4", ".txt", &kept).contains(&kept));
}

#[test]
fn a_kept_download_serves_and_is_alone_after_the_cleanup() {
    let keep = file_name("locations", "day-5", ".json");
    let mut names: Vec<String> =
        ["locations-day-3.json", "ips-v4-day-5.txt", "locations-day-4.json"]
            .iter()
            .map(|s| s.to_string())
            .collect();
    names.push(keep.clone());
    let gone = cleanup(&names, "locations", ".json", &keep);
    assert_eq!(gone, ["locations-day-3.json", "locations-day-4.json"]);
    names.retain(|n| !gone.contains(n));
    assert_eq!(names, ["ips-v4-day-5.txt", "locations-day-5.json"]);

    let entries = vec![entry("locations-day-4.json", 40), entry(&keep, 50)];
    let age = Duration::from_nanos(10);
    assert_eq!(find_fresh(&entries, "locations", ".json", 60, age), Some(1));
    assert_eq!(find_fresh(&entries, "locations", ".json", 61, age), None);
}

#[test]
fn an_old_download_is_left_where_none_serves() {
    let entries = vec![
        entry("locations-day-4.json", 40),
        entry("locations-day-5.json", 50),
        entry("ips-v4-day-9.txt", 90),
    ];
    let age = Duration::from_nanos(10);
    assert_eq!(find_fresh(&entries, "locations", ".json", 1_000, age), None);
    assert_eq!(find_latest(&entries, "locations", ".json"), Some(1));
    assert_eq!(find_latest(&entries, "ips-v6", ".txt"), None);
    assert!(serves(50, 60, age));
    assert!(!serves(50, 61, age));
    assert!(!serves(61, 60, age));
}

#[test]
fn downloads_serve_for_days() {
    let day = 24 * 3600;
    let d = ipv4_download();
    assert_eq!((d.prefix.as_str(), d.extension.as_str()), ("ips-v4", ".txt"));
    assert_eq!(d.url, "https://www.cloudflare.com/ips-v4");
    assert_eq!(d.max_age, Duration::from_secs(7 * day));
    let d = ipv6_download();
    assert_eq!((d.prefix.as_str(), d.extension.as_str()), ("ips-v6", ".txt"));
    assert_eq!(d.max_age, Duration::from_secs(7 * day));
    let d = locations_download();
    assert_eq!((d.prefix.as_str(), d.extension.as_str()), ("locations", ".json"));
    assert_eq!(d.max_age, Duration::from_secs(3 * day));
}
