use feedreader::cgi::{check_post, get_cgienv_str, get_cgienv_u32, request_method, CgiEnvError, PostError, RequestMethod, PageGenResult};
use feedreader::config::{duration_days, duration_secs, nonzero_count_of, Config, Opts};
use feedreader::db::{get_prefix, get_varlib, join_path, valid_db_name, Db, DbError};
use feedreader::forms::FormFields;
use feedreader::schedule::{
    after_attempt, busy_deadline, jitter_bounds, next_failure_count, next_retrieval, rand_interval,
    sleep_duration, RetryAction,
};
use feedreader::text::{escape_comment, floor_char_boundary, is_blank};

#[test]
fn jitter_bounds_of_default_slack() {
    assert_eq!(jitter_bounds(600_000, 100), (570_000, 630_000));
    assert_eq!(jitter_bounds(1000, 0), (1000, 1000));
    for _ in 0..200 {
        let r = rand_interval(600_000, 100);
        assert!((570_000..630_000).contains(&r));
    }
    assert_eq!(rand_interval(1000, 0), 1000);
}

#[test]
fn next_retrieval_and_sleep() {
    assert_eq!(next_retrieval(100, 600_999), 700);
    assert_eq!(next_retrieval(i64::MAX - 1, 5000), i64::MAX);
    assert_eq!(sleep_duration(Some(130), 100, 5), 31_000);
    assert_eq!(sleep_duration(Some(90), 100, 5), 1000);
    assert_eq!(sleep_duration(None, 100, 5), 1005);
}

#[test]
fn failure_counter_saturates_and_trips() {
    assert_eq!(next_failure_count(0, true), (0, false));
    assert_eq!(next_failure_count(5, true), (4, false));
    assert_eq!(next_failure_count(0, false), (3, false));
    assert_eq!(next_failure_count(6, false), (9, true));
    assert_eq!(next_failure_count(u32::MAX - 1, false), (u32::MAX, true));
}

#[test]
fn busy_retry_policy() {
    assert_eq!(busy_deadline(5), 10_005);
    assert_eq!(after_attempt(false, 0, 10), RetryAction::Finish);
    assert_eq!(after_attempt(true, 5, 10), RetryAction::Retry(20));
    assert_eq!(after_attempt(true, 10, 10), RetryAction::GiveUp);
}

#[test]
fn database_names_and_paths() {
    assert_eq!(get_prefix(), "/");
    assert_eq!(get_varlib(), "/var/lib/feedreader");
    assert_eq!(join_path("/opt", "x"), "/opt/x");
    assert!(valid_db_name("feeds_2-a"));
    assert!(!valid_db_name("../x"));
    assert!(!valid_db_name("a b"));
    assert_eq!(Db::new("feeds").unwrap().path(), "/var/lib/feedreader/feeds.db");
    assert_eq!(Db::new_under("/opt/fr", "t").unwrap().path(), "/opt/fr/var/lib/feedreader/t.db");
    assert_eq!(Db::new("bad/name").unwrap_err(), DbError::InvalidName);
}

#[test]
fn form_fields_lookup() {
    let mut ff = FormFields::new();
    assert_eq!(ff.get_one("add"), None);
    ff.add("add", "http://a".to_string());
    ff.add("del", " 3".to_string());
    ff.add("del", "x".to_string());
    ff.add("del", "-7 ".to_string());
    ff.add("add", "http://b".to_string());
    assert_eq!(ff.get_one("add"), Some(&"http://b".to_string()));
    assert_eq!(ff.get_list("add").unwrap().len(), 2);
    assert_eq!(ff.get_list_i64("del"), Some(vec![3, -7]));
    assert_eq!(ff.get_list_i64("nope"), None);
}

#[test]
fn text_rules() {
    assert_eq!(floor_char_boundary("héllo", 2), 1);
    assert_eq!(floor_char_boundary("héllo", 3), 3);
    assert_eq!(floor_char_boundary("abc", 10), 3);
    assert_eq!(escape_comment("a-->b--->c"), "a_->b-_->c");
    assert!(is_blank(" \t\n"));
    assert!(!is_blank(" x "));
}

#[test]
fn cgi_rules() {
    assert_eq!(get_cgienv_str("abc"), Ok("abc".to_string()));
    assert_eq!(get_cgienv_str(&"x".repeat(4097)), Err(CgiEnvError::TooLong));
    assert_eq!(get_cgienv_u32(" 42 "), Ok(42));
    assert_eq!(get_cgienv_u32("12345678901"), Err(CgiEnvError::TooLongForU32));
    assert_eq!(get_cgienv_u32("4x"), Err(CgiEnvError::NotANumber));
    assert_eq!(get_cgienv_u32("4294967296"), Err(CgiEnvError::NotANumber));
    assert_eq!(check_post(0, "t"), Err(PostError::EmptyBody));
    assert_eq!(check_post(2_000_000, "t"), Err(PostError::BodyTooLarge));
    assert_eq!(check_post(10, ""), Err(PostError::NoContentType));
    assert_eq!(check_post(10, "multipart/form-data"), Ok(()));
    assert_eq!(request_method(" GET "), RequestMethod::Get);
    assert_eq!(request_method("PUT"), RequestMethod::Unsupported);
    assert_eq!(PageGenResult::html("b".to_string()).mime, "text/html");
}

#[test]
fn config_defaults_and_checks() {
    let c = Config::new();
    assert_eq!(c.net.timeout_secs, 10);
    assert_eq!(c.net.concurrency, 1);
    assert_eq!(c.db.refresh_interval_secs, 600);
    assert_eq!(c.db.gc_age_offset_secs, 180 * 86400);
    assert_eq!(c.db.policy().gc_age_offset_secs, 180 * 86400);
    assert_eq!(c.db.refresh_interval_ms(), 600_000);
    assert_eq!(duration_secs(-1), None);
    assert_eq!(duration_days(2), Some(172_800));
    assert_eq!(nonzero_count_of(0), None);
    assert_eq!(nonzero_count_of(4), Some(4));
    let o = Opts { db: "feeds".to_string(), worker_threads: 4, refresh_interval: 600, no_pidfile: false };
    assert_eq!(o.refresh_interval(), 600_000);
}
