use ddns_updater::api::{credentials_body_for, edit_url_for, retrieve_url_for, update_body_for};
use ddns_updater::config::parse_interval;
use ddns_updater::records::subdomain_of;
use ddns_updater::text::dot_labels;
use ddns_updater::{
    list_a_record_subdomains, normalize_ip, outcome_of_status, startup, Action, ConfigError,
    Credentials, Cycle, CycleError, Event, Outcome, Phase, Record,
};

fn rec(name: &str, r_type: &str) -> Record {
    Record::new(name.to_string(), r_type.to_string())
}

fn creds() -> Credentials {
    Credentials::new("sk".to_string(), "k".to_string())
}

fn strings(v: &[&str]) -> Vec<String> {
    v.iter().map(|s| s.to_string()).collect()
}

const BASE: &str = "https://api.porkbun.com/api/json/v3/dns/";

#[test]
fn subdomains_of_mixed_records() {
    let records = vec![
        rec("sub.example.com", "A"),
        rec("example.com", "A"),
        rec("sub2.example.com", "CNAME"),
    ];
    assert_eq!(list_a_record_subdomains(&records), strings(&["sub"]));
}

#[test]
fn subdomains_keep_list_order() {
    let records = vec![
        rec("www.example.com", "A"),
        rec("mail.example.com", "MX"),
        rec("a.b.example.com", "A"),
        rec("api.example.com", "A"),
    ];
    assert_eq!(list_a_record_subdomains(&records), strings(&["www", "a", "api"]));
}

#[test]
fn subdomains_of_empty_list() {
    assert!(list_a_record_subdomains(&Vec::new()).is_empty());
}

#[test]
fn subdomains_none_qualify() {
    let records = vec![rec("example.com", "A"), rec("x.example.com", "AAAA"), rec("com", "A")];
    assert!(list_a_record_subdomains(&records).is_empty());
}

#[test]
fn subdomain_type_is_exact() {
    assert!(subdomain_of(&rec("x.example.com", "a")).is_none());
    assert!(subdomain_of(&rec("x.example.com", "AA")).is_none());
    assert_eq!(subdomain_of(&rec("x.example.com", "A")), Some("x".to_string()));
}

#[test]
fn dot_labels_counts_pieces() {
    assert_eq!(dot_labels(""), (1, String::new()));
    assert_eq!(dot_labels("example.com"), (2, "example".to_string()));
    assert_eq!(dot_labels("a.b.c.d.e"), (3, "a".to_string()));
    assert_eq!(dot_labels(".example.com"), (3, String::new()));
}

#[test]
fn status_outcomes() {
    assert_eq!(outcome_of_status(200), Outcome::Updated);
    assert_eq!(outcome_of_status(204), Outcome::Updated);
    assert_eq!(outcome_of_status(299), Outcome::Updated);
    assert_eq!(outcome_of_status(199), Outcome::Unchanged);
    assert_eq!(outcome_of_status(300), Outcome::Unchanged);
    assert_eq!(outcome_of_status(400), Outcome::Unchanged);
    assert_eq!(outcome_of_status(500), Outcome::Unchanged);
}

#[test]
fn ip_newline_is_trimmed() {
    assert_eq!(normalize_ip("203.0.113.5\n"), "203.0.113.5");
}

#[test]
fn ip_trim_edges() {
    assert_eq!(normalize_ip(""), "");
    assert_eq!(normalize_ip(" \t\r\n"), "");
    assert_eq!(normalize_ip("\u{a0} 2001:db8::1 \u{3000}"), "2001:db8::1");
    assert_eq!(normalize_ip("a b"), "a b");
}

#[test]
fn urls_and_bodies() {
    assert_eq!(retrieve_url_for("example.com"), format!("{BASE}retrieve/example.com"));
    assert_eq!(edit_url_for("example.com", ""), format!("{BASE}editByNameType/example.com/A/"));
    assert_eq!(
        edit_url_for("example.com", "www"),
        format!("{BASE}editByNameType/example.com/A/www")
    );
    assert_eq!(credentials_body_for(&creds()), "{\"secretapikey\":\"sk\",\"apikey\":\"k\"}");
    assert_eq!(
        update_body_for(&creds(), "1.2.3.4"),
        "{\"secretapikey\":\"sk\",\"apikey\":\"k\",\"content\":\"1.2.3.4\"}"
    );
}

#[test]
fn body_escapes_quotes() {
    let c = Credentials::new("a\"b".to_string(), "c\\d".to_string());
    assert_eq!(credentials_body_for(&c), "{\"secretapikey\":\"a\\\"b\",\"apikey\":\"c\\\\d\"}");
}

fn begin(site: &str) -> Cycle {
    let (cycle, action) = Cycle::start(site, &creds());
    assert!(matches!(action, Action::FetchIp));
    assert_eq!(cycle.phase(), Phase::AwaitIp);
    cycle
}

fn two_subdomain_records() -> Vec<Record> {
    vec![rec("www.example.com", "A"), rec("example.com", "A"), rec("api.example.com", "A")]
}

#[test]
fn cycle_unchanged_root_sends_no_subdomain_update() {
    let mut c = begin("example.com");
    match c.step(Event::IpFetched("203.0.113.5\n".to_string())) {
        Action::ListRecords { url, body } => {
            assert_eq!(url, format!("{BASE}retrieve/example.com"));
            assert_eq!(body, "{\"secretapikey\":\"sk\",\"apikey\":\"k\"}");
        }
        other => panic!("unexpected {other:?}"),
    }
    assert_eq!(c.ip(), "203.0.113.5");
    match c.step(Event::RecordsFetched(two_subdomain_records())) {
        Action::UpdateRoot { url, body } => {
            assert_eq!(url, format!("{BASE}editByNameType/example.com/A/"));
            assert_eq!(
                body,
                "{\"secretapikey\":\"sk\",\"apikey\":\"k\",\"content\":\"203.0.113.5\"}"
            );
        }
        other => panic!("unexpected {other:?}"),
    }
    assert!(matches!(c.step(Event::Status(400)), Action::Done(Outcome::Unchanged)));
    assert_eq!(c.phase(), Phase::Finished(Outcome::Unchanged));
    assert!(matches!(c.step(Event::Status(200)), Action::Ignore));
}

#[test]
fn cycle_updated_root_updates_each_subdomain_in_order() {
    let mut c = begin("example.com");
    c.step(Event::IpFetched("203.0.113.5\n".to_string()));
    c.step(Event::RecordsFetched(two_subdomain_records()));
    let body = "{\"secretapikey\":\"sk\",\"apikey\":\"k\",\"content\":\"203.0.113.5\"}";
    let mut seen: Vec<String> = Vec::new();
    let mut action = c.step(Event::Status(200));
    loop {
        match action {
            Action::UpdateSubdomain { label, url, body: b } => {
                assert_eq!(url, format!("{BASE}editByNameType/example.com/A/{label}"));
                assert_eq!(b, body);
                seen.push(label);
                action = c.step(Event::Status(500));
            }
            Action::Done(Outcome::Updated) => break,
            other => panic!("unexpected {other:?}"),
        }
    }
    assert_eq!(seen, strings(&["www", "api"]));
    assert_eq!(c.phase(), Phase::Finished(Outcome::Updated));
}

#[test]
fn cycle_updated_root_without_subdomains_ends() {
    let mut c = begin("example.com");
    c.step(Event::IpFetched("1.1.1.1".to_string()));
    c.step(Event::RecordsFetched(vec![rec("example.com", "A")]));
    assert!(matches!(c.step(Event::Status(201)), Action::Done(Outcome::Updated)));
}

#[test]
fn cycle_unreadable_records_is_api_error() {
    let mut c = begin("example.com");
    c.step(Event::IpFetched("1.1.1.1".to_string()));
    assert!(matches!(c.step(Event::RecordsUnreadable), Action::Fail(CycleError::Api)));
    assert_eq!(c.phase(), Phase::Failed(CycleError::Api));
    assert!(CycleError::Api.message().contains("API enabled"));
}

#[test]
fn cycle_transport_failure_is_network_error() {
    let mut c = begin("example.com");
    assert!(matches!(c.step(Event::TransportFailed), Action::Fail(CycleError::Network)));
    let mut c = begin("example.com");
    c.step(Event::IpFetched("1.1.1.1".to_string()));
    c.step(Event::RecordsFetched(two_subdomain_records()));
    c.step(Event::Status(200));
    assert!(matches!(c.step(Event::TransportFailed), Action::Fail(CycleError::Network)));
    assert!(matches!(c.step(Event::Status(200)), Action::Ignore));
}

#[test]
fn cycle_ignores_unexpected_event() {
    let mut c = begin("example.com");
    assert!(matches!(c.step(Event::Status(200)), Action::Ignore));
    assert_eq!(c.phase(), Phase::AwaitIp);
}

fn args(v: &[&str]) -> Vec<String> {
    strings(v)
}

#[test]
fn startup_missing_secret() {
    let r = startup(&args(&["example.com", "5"]), None, Some("k".to_string()));
    assert!(matches!(r, Err(ConfigError::MissingSecretApiKey)));
}

#[test]
fn startup_missing_api_key() {
    let r = startup(&args(&["example.com", "5"]), Some("s".to_string()), None);
    assert!(matches!(r, Err(ConfigError::MissingApiKey)));
}

#[test]
fn startup_too_many_arguments() {
    let r = startup(&args(&["a", "5", "x"]), Some("s".to_string()), Some("k".to_string()));
    assert!(matches!(r, Err(ConfigError::TooManyArguments)));
    assert_eq!(ConfigError::TooManyArguments.message(), "Too many arguments");
}

#[test]
fn startup_missing_site_and_interval() {
    let s = || Some("s".to_string());
    let k = || Some("k".to_string());
    assert!(matches!(startup(&args(&[]), s(), k()), Err(ConfigError::MissingSite)));
    assert!(matches!(startup(&args(&["a"]), s(), k()), Err(ConfigError::MissingInterval)));
    assert!(matches!(
        startup(&args(&["a", "five"]), s(), k()),
        Err(ConfigError::InvalidInterval)
    ));
}

#[test]
fn startup_ok() {
    let c = startup(&args(&["example.com", "15"]), Some("s".to_string()), Some("k".to_string()))
        .unwrap();
    assert_eq!(c.site, "example.com");
    assert_eq!(c.interval_minutes, 15);
    assert_eq!(c.credentials.secret_api_key, "s");
    assert_eq!(c.credentials.api_key, "k");
    assert_eq!(c.interval_seconds(), 900);
}

#[test]
fn interval_parsing() {
    assert_eq!(parse_interval("5"), Some(5));
    assert_eq!(parse_interval("+7"), Some(7));
    assert_eq!(parse_interval("007"), Some(7));
    assert_eq!(parse_interval("18446744073709551615"), Some(u64::MAX));
    assert_eq!(parse_interval("18446744073709551616"), None);
    assert_eq!(parse_interval("0"), None);
    assert_eq!(parse_interval(""), None);
    assert_eq!(parse_interval("+"), None);
    assert_eq!(parse_interval("-3"), None);
    assert_eq!(parse_interval("1 "), None);
    assert_eq!(parse_interval("99999999999999999999x"), None);
}

#[test]
fn interval_seconds_saturates() {
    let c = startup(
        &args(&["a", "18446744073709551615"]),
        Some("s".to_string()),
        Some("k".to_string()),
    )
    .unwrap();
    assert_eq!(c.interval_seconds(), u64::MAX);
}
