use my_timers::args::{args, Invocation};
use my_timers::db::{Config, DBConfigError};
use my_timers::signal::{new, SigNever, SignalKind, SignalSource};

fn config(driver: &str, protocol: &str) -> Config {
    Config {
        user: "u".to_string(),
        password: "p".to_string(),
        database: "d".to_string(),
        protocol: protocol.to_string(),
        address: String::new(),
        tls: false,
        driver: driver.to_string(),
    }
}

#[test]
fn default_config() {
    let c = Config::default();
    assert_eq!(c.protocol, "SOCKET");
    assert_eq!(c.driver, "mariadb");
    assert!(c.user.is_empty() && c.address.is_empty() && !c.tls);
}

#[test]
fn default_socket_address() {
    let mut c = config("mysql", "SOCKET");
    c.set_default_address();
    assert_eq!(c.address, "/var/run/mysqld/mysqld.sock");
    let mut c = config("postgres", "SOCKET");
    c.set_default_address();
    assert_eq!(c.address, "");
    let mut c = config("mariadb", "TCP");
    c.address = "db.example:3306".to_string();
    c.set_default_address();
    assert_eq!(c.address, "db.example:3306");
}

#[test]
fn config_validation() {
    assert!(config("mysql", "TCP").validate().is_ok());
    assert!(matches!(config("mysql", "UDP").validate(), Err(DBConfigError::InvalidProtocol(p)) if p == "UDP"));
    assert!(matches!(config("oracle", "TCP").validate(), Err(DBConfigError::InvalidDriver(d)) if d == "oracle"));
    let mut c = config("postgres", "TCP");
    c.user = String::new();
    assert!(matches!(c.validate(), Err(DBConfigError::MissingField(f)) if f == "user"));
    let mut c = config("mariadb", "TCP");
    c.database = String::new();
    assert!(matches!(c.validate(), Err(DBConfigError::MissingField(f)) if f == "database"));
    let mut c = config("sqlite", "SOCKET");
    assert!(matches!(c.validate(), Err(DBConfigError::MissingField(f)) if f == "address"));
    c.address = "/run/x.sock".to_string();
    assert!(matches!(c.validate(), Err(DBConfigError::MissingField(f)) if f == "address"));
    c.address = "/var/lib/timers.db".to_string();
    assert!(c.validate().is_ok());
}

#[test]
fn pretty_names() {
    let c = config("mysql", "SOCKET");
    assert_eq!(c.pretty_name(), "d via unix socket");
    let mut c = config("mysql", "TCP");
    c.address = "host".to_string();
    c.tls = true;
    assert_eq!(c.pretty_name(), "host/d via TCP (tls enabled)");
    c.tls = false;
    assert_eq!(c.pretty_name(), "host/d via TCP (tls disabled)");
}

fn argv(items: &[&str]) -> Vec<String> {
    items.iter().map(|s| s.to_string()).collect()
}

#[test]
fn arguments_and_fallbacks() {
    match args(&argv(&["my_timers", "-v", "-c", "c.json", "--events", "e.conf"]), None, None) {
        Invocation::Run { args, config_defaulted, events_defaulted } => {
            assert!(args.verbose);
            assert_eq!(args.config_path, "c.json");
            assert_eq!(args.events_path, "e.conf");
            assert!(!config_defaulted && !events_defaulted);
        }
        _ => panic!("expected a run"),
    }
    match args(&argv(&["my_timers"]), Some("env.json".to_string()), None) {
        Invocation::Run { args, config_defaulted, events_defaulted } => {
            assert!(!args.verbose);
            assert_eq!(args.config_path, "env.json");
            assert_eq!(args.events_path, "events.conf");
            assert!(!config_defaulted && events_defaulted);
        }
        _ => panic!("expected a run"),
    }
    match args(&argv(&["my_timers", "-c"]), None, None) {
        Invocation::Run { args, config_defaulted, .. } => {
            assert_eq!(args.config_path, "config.json");
            assert!(config_defaulted);
        }
        _ => panic!("expected a run"),
    }
}

#[test]
fn help_and_version_stop_reading() {
    assert!(matches!(args(&argv(&["my_timers", "-c", "x", "--help", "-V"]), None, None), Invocation::Help));
    assert!(matches!(args(&argv(&["my_timers", "-V", "-h"]), None, None), Invocation::Version));
}

#[test]
fn signal_sources() {
    assert_eq!(new(SignalKind::SIGTERM, true), SignalSource::Os(SignalKind::SIGTERM));
    assert_eq!(new(SignalKind::SIGTERM, false), SignalSource::Never(SigNever));
}
