use blockfast::addr::IpAddr;
use blockfast::dispatch::{Assessment, DispatchError, Dispatcher, Outcome, ParserKind, Settings};
use blockfast::jail::Jail;
use blockfast::utils::{ConfigError, ParseError, StatusListError};

fn settings() -> Settings {
    Settings {
        sshd_logpath: Some("/var/log/auth.log".to_string()),
        clf_logpath: Some("/var/log/access.log".to_string()),
        json_logpath: None,
        generic_logpath: None,
        generic_ip: None,
        generic_positive: None,
        generic_negative: None,
        valid_http_statuses: "10x,20x,30x,404,408".to_string(),
    }
}

#[test]
fn lines_are_routed_by_source() {
    let d = Dispatcher::configure(settings()).unwrap();
    assert_eq!(d.route("/var/log/auth.log"), Some(ParserKind::Sshd));
    assert_eq!(d.route("/var/log/access.log"), Some(ParserKind::Clf));
    assert_eq!(d.route("/var/log/other.log"), None);
}

#[test]
fn offences_reach_the_jail() {
    let d = Dispatcher::configure(settings()).unwrap();
    let mut jail = Jail::new(2, 60);
    let line = "1.2.3.4 - - [25/Sep/2021:13:49:56 +0200] \"GET /wp-login.php HTTP/1.1\" 403 12";
    let a = IpAddr::V4(0x0102_0304);
    assert_eq!(
        d.assess(&mut jail, "/var/log/access.log", line, 100),
        Ok(Assessment { parser: ParserKind::Clf, outcome: Outcome::Remanded(a) })
    );
    assert_eq!(
        d.assess(&mut jail, "/var/log/access.log", line, 101),
        Ok(Assessment { parser: ParserKind::Clf, outcome: Outcome::Banned(a) })
    );
    let ok = "1.2.3.4 - - [25/Sep/2021:13:49:56 +0200] \"GET / HTTP/1.1\" 200 12";
    assert_eq!(
        d.assess(&mut jail, "/var/log/access.log", ok, 102),
        Ok(Assessment { parser: ParserKind::Clf, outcome: Outcome::Benign })
    );
}

#[test]
fn bad_lines_are_reported_and_skipped() {
    let d = Dispatcher::configure(settings()).unwrap();
    let mut jail = Jail::new(2, 60);
    assert_eq!(d.assess(&mut jail, "/elsewhere", "x", 0), Err(DispatchError::UnknownSource));
    assert_eq!(
        d.assess(&mut jail, "/var/log/auth.log", "Failed password for root from nowhere port 1", 0),
        Err(DispatchError::Parse(ParseError::Address))
    );
    let line = "Invalid user neal from 35.184.211.144";
    assert_eq!(
        d.assess(&mut jail, "/var/log/auth.log", line, 1),
        Ok(Assessment { parser: ParserKind::Sshd, outcome: Outcome::Remanded(IpAddr::V4(0x23b8_d390)) })
    );
}

#[test]
fn generic_source_is_configured() {
    let mut s = settings();
    s.generic_logpath = Some("/var/log/app.log".to_string());
    s.generic_ip = Some(r"from ([0-9a-fA-F:.]+) port".to_string());
    s.generic_negative = Some("Successful login".to_string());
    let d = Dispatcher::configure(s).unwrap();
    let mut jail = Jail::new(5, 60);
    assert_eq!(d.route("/var/log/app.log"), Some(ParserKind::Generic));
    assert_eq!(
        d.assess(&mut jail, "/var/log/app.log", "Successful login from 1.1.1.1 port 2", 0),
        Ok(Assessment { parser: ParserKind::Generic, outcome: Outcome::Benign })
    );
    assert_eq!(
        d.assess(&mut jail, "/var/log/app.log", "Odd thing from ::1 port 2", 0),
        Ok(Assessment { parser: ParserKind::Generic, outcome: Outcome::Remanded(IpAddr::V6(1)) })
    );
}

#[test]
fn settings_are_checked() {
    let mut s = settings();
    s.valid_http_statuses = "4z".to_string();
    assert!(matches!(Dispatcher::configure(s), Err(ConfigError::Statuses(StatusListError::InvalidStatus))));

    let mut s = settings();
    s.generic_positive = Some("Failed".to_string());
    assert!(matches!(Dispatcher::configure(s), Err(ConfigError::GenericIncomplete)));

    let mut s = settings();
    s.generic_logpath = Some("/var/log/app.log".to_string());
    s.generic_ip = Some("(.*)".to_string());
    assert!(matches!(Dispatcher::configure(s), Err(ConfigError::GenericFilter)));

    let mut s = settings();
    s.generic_logpath = Some("/var/log/app.log".to_string());
    s.generic_ip = Some("(".to_string());
    s.generic_positive = Some("Failed".to_string());
    assert!(matches!(Dispatcher::configure(s), Err(ConfigError::InvalidPattern)));

    let mut s = settings();
    s.sshd_logpath = None;
    s.clf_logpath = None;
    assert!(matches!(Dispatcher::configure(s), Err(ConfigError::NoSources)));
}

#[test]
fn generic_source_alone_is_enough() {
    let mut s = settings();
    s.sshd_logpath = None;
    s.clf_logpath = None;
    s.generic_logpath = Some("/var/log/app.log".to_string());
    s.generic_ip = Some("(.*)".to_string());
    s.generic_positive = Some("Failed".to_string());
    assert!(Dispatcher::configure(s).is_ok());
}
