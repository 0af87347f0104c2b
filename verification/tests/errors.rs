use sysmon::errors::exit_code;
use sysmon::errors::Error;
use sysmon::errors::ErrorKind;

#[test]
fn messages() {
    assert_eq!(ErrorKind::Message("boom".to_owned()).message(), "error: boom");
    assert_eq!(ErrorKind::Poison("lock".to_owned()).message(), "poison error: lock");
    assert_eq!(ErrorKind::TomlParse("[e]".to_owned()).message(), "parse error: [e]");
    assert_eq!(ErrorKind::TomlKey("[e]".to_owned()).message(), "parse error: [e]");
    assert_eq!(ErrorKind::TomlDecode.message(), "decode error");
    assert_eq!(ErrorKind::Config("a.toml".to_owned()).message(), "error in config: a.toml");
    assert_eq!(ErrorKind::ConfigSection("in".to_owned()).message(), "error in section: in");
    assert_eq!(
        ErrorKind::ConfigField("threads".to_owned(), "must be a positive number".to_owned()).message(),
        "error in field: threads: must be a positive number"
    );
    assert_eq!(ErrorKind::MissingPlugin("x".to_owned()).message(), "no such plugin: x");
    assert_eq!(ErrorKind::MissingField("type".to_owned()).message(), "missing field: type");
    assert_eq!(ErrorKind::Syntax("bad".to_owned()).message(), "syntax error: bad");
    assert_eq!(ErrorKind::Shutdown.message(), "shutdown");
    assert_eq!(ErrorKind::Poll.message(), "Poll");
    assert_eq!(ErrorKind::Update.message(), "Update");
    assert_eq!(ErrorKind::Setup.message(), "Setup");
    assert_eq!(ErrorKind::IO("no such file".to_owned()).message(), "no such file");
    assert_eq!(ErrorKind::Timer("late".to_owned()).message(), "late");
    assert_eq!(ErrorKind::SetLogger("twice".to_owned()).message(), "twice");
    assert_eq!(ErrorKind::Getopts("unknown".to_owned()).message(), "unknown");
}

#[test]
fn descriptions() {
    assert_eq!(ErrorKind::Message("boom".to_owned()).description(), "error");
    assert_eq!(ErrorKind::ConfigField("a".to_owned(), "b".to_owned()).description(), "error in field");
    assert_eq!(ErrorKind::Shutdown.description(), "shutdown");
    assert_eq!(ErrorKind::Poll.description(), "Poll");
}

#[test]
fn chains_and_reports() {
    let root = Error::new(ErrorKind::MissingField("type".to_owned()));
    assert!(root.causes.is_empty());
    let section = root.chain_err(ErrorKind::ConfigSection("cpu0".to_owned()));
    let part = section.chain_err(ErrorKind::ConfigSection("in".to_owned()));
    assert_eq!(part.kind, ErrorKind::ConfigSection("in".to_owned()));
    assert_eq!(
        part.causes,
        vec![
            ErrorKind::ConfigSection("cpu0".to_owned()),
            ErrorKind::MissingField("type".to_owned()),
        ]
    );
    assert_eq!(
        part.report(),
        vec![
            "error in section: in".to_owned(),
            "  caused by: error in section: cpu0".to_owned(),
            "  caused by: missing field: type".to_owned(),
        ]
    );
}

#[test]
fn exit_codes() {
    assert_eq!(exit_code(&Ok(())), 0);
    assert_eq!(exit_code(&Err(Error::new(ErrorKind::Shutdown))), 0);
    assert_eq!(exit_code(&Err(Error::new(ErrorKind::Poll))), 1);
    assert_eq!(exit_code(&Err(Error::new(ErrorKind::IO("gone".to_owned())))), 1);
    let caused_by_shutdown = Error::new(ErrorKind::Shutdown).chain_err(ErrorKind::Poll);
    assert_eq!(exit_code(&Err(caused_by_shutdown)), 1);
    assert!(Error::new(ErrorKind::Shutdown).is_shutdown());
    assert!(!Error::new(ErrorKind::Update).is_shutdown());
}
