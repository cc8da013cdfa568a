use legba::builtin_registry;
use legba::parse_target;
use legba::Credentials;
use legba::Error;
use legba::Mechanism;
use legba::Options;
use legba::PluginKind;
use legba::Redis;
use legba::Registry;
use legba::SMTP;
use legba::STOMP;

fn options(target: &str) -> Options {
    Options {
        target: Some(target.to_string()),
        redis_ssl: false,
        smtp_mechanism: "PLAIN".to_string(),
    }
}

#[test]
fn parse_target_with_port() {
    let (host, port) = parse_target("example.com:2525", 25).unwrap();
    assert_eq!(host, "example.com");
    assert_eq!(port, 2525);
}

#[test]
fn parse_target_uses_default_port() {
    let (host, port) = parse_target("example.com", 25).unwrap();
    assert_eq!(host, "example.com");
    assert_eq!(port, 25);
}

#[test]
fn parse_target_rejects_bad_targets() {
    assert!(matches!(parse_target("", 25), Err(Error::InvalidTarget(_))));
    assert!(matches!(parse_target("host:", 25), Err(Error::InvalidTarget(_))));
    assert!(matches!(parse_target(":25", 25), Err(Error::InvalidTarget(_))));
    assert!(matches!(parse_target("host:abc", 25), Err(Error::InvalidTarget(_))));
    assert!(matches!(parse_target("host:99999", 25), Err(Error::InvalidTarget(_))));
}

#[test]
fn redis_setup_and_payload() {
    let mut redis = Redis::new();
    redis.setup(&options("127.0.0.1:7000")).unwrap();
    assert_eq!(redis.host, "127.0.0.1");
    assert_eq!(redis.port, 7000);
    assert!(!redis.ssl);

    let creds = Credentials { username: "root".to_string(), password: "pw".to_string() };
    let payload = Redis::auth_payload(&creds);
    assert_eq!(payload, b"AUTH root pw\n".to_vec());
}

#[test]
fn redis_classifies_responses() {
    let creds = Credentials { username: "root".to_string(), password: "pw".to_string() };
    let loot = Redis::classify(&creds, b"+OK\r\n").unwrap();
    assert_eq!(loot.pairs[0], ("username".to_string(), "root".to_string()));
    assert_eq!(loot.pairs[1], ("password".to_string(), "pw".to_string()));
    assert!(Redis::classify(&creds, b"-ERR invalid password").is_none());
    assert!(Redis::classify(&creds, b"+O").is_none());
}

#[test]
fn redis_setup_rejects_bad_target_and_stores_nothing() {
    let mut redis = Redis::new();
    let r = redis.setup(&options("no-port:"));
    match r {
        Err(Error::InvalidTarget(t)) => assert_eq!(t, "no-port:"),
        other => panic!("expected InvalidTarget, got {:?}", other),
    }
    assert_eq!(redis.host, "");
    assert_eq!(redis.port, 6379);
    assert!(!redis.ssl);
}

#[test]
fn stomp_setup_rejects_missing_target_and_stores_nothing() {
    let mut stomp = STOMP::new();
    let mut opts = options("ignored");
    opts.target = None;
    let r = stomp.setup(&opts);
    match r {
        Err(Error::InvalidTarget(t)) => assert_eq!(t, ""),
        other => panic!("expected InvalidTarget, got {:?}", other),
    }
    assert_eq!(stomp.host, "");
    assert_eq!(stomp.port, 61613);
}

#[test]
fn stomp_frame_and_classify() {
    let mut stomp = STOMP::new();
    stomp.setup(&options("mq.local")).unwrap();
    assert_eq!(stomp.host, "mq.local");
    assert_eq!(stomp.port, 61613);

    let creds = Credentials { username: "guest".to_string(), password: "secret".to_string() };
    let frame = STOMP::connect_frame(&creds);
    assert_eq!(frame, b"CONNECT\nlogin:guest\npasscode:secret\n\n\x00\n".to_vec());

    assert!(STOMP::classify(&creds, b"CONNECTED\nversion:1.2\n").is_some());
    assert!(STOMP::classify(&creds, b"ERROR\nmessage:denied\n").is_none());
}

#[test]
fn smtp_setup_accepts_known_mechanisms() {
    for (name, mech) in [
        ("PLAIN", Mechanism::Plain),
        ("LOGIN", Mechanism::Login),
        ("XOAUTH2", Mechanism::Xoauth2),
    ] {
        let mut smtp = SMTP::new();
        let mut opts = options("mail.local:587");
        opts.smtp_mechanism = name.to_string();
        smtp.setup(&opts).unwrap();
        assert_eq!(smtp.host, "mail.local");
        assert_eq!(smtp.port, 587);
        assert_eq!(smtp.mechanism, mech);
    }
}

#[test]
fn smtp_setup_rejects_unknown_mechanism_and_stores_nothing() {
    let mut smtp = SMTP::new();
    let mut opts = options("mail.local");
    opts.smtp_mechanism = "BOGUS".to_string();
    let r = smtp.setup(&opts);
    match r {
        Err(Error::InvalidMechanism(m)) => assert_eq!(m, "BOGUS"),
        other => panic!("expected InvalidMechanism, got {:?}", other),
    }
    assert_eq!(smtp.host, "");
    assert_eq!(smtp.port, 25);
    assert_eq!(smtp.mechanism, Mechanism::Plain);
}

#[test]
fn smtp_setup_reports_target_error_before_mechanism_error() {
    let mut smtp = SMTP::new();
    let mut opts = options("bad:target:");
    opts.smtp_mechanism = "BOGUS".to_string();
    let r = smtp.setup(&opts);
    match r {
        Err(Error::InvalidTarget(t)) => assert_eq!(t, "bad:target:"),
        other => panic!("expected InvalidTarget, got {:?}", other),
    }
}

#[test]
fn smtp_classify_follows_auth_result() {
    let creds = Credentials { username: "u".to_string(), password: "p".to_string() };
    let loot = SMTP::classify(&creds, true).unwrap();
    assert_eq!(loot.pairs[1], ("password".to_string(), "p".to_string()));
    assert!(SMTP::classify(&creds, false).is_none());
}

#[test]
fn registry_resolves_builtin_protocols() {
    let registry = builtin_registry();
    assert_eq!(registry.lookup(&"redis".to_string()), Some(PluginKind::Redis));
    assert_eq!(registry.lookup(&"smtp".to_string()), Some(PluginKind::Smtp));
    assert_eq!(registry.lookup(&"stomp".to_string()), Some(PluginKind::Stomp));
    assert_eq!(registry.lookup(&"ftp".to_string()), None);
}

#[test]
fn registry_rejects_duplicate_registration() {
    let mut registry = Registry::new();
    registry.register("redis".to_string(), PluginKind::Redis).unwrap();
    let r = registry.register("redis".to_string(), PluginKind::Stomp);
    match r {
        Err(Error::DuplicatePlugin(name)) => assert_eq!(name, "redis"),
        other => panic!("expected DuplicatePlugin, got {:?}", other),
    }
}

#[test]
fn plugin_descriptions_are_stable() {
    assert_eq!(Redis::new().description(), "Redis legacy and ACL password authentication.");
    assert_eq!(SMTP::new().description(), "SMTP password authentication.");
    assert_eq!(
        STOMP::new().description(),
        "STOMP password authentication (ActiveMQ, RabbitMQ, HornetQ and OpenMQ)."
    );
}
