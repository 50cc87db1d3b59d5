use egrex::cli::{Cli, Command, SetCommand};
use egrex::config::{parse_listen_addr, reload_action, AppConfig, ConfigError, RawConfig, Reload};

fn raw() -> RawConfig {
    RawConfig {
        host: None,
        port: None,
        listen: None,
        check_url: None,
        check_fallback_url: None,
        max_latency: None,
        fofa_api: None,
        fofa_key: None,
    }
}

#[test]
fn default_config() {
    let c = AppConfig::default();
    assert_eq!(c.host, "127.0.0.1");
    assert_eq!(c.port, 1080);
    assert_eq!(c.check_url, "https://cloudflare.com/cdn-cgi/trace");
    assert_eq!(c.check_fallback_url, "");
    assert_eq!(c.max_latency, 5000);
    assert_eq!(c.fofa_api, "https://fofa.info/api/v1/");
    assert_eq!(c.fofa_key, "");
    assert_eq!(c.listen_addr(), "127.0.0.1:1080");
}

#[test]
fn parse_listen_addr_splits_at_last_colon() {
    assert_eq!(parse_listen_addr("0.0.0.0:1081"), Some(("0.0.0.0".to_string(), 1081)));
    assert_eq!(parse_listen_addr("[::1]:8080"), Some(("::1".to_string(), 8080)));
    assert_eq!(parse_listen_addr(":9"), Some((String::new(), 9)));
    assert_eq!(parse_listen_addr("h:+80"), Some(("h".to_string(), 80)));
    assert_eq!(parse_listen_addr("h:65535"), Some(("h".to_string(), 65535)));
}

#[test]
fn parse_listen_addr_refuses_bad_ports() {
    assert_eq!(parse_listen_addr("localhost"), None);
    assert_eq!(parse_listen_addr("h:"), None);
    assert_eq!(parse_listen_addr("h:65536"), None);
    assert_eq!(parse_listen_addr("h:-1"), None);
    assert_eq!(parse_listen_addr("h:8a"), None);
    assert_eq!(parse_listen_addr("h:+"), None);
    assert_eq!(parse_listen_addr("h: 80"), None);
}

#[test]
fn parse_listen_addr_agrees_with_std() {
    for s in ["1:0", "a:00080", "a:1:2", "x:99999999999", "[h]:7", "::", "a:+0"] {
        let expected = s
            .rsplit_once(':')
            .and_then(|(h, p)| p.parse::<u16>().ok().map(|p| (h.trim_matches(['[', ']']).to_string(), p)));
        assert_eq!(parse_listen_addr(s), expected, "{s}");
    }
}

#[test]
fn listen_address_round_trip() {
    let mut c = AppConfig::default();
    c.host = "10.1.2.3".to_string();
    c.port = 65535;
    assert_eq!(parse_listen_addr(&c.listen_addr()), Some(("10.1.2.3".to_string(), 65535)));
}

#[test]
fn raw_config_uses_listen_then_fields() {
    let mut r = raw();
    r.listen = Some("0.0.0.0:2000".to_string());
    let c = r.into_app_config();
    assert_eq!((c.host.as_str(), c.port), ("0.0.0.0", 2000));

    let mut r = raw();
    r.listen = Some("0.0.0.0:2000".to_string());
    r.port = Some(3000);
    r.max_latency = Some(250);
    r.fofa_key = Some("k".to_string());
    let c = r.into_app_config();
    assert_eq!((c.host.as_str(), c.port), ("0.0.0.0", 3000));
    assert_eq!(c.max_latency, 250);
    assert_eq!(c.fofa_key, "k");
    assert_eq!(c.check_url, "https://cloudflare.com/cdn-cgi/trace");

    let mut r = raw();
    r.listen = Some("garbage".to_string());
    r.host = Some("h".to_string());
    let c = r.into_app_config();
    assert_eq!((c.host.as_str(), c.port), ("h", 1080));
}

#[test]
fn apply_set_commands() {
    let mut c = AppConfig::default();
    assert_eq!(c.apply(SetCommand::Host { value: "0.0.0.0".to_string() }), Ok(()));
    assert_eq!(c.apply(SetCommand::Port { value: 9000 }), Ok(()));
    assert_eq!(c.listen_addr(), "0.0.0.0:9000");
    assert_eq!(c.apply(SetCommand::MaxLatency { value: 0 }), Ok(()));
    assert_eq!(c.max_latency, 1);
    assert_eq!(c.apply(SetCommand::MaxLatency { value: 800 }), Ok(()));
    assert_eq!(c.max_latency, 800);
    assert_eq!(c.apply(SetCommand::FofaKey { value: "key".to_string() }), Ok(()));
    assert_eq!(c.fofa_key, "key");
    assert_eq!(
        c.apply(SetCommand::CheckUrl { value: "http://example.com/x".to_string() }),
        Ok(())
    );
    assert_eq!(c.check_url, "http://example.com/x");
    assert_eq!(
        c.apply(SetCommand::CheckFallbackUrl { value: "https://b.example".to_string() }),
        Ok(())
    );
    assert_eq!(c.check_fallback_url, "https://b.example");
    assert_eq!(c.apply(SetCommand::FofaApi { value: "https://f.example/api/".to_string() }), Ok(()));
    assert_eq!(c.fofa_api, "https://f.example/api/");
}

#[test]
fn apply_refuses_invalid_urls() {
    let mut c = AppConfig::default();
    let before = c.clone();
    for cmd in [
        SetCommand::CheckUrl { value: "not a url".to_string() },
        SetCommand::CheckFallbackUrl { value: "".to_string() },
        SetCommand::FofaApi { value: "example.com/api".to_string() },
    ] {
        assert_eq!(c.apply(cmd), Err(ConfigError::InvalidUrl));
        assert_eq!(c.check_url, before.check_url);
        assert_eq!(c.check_fallback_url, before.check_fallback_url);
        assert_eq!(c.fofa_api, before.fofa_api);
    }
}

#[test]
fn reload_decisions() {
    let a = AppConfig::default();
    let mut b = a.clone();
    assert_eq!(reload_action(&a, &b), Reload::Keep);
    b.fofa_key = "k".to_string();
    assert_eq!(reload_action(&a, &b), Reload::Update);
    b.port = 1081;
    assert_eq!(reload_action(&a, &b), Reload::Rebind);
    let mut c = a.clone();
    c.host = "127.0.0.1:1".to_string();
    c.port = 1080;
    assert_eq!(reload_action(&a, &c), Reload::Rebind);
}

#[test]
fn command_defaults_to_run() {
    assert!(matches!(Cli { command: None }.into_command(), Command::Run));
    assert!(matches!(
        Cli { command: Some(Command::Stop { force: true }) }.into_command(),
        Command::Stop { force: true }
    ));
}

#[test]
fn saved_config_reads_back() {
    let mut c = AppConfig::default();
    c.host = "0.0.0.0".to_string();
    c.port = 9090;
    c.check_fallback_url = "https://b.example/".to_string();
    c.max_latency = 1;
    c.fofa_key = "secret".to_string();
    let stored = RawConfig::stored(&c);
    assert!(stored.listen.is_none());
    let back = stored.into_app_config();
    assert_eq!(reload_action(&c, &back), Reload::Keep);
    assert_eq!(back.listen_addr(), "0.0.0.0:9090");
    assert_eq!(back.fofa_key, "secret");
}

#[test]
fn blank_config_text_means_defaults() {
    let c = egrex::config::blank_config(" \n\t").unwrap();
    assert_eq!(c.listen_addr(), "127.0.0.1:1080");
    assert!(egrex::config::blank_config("").is_some());
    assert!(egrex::config::blank_config("port = 1").is_none());
}
