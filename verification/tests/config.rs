use base64::Engine;
use http_proxy_lb::config::{
    basic_auth_value, split_host_port, BalanceMode, Config, ConfigDraft, ConfigError,
    DomainPolicyConfig, DomainPolicyDraft, DomainPolicyMode, HealthCheckConfig, HealthCheckDraft,
    LimitsConfig, LimitsDraft, UpstreamConfig, UpstreamDraft,
};
use yaml_serde::Value;

fn upstream(url: &str) -> UpstreamConfig {
    UpstreamConfig {
        url: url.to_string(),
        weight: 1,
        priority: 100,
        username: None,
        password: None,
    }
}

fn text_in(v: &Value, key: &str) -> Option<String> {
    v.get(key).map(|x| x.as_str().unwrap().to_string())
}

fn number_in(v: &Value, key: &str) -> Option<u64> {
    v.get(key).map(|x| x.as_u64().unwrap())
}

fn parse_upstream(v: &Value) -> UpstreamDraft {
    UpstreamDraft {
        url: text_in(v, "url").unwrap(),
        weight: number_in(v, "weight").map(|n| u32::try_from(n).unwrap()),
        priority: number_in(v, "priority").map(|n| u32::try_from(n).unwrap()),
        username: text_in(v, "username"),
        password: text_in(v, "password"),
    }
}

fn parse_policy(v: &Value) -> DomainPolicyDraft {
    DomainPolicyDraft {
        mode: text_in(v, "mode").map(|m| match m.as_str() {
            "off" => DomainPolicyMode::Off,
            "blacklist" => DomainPolicyMode::Blacklist,
            "whitelist" => DomainPolicyMode::Whitelist,
            other => panic!("unknown mode {other}"),
        }),
        domains: v.get("domains").map(|d| {
            d.as_sequence()
                .unwrap()
                .iter()
                .map(|x| x.as_str().unwrap().to_string())
                .collect()
        }),
    }
}

fn parse(yaml: &str) -> Config {
    let v: Value = yaml_serde::from_str(yaml).unwrap();
    let draft = ConfigDraft {
        listen: text_in(&v, "listen").unwrap(),
        admin_listen: text_in(&v, "admin_listen"),
        mode: text_in(&v, "mode").map(|m| match m.as_str() {
            "round_robin" => BalanceMode::RoundRobin,
            "best" => BalanceMode::Best,
            "priority" => BalanceMode::Priority,
            other => panic!("unknown mode {other}"),
        }),
        reload_interval_secs: number_in(&v, "reload_interval_secs"),
        health_check: v.get("health_check").map(|h| HealthCheckDraft {
            interval_secs: number_in(h, "interval_secs"),
            timeout_secs: number_in(h, "timeout_secs"),
        }),
        domain_policy: v.get("domain_policy").map(parse_policy),
        limits: v.get("limits").map(|l| LimitsDraft {
            max_connections: number_in(l, "max_connections"),
            request_timeout_secs: number_in(l, "request_timeout_secs"),
            shutdown_timeout_secs: number_in(l, "shutdown_timeout_secs"),
        }),
        access_log: v.get("access_log").map(|b| b.as_bool().unwrap()),
        upstream: v
            .get("upstream")
            .map(|u| u.as_sequence().unwrap().iter().map(parse_upstream).collect()),
    };
    draft.complete()
}

#[test]
fn test_host_port_plain() {
    let cfg = UpstreamConfig {
        url: "http://proxy.example.com:8080".to_string(),
        weight: 1,
        priority: 100,
        username: None,
        password: None,
    };
    let (host, port) = cfg.host_port().unwrap();
    assert_eq!(host, "proxy.example.com");
    assert_eq!(port, 8080);
}

#[test]
fn test_host_port_default_port() {
    let cfg = UpstreamConfig {
        url: "http://proxy.example.com".to_string(),
        weight: 1,
        priority: 100,
        username: None,
        password: None,
    };
    let (host, port) = cfg.host_port().unwrap();
    assert_eq!(host, "proxy.example.com");
    assert_eq!(port, 8080);
}

#[test]
fn test_proxy_auth_header() {
    let cfg = UpstreamConfig {
        url: "http://p:1".to_string(),
        weight: 1,
        priority: 100,
        username: Some("alice".to_string()),
        password: Some("s3cr3t".to_string()),
    };
    let hdr = cfg.proxy_auth_header().unwrap();
    assert!(hdr.starts_with("Basic "));
    // base64("alice:s3cr3t")
    let expected = base64::engine::general_purpose::STANDARD.encode("alice:s3cr3t");
    assert_eq!(hdr, format!("Basic {expected}"));
}

#[test]
fn test_proxy_auth_header_none() {
    let cfg = UpstreamConfig {
        url: "http://p:1".to_string(),
        weight: 1,
        priority: 100,
        username: None,
        password: None,
    };
    assert!(cfg.proxy_auth_header().is_none());
}

#[test]
fn test_parse_yaml() {
    let yaml = r#"
listen: "127.0.0.1:9090"
mode: best
upstream:
  - url: "http://a:1"
    weight: 2
    priority: 10
  - url: "http://b:2"
"#;
    let cfg: Config = parse(yaml);
    assert_eq!(cfg.listen, "127.0.0.1:9090");
    assert_eq!(cfg.mode, BalanceMode::Best);
    assert_eq!(cfg.upstream.len(), 2);
    assert_eq!(cfg.upstream[0].weight, 2);
    assert_eq!(cfg.upstream[0].priority, 10);
    assert_eq!(cfg.upstream[1].weight, 1); // default
    assert_eq!(cfg.upstream[1].priority, 100); // default
}

#[test]
fn test_parse_yaml_defaults() {
    let yaml = r#"
listen: "0.0.0.0:8080"
upstream: []
"#;
    let cfg: Config = parse(yaml);
    assert_eq!(cfg.mode, BalanceMode::RoundRobin);
    assert_eq!(cfg.reload_interval_secs, 60);
    assert_eq!(cfg.health_check.interval_secs, 30);
    assert_eq!(cfg.health_check.timeout_secs, 5);
    assert_eq!(cfg.domain_policy.mode, DomainPolicyMode::Off);
    assert!(cfg.domain_policy.domains.is_empty());
}

#[test]
fn test_parse_yaml_domain_policy() {
    let yaml = r#"
listen: "0.0.0.0:8080"
domain_policy:
  mode: blacklist
  domains:
    - "example.com"
    - "internal.local"
upstream: []
"#;
    let cfg: Config = parse(yaml);
    assert_eq!(cfg.domain_policy.mode, DomainPolicyMode::Blacklist);
    assert_eq!(cfg.domain_policy.domains.len(), 2);
    assert_eq!(cfg.domain_policy.domains[0], "example.com");
}

#[test]
fn documented_configuration_is_understood() {
    let yaml = r#"
listen: "127.0.0.1:8080"
admin_listen: "127.0.0.1:9090"
mode: round_robin
reload_interval_secs: 60
access_log: false
health_check:
  interval_secs: 30
  timeout_secs: 5
limits:
  max_connections: 0
  request_timeout_secs: 0
  shutdown_timeout_secs: 30
domain_policy:
  mode: off
  domains: []
upstream:
  - url: "http://proxy1.example.com:8080"
    weight: 1
    priority: 10
  - url: "http://proxy2.example.com:8080"
    weight: 2
    priority: 20
    username: "user"
    password: "secret"
"#;
    let cfg = parse(yaml);
    assert_eq!(cfg.admin_listen.as_deref(), Some("127.0.0.1:9090"));
    assert_eq!(cfg.mode, BalanceMode::RoundRobin);
    assert!(!cfg.access_log);
    assert_eq!(cfg.limits, LimitsConfig::default());
    assert_eq!(cfg.health_check, HealthCheckConfig::default());
    assert_eq!(cfg.upstream[1].weight, 2);
    assert_eq!(cfg.upstream[1].priority, 20);
    assert_eq!(
        cfg.upstream[1].proxy_auth_header().unwrap(),
        "Basic dXNlcjpzZWNyZXQ="
    );
    assert!(cfg.validate().is_ok());
}

#[test]
fn defaults_of_partial_sections() {
    let yaml = r#"
listen: "0.0.0.0:8080"
access_log: true
health_check:
  interval_secs: 7
limits:
  max_connections: 3
domain_policy:
  mode: whitelist
"#;
    let cfg = parse(yaml);
    assert!(cfg.access_log);
    assert_eq!(cfg.health_check.interval_secs, 7);
    assert_eq!(cfg.health_check.timeout_secs, 5);
    assert_eq!(cfg.limits.max_connections, 3);
    assert_eq!(cfg.limits.request_timeout_secs, 0);
    assert_eq!(cfg.limits.shutdown_timeout_secs, 30);
    assert_eq!(cfg.domain_policy.mode, DomainPolicyMode::Whitelist);
    assert!(cfg.domain_policy.domains.is_empty());
    assert!(cfg.upstream.is_empty());
    assert!(cfg.admin_listen.is_none());
}

#[test]
fn default_values() {
    assert_eq!(BalanceMode::default(), BalanceMode::RoundRobin);
    assert_eq!(DomainPolicyMode::default(), DomainPolicyMode::Off);
    let policy = DomainPolicyConfig::default();
    assert_eq!(policy.mode, DomainPolicyMode::Off);
    assert!(policy.domains.is_empty());
    let copy = DomainPolicyConfig {
        mode: DomainPolicyMode::Blacklist,
        domains: vec!["a".to_string(), "b".to_string()],
    }
    .clone();
    assert_eq!(copy.mode, DomainPolicyMode::Blacklist);
    assert_eq!(copy.domains, vec!["a".to_string(), "b".to_string()]);
}

#[test]
fn host_port_of_unusual_urls() {
    let at = |url: &str| upstream(url).host_port().unwrap();
    assert_eq!(at("https://p:3128/"), ("p".to_string(), 3128));
    assert_eq!(at("p"), ("p".to_string(), 8080));
    assert_eq!(at("p:"), ("p".to_string(), 8080));
    assert_eq!(at("p:x"), ("p".to_string(), 8080));
    assert_eq!(at("p:65535"), ("p".to_string(), 65535));
    assert_eq!(at("p:65536"), ("p".to_string(), 8080));
    assert_eq!(at("p:+81"), ("p".to_string(), 81));
    assert_eq!(at("p:0080"), ("p".to_string(), 80));
    assert_eq!(at("http://http://p:1///"), ("p".to_string(), 1));
    assert_eq!(at("http://https://p:1"), ("p".to_string(), 1));
    assert_eq!(at("https://http://p:1"), ("http".to_string(), 8080));
    assert_eq!(at("p:1:2"), ("p".to_string(), 8080));
}

#[test]
fn invalid_upstream_url_is_an_error() {
    for url in ["", "http://", "https:///", ":8080", "http://:1"] {
        match upstream(url).host_port() {
            Err(e) => assert_eq!(e.message(), format!("Invalid upstream URL: {url}")),
            Ok(_) => panic!("accepted {url}"),
        }
    }
}

#[test]
fn validate_names_the_first_invalid_url() {
    let mut cfg = parse("listen: \"0.0.0.0:1\"\n");
    assert!(cfg.validate().is_ok());
    cfg.upstream = vec![upstream("http://a:1"), upstream("http://:2"), upstream("")];
    match cfg.validate() {
        Err(ConfigError::InvalidUpstreamUrl(url)) => assert_eq!(url, "http://:2"),
        Ok(()) => panic!("accepted"),
    }
}

#[test]
fn auth_needs_both_credentials() {
    let mut cfg = upstream("http://p:1");
    cfg.username = Some("u".to_string());
    assert!(cfg.proxy_auth_header().is_none());
    cfg.password = Some(String::new());
    assert_eq!(cfg.proxy_auth_header().unwrap(), "Basic dTo=");
    cfg.username = None;
    assert!(cfg.proxy_auth_header().is_none());
    assert_eq!(basic_auth_value("eA=="), "Basic eA==");
}

#[test]
fn split_host_port_edge_cases() {
    assert_eq!(split_host_port("", 1), None);
    assert_eq!(split_host_port(":5", 1), None);
    assert_eq!(split_host_port("h", 1), Some(("h".to_string(), 1)));
    assert_eq!(split_host_port("h:5", 1), Some(("h".to_string(), 5)));
    assert_eq!(split_host_port("h:-5", 1), Some(("h".to_string(), 1)));
}
