use ddns6::config::{default_ttl, default_workers, CloudflareConfig, Config, HostMapping, ServerConfig};
use ddns6::error::Ddns6Error;

fn base_config(hosts: Vec<HostMapping>) -> Config {
    Config {
        server: ServerConfig {
            bind_address: "0.0.0.0:8080".to_string(),
            workers: 4,
        },
        cloudflare: CloudflareConfig {
            api_token: "test".to_string(),
            zone_id: "test".to_string(),
            ttl: 300,
        },
        hosts,
    }
}

#[test]
fn test_validate_interface_id() {
    let config = base_config(vec![]);

    assert!(config.validate_interface_id("::1").is_ok());
    assert!(config.validate_interface_id("::2").is_ok());
    assert!(config
        .validate_interface_id("::a1b2:c3d4:e5f6:7890")
        .is_ok());
    assert!(config.validate_interface_id("1").is_ok());
    assert!(config.validate_interface_id("1234:5678:90ab:cdef").is_ok());
}

#[test]
fn test_get_host() {
    let config = base_config(vec![
        HostMapping {
            hostname: "device1.example.com".to_string(),
            interface_id: "::1".to_string(),
        },
        HostMapping {
            hostname: "device2.example.com".to_string(),
            interface_id: "::2".to_string(),
        },
    ]);

    assert!(config.get_host("device1.example.com").is_some());
    assert!(config.get_host("device2.example.com").is_some());
    assert!(config.get_host("nonexistent.example.com").is_none());
}

#[test]
fn test_validate_empty_bind_address() {
    let mut config = base_config(vec![HostMapping {
        hostname: "test.example.com".to_string(),
        interface_id: "::1".to_string(),
    }]);
    config.server.bind_address = "".to_string();

    assert!(config.validate().is_err());
}

#[test]
fn test_validate_empty_api_token() {
    let mut config = base_config(vec![HostMapping {
        hostname: "test.example.com".to_string(),
        interface_id: "::1".to_string(),
    }]);
    config.cloudflare.api_token = "".to_string();

    assert!(config.validate().is_err());
}

#[test]
fn test_validate_empty_zone_id() {
    let mut config = base_config(vec![HostMapping {
        hostname: "test.example.com".to_string(),
        interface_id: "::1".to_string(),
    }]);
    config.cloudflare.zone_id = "".to_string();

    assert!(config.validate().is_err());
}

#[test]
fn test_validate_no_hosts() {
    let config = base_config(vec![]);

    assert!(config.validate().is_err());
}

#[test]
fn test_validate_empty_hostname() {
    let config = base_config(vec![HostMapping {
        hostname: "".to_string(),
        interface_id: "::1".to_string(),
    }]);

    assert!(config.validate().is_err());
}

#[test]
fn test_validate_invalid_interface_id() {
    let config = base_config(vec![HostMapping {
        hostname: "test.example.com".to_string(),
        interface_id: "invalid::xyz::123".to_string(),
    }]);

    assert!(config.validate().is_err());
}

#[test]
fn test_validate_duplicate_hostname() {
    let config = base_config(vec![
        HostMapping {
            hostname: "test.example.com".to_string(),
            interface_id: "::1".to_string(),
        },
        HostMapping {
            hostname: "test.example.com".to_string(),
            interface_id: "::2".to_string(),
        },
    ]);

    assert!(config.validate().is_err());
}

#[test]
fn test_defaults() {
    assert_eq!(default_workers(), 4);
    assert_eq!(default_ttl(), 300);
}

#[test]
fn test_valid_config() {
    let config = Config {
        server: ServerConfig {
            bind_address: "127.0.0.1:8080".to_string(),
            workers: 2,
        },
        cloudflare: CloudflareConfig {
            api_token: "my-api-token".to_string(),
            zone_id: "my-zone-id".to_string(),
            ttl: 600,
        },
        hosts: vec![
            HostMapping {
                hostname: "device1.example.com".to_string(),
                interface_id: "::1".to_string(),
            },
            HostMapping {
                hostname: "device2.example.com".to_string(),
                interface_id: "::ffff:192.168.1.1".to_string(),
            },
        ],
    };

    assert!(config.validate().is_ok());
}

#[test]
fn test_validate_error_kinds() {
    let no_hosts = base_config(vec![]);
    assert!(matches!(no_hosts.validate(), Err(Ddns6Error::Config(_))));

    let bad_iid = base_config(vec![HostMapping {
        hostname: "test.example.com".to_string(),
        interface_id: "not-hex".to_string(),
    }]);
    assert!(matches!(
        bad_iid.validate(),
        Err(Ddns6Error::InvalidInterfaceId(_))
    ));
}
