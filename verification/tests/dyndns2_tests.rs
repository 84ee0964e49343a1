use ddns6::config::HostMapping;
use ddns6::dyndns2::{
    aggregate_outcomes, extract_ipv6_address, plan_host, prepare_prefix, settle_update,
    DynDns2Response, HostPlan, UpdateOutcome, UpdateQuery,
};
use ddns6::state::StateCache;
use ddns6::Ipv6Address;

fn addr(s: &str) -> Ipv6Address {
    Ipv6Address::from_text(s).unwrap()
}

#[test]
fn test_extract_ipv6_from_prefix() {
    let params = UpdateQuery {
        prefix: "2001:db8::1".to_string(),
    };

    let result = extract_ipv6_address(&params).unwrap();
    assert_eq!(result, addr("2001:db8::1"));
}

#[test]
fn test_extract_ipv6_invalid_prefix() {
    let params = UpdateQuery {
        prefix: "not-an-ip".to_string(),
    };

    assert!(extract_ipv6_address(&params).is_err());
}

#[test]
fn test_extract_ipv6_various_formats() {
    let test_cases = vec![
        "2001:db8::1",
        "fe80::1",
        "::1",
        "::ffff:192.168.1.1",
        "2001:0db8:0000:0000:0000:0000:0000:0001",
    ];

    for addr_str in test_cases {
        let params = UpdateQuery {
            prefix: addr_str.to_string(),
        };

        assert!(
            extract_ipv6_address(&params).is_ok(),
            "Failed to parse: {}",
            addr_str
        );
    }
}

#[test]
fn test_update_query_deserialization() {
    let query = UpdateQuery {
        prefix: "2001:db8::1".to_string(),
    };

    assert_eq!(query.prefix, "2001:db8::1");
}

#[test]
fn test_dyndns2_response_good_format() {
    let hosts = vec!["device1.example.com=2001:db8::1".to_string()];
    let response = DynDns2Response::Good(hosts);

    assert_eq!(response.render(), "good device1.example.com=2001:db8::1");
}

#[test]
fn test_dyndns2_response_nochg_format() {
    let hosts = vec!["device1.example.com=2001:db8::1".to_string()];
    let response = DynDns2Response::NoChg(hosts);

    assert_eq!(response.render(), "nochg device1.example.com=2001:db8::1");
}

#[test]
fn test_dyndns2_response_error_codes() {
    let error = DynDns2Response::Error("Test error".to_string());
    assert_eq!(error.render(), "911 Test error");
}

#[test]
fn test_dyndns2_response_partial_success() {
    let success = vec!["device1.example.com=2001:db8::1".to_string()];
    let failed = vec!["device2.example.com".to_string()];
    let response = DynDns2Response::PartialSuccess(success, failed);

    assert_eq!(
        response.render(),
        "partial success: device1.example.com=2001:db8::1 | failed: device2.example.com"
    );
}

#[test]
fn test_dyndns2_response_multiple_hosts() {
    let hosts = vec![
        "device1.example.com=2001:db8::1".to_string(),
        "device2.example.com=2001:db8::2".to_string(),
        "nas.example.com=2001:db8::100".to_string(),
    ];
    let response = DynDns2Response::Good(hosts);

    assert_eq!(
        response.render(),
        "good device1.example.com=2001:db8::1, device2.example.com=2001:db8::2, nas.example.com=2001:db8::100"
    );
}

fn two_hosts() -> Vec<HostMapping> {
    vec![
        HostMapping {
            hostname: "one.example.com".to_string(),
            interface_id: "::1".to_string(),
        },
        HostMapping {
            hostname: "two.example.com".to_string(),
            interface_id: "::2".to_string(),
        },
    ]
}

fn drive_request(
    prefix_text: &str,
    hosts: &[HostMapping],
    cache: &mut StateCache,
    provider_ok: &mut dyn FnMut(&str) -> bool,
) -> DynDns2Response {
    let params = UpdateQuery {
        prefix: prefix_text.to_string(),
    };
    let prefix = match prepare_prefix(&params, 64) {
        Ok(p) => p,
        Err(resp) => return resp,
    };
    let mut outcomes: Vec<UpdateOutcome> = Vec::new();
    for host in hosts {
        let outcome = match plan_host(&prefix, cache, host) {
            HostPlan::Failed => UpdateOutcome::Failed,
            HostPlan::Unchanged(a) => UpdateOutcome::Unchanged(a),
            HostPlan::NeedsUpdate(a) => {
                let ok = provider_ok(&host.hostname);
                settle_update(cache, host.hostname.clone(), a, ok)
            }
        };
        outcomes.push(outcome);
    }
    aggregate_outcomes(&hosts.to_vec(), &outcomes)
}

#[test]
fn test_one_changed_one_unchanged_reports_good() {
    let hosts = two_hosts();
    let mut cache = StateCache::new();
    // The second host's address is already current.
    cache.update("two.example.com".to_string(), addr("2001:db8:1234:5678::2"));

    let mut calls: Vec<String> = Vec::new();
    let response = drive_request("2001:db8:1234:5678::1", &hosts, &mut cache, &mut |h| {
        calls.push(h.to_string());
        true
    });

    assert_eq!(calls, vec!["one.example.com".to_string()]);
    assert_eq!(
        response.render(),
        "good one.example.com=2001:db8:1234:5678::1"
    );
}

#[test]
fn test_partial_failure_reports_both_lists() {
    let hosts = two_hosts();
    let mut cache = StateCache::new();

    let response = drive_request("2001:db8:1234:5678::1", &hosts, &mut cache, &mut |h| {
        h == "one.example.com"
    });

    assert_eq!(
        response.render(),
        "partial success: one.example.com=2001:db8:1234:5678::1 | failed: two.example.com"
    );

    // The failed host was not recorded, so the next request retries it.
    assert!(cache.has_changed("two.example.com", addr("2001:db8:1234:5678::2")));
    assert!(!cache.has_changed("one.example.com", addr("2001:db8:1234:5678::1")));
}

#[test]
fn test_all_failed_reports_error() {
    let hosts = two_hosts();
    let mut cache = StateCache::new();

    let response = drive_request("2001:db8:1234:5678::1", &hosts, &mut cache, &mut |_| false);

    assert_eq!(
        response.render(),
        "911 Failed to update: one.example.com, two.example.com"
    );
}

#[test]
fn test_all_unchanged_reports_nochg() {
    let hosts = two_hosts();
    let mut cache = StateCache::new();
    cache.update("one.example.com".to_string(), addr("2001:db8:1234:5678::1"));
    cache.update("two.example.com".to_string(), addr("2001:db8:1234:5678::2"));

    let response = drive_request("2001:db8:1234:5678::1", &hosts, &mut cache, &mut |_| {
        panic!("no provider call expected")
    });

    assert_eq!(
        response.render(),
        "nochg one.example.com=2001:db8:1234:5678::1, two.example.com=2001:db8:1234:5678::2"
    );
}

#[test]
fn test_malformed_prefix_short_circuits() {
    let hosts = two_hosts();
    let mut cache = StateCache::new();

    let response = drive_request("no-such-prefix", &hosts, &mut cache, &mut |_| {
        panic!("no provider call expected")
    });

    assert_eq!(response.render(), "911 Invalid IPv6 address");
}

#[test]
fn test_bad_interface_id_fails_only_that_host() {
    let hosts = vec![
        HostMapping {
            hostname: "bad.example.com".to_string(),
            interface_id: "zz--zz".to_string(),
        },
        HostMapping {
            hostname: "good.example.com".to_string(),
            interface_id: "::1".to_string(),
        },
    ];
    let mut cache = StateCache::new();

    let response = drive_request("2001:db8::", &hosts, &mut cache, &mut |_| true);

    assert_eq!(
        response.render(),
        "partial success: good.example.com=2001:db8::1 | failed: bad.example.com"
    );
}
