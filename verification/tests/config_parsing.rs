//! Tests for configuration parsing and the allow-list policy.

use hc_http_gw::{AllowedAppIds, AllowedFns, Configuration, SocketAddress, ZomeFn};

fn create_zome_fn(zome_name: &str, fn_name: &str) -> ZomeFn {
    ZomeFn {
        zome_name: zome_name.to_string(),
        fn_name: fn_name.to_string(),
    }
}

fn create_test_config() -> Configuration {
    let zome1_fn1 = create_zome_fn("zome1", "fn1");
    let app1_fns = vec![zome1_fn1.clone()];

    let mut allowed_fns: Vec<(String, AllowedFns)> = Vec::new();
    allowed_fns.push(("app1".to_string(), AllowedFns::Restricted(app1_fns)));
    allowed_fns.push(("app2".to_string(), AllowedFns::All));

    Configuration {
        admin_socket_addr: SocketAddress {
            host: "127.0.0.1".to_string(),
            port: 8888,
        },
        payload_limit_bytes: 1024 * 1024,
        allowed_app_ids: AllowedAppIds(vec!["app1".to_string(), "app2".to_string()]),
        allowed_fns,
        max_app_connections: 50,
        zome_call_timeout_ms: 10_000,
    }
}

fn local_addr() -> SocketAddress {
    SocketAddress {
        host: "127.0.0.1".to_string(),
        port: 8888,
    }
}

#[test]
fn from_str_parses_various_formats() {
    // Standard case
    let result = AllowedAppIds::from_str("app1,app2,app3").unwrap();
    assert_eq!(result.len(), 3);
    assert!(result.contains("app1"));

    // With whitespace
    let result = AllowedAppIds::from_str(" app1 , app2 , app3 ").unwrap();
    assert_eq!(result.len(), 3);

    // Empty entries
    let result = AllowedAppIds::from_str("app1,,app3").unwrap();
    assert_eq!(result.len(), 2);

    // Duplicate entries
    let result = AllowedAppIds::from_str("app1,app1,app2").unwrap();
    assert_eq!(result.len(), 2);
    assert!(result.contains("app1"));
    assert!(result.contains("app2"));

    // Empty string
    let result = AllowedAppIds::from_str("").unwrap();
    assert_eq!(result.len(), 0);
}

#[test]
fn from_str_trims_unicode_whitespace() {
    // Vertical tab, no-break space and ideographic space all count as
    // whitespace, as char::is_whitespace reports them.
    let result = AllowedAppIds::from_str("\u{b}app1\u{a0},\u{3000}app2 ").unwrap();
    assert_eq!(result.len(), 2);
    assert!(result.contains("app1"));
    assert!(result.contains("app2"));
}

#[test]
fn from_str_all_wildcard() {
    let result = AllowedFns::from_str("*").unwrap();
    assert!(matches!(result, AllowedFns::All));
}

#[test]
fn from_str_parses_function_lists() {
    // Standard case
    let result = AllowedFns::from_str("zome1/fn1,zome2/fn2").unwrap();
    if let AllowedFns::Restricted(fns) = result {
        assert_eq!(fns.len(), 2);
        assert!(fns.contains(&create_zome_fn("zome1", "fn1")));
        assert!(fns.contains(&create_zome_fn("zome2", "fn2")));
    }

    // With whitespace
    let result = AllowedFns::from_str(" zome1/fn1 , zome2/fn2 ").unwrap();
    if let AllowedFns::Restricted(fns) = result {
        assert_eq!(fns.len(), 2);
    }

    // With duplicates
    let result = AllowedFns::from_str("zome1/fn1,zome1/fn1,zome2/fn2").unwrap();
    if let AllowedFns::Restricted(fns) = result {
        assert_eq!(fns.len(), 2);
    }
}

#[test]
fn from_str_handles_errors() {
    // Missing zome
    let result = AllowedFns::from_str("/fn1");
    assert!(result.is_err());

    // Missing function
    let result = AllowedFns::from_str("zome1/");
    assert!(result.is_err());

    // Invalid format
    let result = AllowedFns::from_str("zome1");
    assert!(result.is_err());
}

#[test]
fn creation_sets_up_correct_fields() {
    let config = create_test_config();

    assert_eq!(config.payload_limit_bytes, 1024 * 1024);
    assert_eq!(config.allowed_app_ids.len(), 2);
}

#[test]
fn is_app_allowed_checks_app_presence() {
    let config = create_test_config();

    assert!(config.is_app_allowed("app1"));
    assert!(config.is_app_allowed("app2"));
    assert!(!config.is_app_allowed("app3"));
    assert!(!config.is_app_allowed("APP1")); // Case sensitivity
}

#[test]
fn get_allowed_functions_retrieves_functions() {
    let config = create_test_config();
    let zome1_fn1 = create_zome_fn("zome1", "fn1");

    // Test All variant
    assert!(matches!(
        config.get_allowed_functions("app2"),
        Some(AllowedFns::All)
    ));

    // Test Restricted variant
    if let Some(AllowedFns::Restricted(fns)) = config.get_allowed_functions("app1") {
        assert_eq!(fns.len(), 1);
        assert!(fns.contains(&zome1_fn1));
    } else {
        panic!("Expected Some(AllowedFns::Restricted)");
    }

    // Test non-existent app
    assert!(config.get_allowed_functions("app3").is_none());
}

#[test]
fn is_function_allowed_returns_false_when_app_is_not_found() {
    let config = create_test_config();
    assert!(!config.is_function_allowed("nopp", "zome_name", "fn_name"));
}

#[test]
fn is_function_allowed_returns_true_when_all_functions_allowed_for_app() {
    let config = create_test_config();
    assert!(config.is_function_allowed("app2", "zome_name", "fn_name"));
}

#[test]
fn is_function_allowed_returns_false_when_zome_not_found() {
    let config = create_test_config();
    assert!(!config.is_function_allowed("app1", "not_included_zome", "fn_name"));
}

#[test]
fn is_function_allowed_returns_false_when_function_not_in_restricted_functions() {
    let config = create_test_config();
    assert!(!config.is_function_allowed("app1", "zome1", "not_included"));
}

#[test]
fn is_function_allowed_returns_true_when_function_in_restricted_functions() {
    let config = create_test_config();
    assert!(config.is_function_allowed("app1", "zome1", "fn1"));
}

#[test]
fn new_constructs_valid_configuration() {
    // Setup allowed functions
    let mut allowed_fns: Vec<(String, AllowedFns)> = Vec::new();
    allowed_fns.push((
        "app1".to_string(),
        AllowedFns::Restricted(vec![create_zome_fn("zome1", "fn1")]),
    ));
    allowed_fns.push(("app2".to_string(), AllowedFns::All));

    // Create configuration with valid inputs
    let config = Configuration::try_new(
        local_addr(),
        "1048576",
        "app1,app2",
        allowed_fns,
        "50",
        "1000",
    )
    .unwrap();

    // Verify configuration
    assert_eq!(config.payload_limit_bytes, 1048576);
    assert_eq!(config.allowed_app_ids.len(), 2);
    assert_eq!(config.max_app_connections, 50);
    assert_eq!(config.zome_call_timeout_ms, 1000);
}

#[test]
fn new_handles_invalid_inputs() {
    let mut allowed_fns: Vec<(String, AllowedFns)> = Vec::new();
    allowed_fns.push(("app1".to_string(), AllowedFns::All));

    // Invalid payload limit
    let result = Configuration::try_new(
        local_addr(),
        "not-a-number",
        "app1",
        allowed_fns.clone(),
        "",
        "",
    );
    assert!(result.is_err());

    // Missing allowed function for app2
    let result = Configuration::try_new(
        local_addr(),
        "1048576",
        "app1,app2",
        allowed_fns.clone(),
        "",
        "",
    );
    assert!(result.is_err());

    // Max app connections is not a valid number
    let result = Configuration::try_new(
        local_addr(),
        "1048576",
        "app1,app2",
        allowed_fns.clone(),
        "not-a-number",
        "",
    );
    assert!(result.is_err());

    // Zome call timeout is not a valid number
    let result = Configuration::try_new(local_addr(), "1048576", "app1,app2", allowed_fns, "", "not-a-number");
    assert!(result.is_err());
}

#[test]
fn missing_allowed_fns_entry_names_the_app() {
    let mut allowed_fns: Vec<(String, AllowedFns)> = Vec::new();
    allowed_fns.push(("app1".to_string(), AllowedFns::All));

    let result = Configuration::try_new(local_addr(), "", "app1,app2", allowed_fns, "", "");
    if let Err(hc_http_gw::ConfigParseError::Other(msg)) = result {
        assert_eq!(msg, "app2 is not present in allowed_fns");
    } else {
        panic!("Expected the missing-entry error");
    }
}

#[test]
fn empty_numeric_strings_fall_back_to_defaults() {
    let mut allowed_fns: Vec<(String, AllowedFns)> = Vec::new();
    allowed_fns.push(("app1".to_string(), AllowedFns::All));

    let config = Configuration::try_new(local_addr(), "", "app1", allowed_fns, "", "").unwrap();
    assert_eq!(config.payload_limit_bytes, 10 * 1024);
    assert_eq!(config.max_app_connections, 50);
    assert_eq!(config.zome_call_timeout_ms, 10_000);
}

#[test]
fn numeric_strings_parse_exactly() {
    assert_eq!(hc_http_gw::config::parse_u64_str("0").unwrap(), 0);
    assert_eq!(hc_http_gw::config::parse_u64_str("42").unwrap(), 42);
    assert_eq!(hc_http_gw::config::parse_u64_str("+42").unwrap(), 42);
    assert_eq!(
        hc_http_gw::config::parse_u64_str("18446744073709551615").unwrap(),
        u64::MAX
    );
    assert!(hc_http_gw::config::parse_u64_str("18446744073709551616").is_err());
    assert!(hc_http_gw::config::parse_u64_str("").is_err());
    assert!(hc_http_gw::config::parse_u64_str("+").is_err());
    assert!(hc_http_gw::config::parse_u64_str("1 2").is_err());
    assert!(hc_http_gw::config::parse_u64_str("-1").is_err());

    assert_eq!(hc_http_gw::config::parse_u32_str("4294967295").unwrap(), u32::MAX);
    assert!(hc_http_gw::config::parse_u32_str("4294967296").is_err());
}

#[test]
fn allowed_app_ids_round_trip_through_the_config_format() {
    let ids = AllowedAppIds::from_str("app1,app2,app3").unwrap();
    let serialized = ids.to_config_string();
    assert_eq!(serialized, "app1,app2,app3");
    let reparsed = AllowedAppIds::from_str(&serialized).unwrap();
    assert_eq!(reparsed.0, ids.0);
}

#[test]
fn allowed_fns_round_trip_through_the_config_format() {
    let fns = AllowedFns::from_str("zome1/fn1,zome2/fn2").unwrap();
    let serialized = fns.to_config_string();
    assert_eq!(serialized, "zome1/fn1,zome2/fn2");
    let reparsed = AllowedFns::from_str(&serialized).unwrap();
    if let (AllowedFns::Restricted(a), AllowedFns::Restricted(b)) = (&fns, &reparsed) {
        assert_eq!(a, b);
    } else {
        panic!("Expected restricted allowed functions on both sides");
    }

    let all = AllowedFns::from_str(" * ").unwrap();
    assert_eq!(all.to_config_string(), "*");
    assert!(matches!(
        AllowedFns::from_str(&all.to_config_string()).unwrap(),
        AllowedFns::All
    ));
}

#[test]
fn granted_functions_mirror_the_policy_entry() {
    let granted = hc_http_gw::config::granted_functions_for(&AllowedFns::All);
    assert!(matches!(granted, hc_http_gw::GrantedFunctions::All));

    let fns = vec![create_zome_fn("zome1", "fn1")];
    let granted = hc_http_gw::config::granted_functions_for(&AllowedFns::Restricted(fns));
    if let hc_http_gw::GrantedFunctions::Listed(listed) = granted {
        assert_eq!(listed.len(), 1);
        assert!(listed.contains(&create_zome_fn("zome1", "fn1")));
    } else {
        panic!("Expected GrantedFunctions::Listed");
    }
}
