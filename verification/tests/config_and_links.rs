use wasmcloud_host::config::retrieve_default_url;
use wasmcloud_host::links::Context;
use wasmcloud_host::provider::{
    KvRedisProvider, bool_or_default, flag_from_count, get_response_of, int_or_default,
    list_or_default, uint_or_default,
};

const PROPER_URL: &str = "redis://127.0.0.1:6379";

#[test]
fn can_deserialize_config_case_insensitive() {
    let lowercase_config = vec![("url".to_string(), PROPER_URL.to_string())];
    let uppercase_config = vec![("URL".to_string(), PROPER_URL.to_string())];
    let initial_caps_config = vec![("Url".to_string(), PROPER_URL.to_string())];

    assert_eq!(PROPER_URL, retrieve_default_url(&lowercase_config));
    assert_eq!(PROPER_URL, retrieve_default_url(&uppercase_config));
    assert_eq!(PROPER_URL, retrieve_default_url(&initial_caps_config));
}

#[test]
fn empty_config_resolves_to_built_in_default() {
    let empty: Vec<(String, String)> = Vec::new();
    assert_eq!("redis://127.0.0.1:6379/", retrieve_default_url(&empty));
}

#[test]
fn unrelated_keys_resolve_to_built_in_default() {
    let config = vec![("timeout".to_string(), "5".to_string())];
    assert_eq!("redis://127.0.0.1:6379/", retrieve_default_url(&config));
}

#[test]
fn first_matching_key_wins() {
    let config = vec![
        ("other".to_string(), "x".to_string()),
        ("Url".to_string(), "redis://a:1".to_string()),
        ("URL".to_string(), "redis://b:2".to_string()),
    ];
    assert_eq!("redis://a:1", retrieve_default_url(&config));
}

#[test]
fn link_target_prefers_link_config_over_default() {
    let provider = KvRedisProvider::new("redis://default:6379/");
    let config = vec![("uRl".to_string(), "redis://linked:7000".to_string())];
    assert_eq!("redis://linked:7000", provider.link_target(&config));
    let empty: Vec<(String, String)> = Vec::new();
    assert_eq!("redis://default:6379/", provider.link_target(&empty));
}

#[test]
fn command_for_unlinked_actor_routes_to_default() {
    let provider = KvRedisProvider::new("redis://127.0.0.1:6379/");
    let ctx = Context { actor: Some("MAAA".to_string()) };
    assert_eq!(provider.route(&ctx), None);
    let got = get_response_of(None);
    assert!(!got.exists);
    assert_eq!(got.value, "");
}

#[test]
fn command_without_actor_context_routes_to_default() {
    let mut provider = KvRedisProvider::new("redis://127.0.0.1:6379/");
    provider.register_link("MAAA", 7);
    let ctx = Context { actor: None };
    assert_eq!(provider.route(&ctx), None);
}

#[test]
fn linked_actor_routes_to_its_connection() {
    let mut provider = KvRedisProvider::new("redis://127.0.0.1:6379/");
    provider.register_link("MAAA", 7);
    provider.register_link("MBBB", 9);
    let ctx_a = Context { actor: Some("MAAA".to_string()) };
    let ctx_b = Context { actor: Some("MBBB".to_string()) };
    assert_eq!(provider.route(&ctx_a), Some(7));
    assert_eq!(provider.route(&ctx_b), Some(9));
}

#[test]
fn relink_overwrites_prior_connection() {
    let mut provider = KvRedisProvider::new("redis://127.0.0.1:6379/");
    provider.register_link("MAAA", 7);
    provider.register_link("MAAA", 8);
    let ctx = Context { actor: Some("MAAA".to_string()) };
    assert_eq!(provider.route(&ctx), Some(8));
}

#[test]
fn deleted_link_behaves_as_never_linked() {
    let mut provider = KvRedisProvider::new("redis://127.0.0.1:6379/");
    provider.register_link("MAAA", 7);
    provider.register_link("MBBB", 9);
    let released = provider.delete_link("MAAA");
    assert_eq!(released, Some(7));
    let ctx = Context { actor: Some("MAAA".to_string()) };
    assert_eq!(provider.route(&ctx), None);
    let other = Context { actor: Some("MBBB".to_string()) };
    assert_eq!(provider.route(&other), Some(9));
}

#[test]
fn deleting_absent_link_is_a_noop() {
    let mut provider = KvRedisProvider::new("redis://127.0.0.1:6379/");
    assert_eq!(provider.delete_link("MAAA"), None);
    assert_eq!(provider.delete_link("MAAA"), None);
}

#[test]
fn shutdown_releases_every_connection_exactly_once() {
    let mut provider = KvRedisProvider::new("redis://127.0.0.1:6379/");
    provider.register_link("MAAA", 7);
    provider.register_link("MBBB", 9);
    let released = provider.shutdown();
    assert_eq!(released.len(), 2);
    assert!(released.contains(&7));
    assert!(released.contains(&9));
    let ctx = Context { actor: Some("MAAA".to_string()) };
    assert_eq!(provider.route(&ctx), None);
    assert_eq!(provider.shutdown().len(), 0);
}

#[test]
fn executor_defaults_per_result_type() {
    assert_eq!(bool_or_default(None), false);
    assert_eq!(bool_or_default(Some(true)), true);
    assert_eq!(flag_from_count(None), false);
    assert_eq!(flag_from_count(Some(0)), false);
    assert_eq!(flag_from_count(Some(2)), true);
    assert_eq!(int_or_default(None), 0);
    assert_eq!(int_or_default(Some(41)), 41);
    assert_eq!(uint_or_default(None), 0);
    assert_eq!(uint_or_default(Some(3)), 3);
    assert_eq!(list_or_default(None).len(), 0);
    assert_eq!(list_or_default(Some(vec!["a".to_string()])), vec!["a".to_string()]);
    let hit = get_response_of(Some(Some("v".to_string())));
    assert!(hit.exists);
    assert_eq!(hit.value, "v");
    let miss = get_response_of(Some(None));
    assert!(!miss.exists);
    assert_eq!(miss.value, "");
}
