use docker_proxy_filter::config::{
    default_list, default_port, default_scrub, host_port, internal_port, parse_label_list, split_once_char,
    upstream_address, AppConfig, ContainerLabels, EnvConfig,
};
use docker_proxy_filter::docker::types::ContainerSummary;
use docker_proxy_filter::docker::{
    container_info_match, container_summary_match, match_labels_or_names, matches_exclude,
};
use docker_proxy_filter::strmap::StrMap;
use docker_proxy_filter::text::{str_contains, str_eq};
use docker_proxy_filter::utils::{label_match, short_id, strings_in_strings, Labels};

fn strings(v: &[&str]) -> Vec<String> {
    v.iter().map(|s| s.to_string()).collect()
}

fn labels(pairs: &[(&str, &str)]) -> Labels {
    let mut m = StrMap::new();
    for (k, v) in pairs {
        m.insert(k.to_string(), v.to_string());
    }
    m
}

fn label_filters(list: &[&str]) -> ContainerLabels {
    parse_label_list(&strings(list))
}

fn env(names: &[&str], labels: &[&str], ex_names: &[&str], ex_labels: &[&str], scrub: bool) -> EnvConfig {
    EnvConfig {
        proxy_url: "http://socket-proxy:2375".to_string(),
        container_names: strings(names),
        container_labels: strings(labels),
        exclude_names: strings(ex_names),
        exclude_labels: strings(ex_labels),
        scrub_envs: scrub,
        port: 2375,
    }
}

fn summary(names: &[&str], l: Option<Labels>) -> ContainerSummary {
    ContainerSummary { id: Some("1234".to_string()), names: Some(strings(names)), labels: l, message: None }
}

#[test]
fn defaults_are_off_and_empty() {
    assert_eq!(default_scrub(), false);
    assert_eq!(default_port(), 2375);
    assert!(default_list().is_empty());
}

#[test]
fn contains_is_substring_search() {
    assert!(str_contains("/foo", "foo"));
    assert!(str_contains("cool-program", "program"));
    assert!(str_contains("anything", ""));
    assert!(!str_contains("foo", "foobar"));
    assert!(!str_contains("/bar", "baz"));
    assert!(str_eq("json", "json"));
    assert!(!str_eq("json", "jso"));
}

#[test]
fn str_map_insert_replaces_existing_key() {
    let mut m: StrMap<Option<String>> = StrMap::new();
    assert!(m.is_empty());
    m.insert("a".to_string(), None);
    m.insert("b".to_string(), Some("1".to_string()));
    m.insert("a".to_string(), Some("2".to_string()));
    assert_eq!(m.len(), 2);
    assert_eq!(m.get("a"), Some(&Some("2".to_string())));
    assert_eq!(m.get("b"), Some(&Some("1".to_string())));
    assert_eq!(m.get("c"), None);
    assert!(m.contains_key("b"));
    assert!(!m.contains_key("c"));
}

#[test]
fn split_once_at_first_separator() {
    assert_eq!(split_once_char("a=b=c", '='), Some(("a".to_string(), "b=c".to_string())));
    assert_eq!(split_once_char("=x", '='), Some(("".to_string(), "x".to_string())));
    assert_eq!(split_once_char("plain", '='), None);
}

#[test]
fn label_list_parses_keys_and_values() {
    let m = label_filters(&["homepage", "uptime.enabled=true", "a=b=c", "homepage=yes"]);
    assert_eq!(m.len(), 3);
    assert_eq!(m.get("homepage"), Some(&Some("yes".to_string())));
    assert_eq!(m.get("uptime.enabled"), Some(&Some("true".to_string())));
    assert_eq!(m.get("a"), Some(&Some("b=c".to_string())));
    let bare = label_filters(&["homepage"]);
    assert_eq!(bare.get("homepage"), Some(&None));
}

#[test]
fn app_config_from_env_parses_label_filters() {
    let e = env(&["foo"], &["homepage"], &["bar"], &["k=v"], true);
    let c = AppConfig::from_env(&e);
    assert_eq!(c.proxy_url, "http://socket-proxy:2375");
    assert_eq!(c.container_names, strings(&["foo"]));
    assert_eq!(c.container_labels.get("homepage"), Some(&None));
    assert_eq!(c.exclude_names, strings(&["bar"]));
    assert_eq!(c.exclude_labels.get("k"), Some(&Some("v".to_string())));
    assert!(c.scrub_envs);
}

#[test]
fn strings_in_strings_finds_any_substring() {
    assert!(strings_in_strings(&strings(&["/foo"]), &strings(&["foo", "bar"])));
    assert!(strings_in_strings(&strings(&["/x", "/bar-2"]), &strings(&["foo", "bar"])));
    assert!(!strings_in_strings(&strings(&["/cool-program"]), &strings(&["foo", "bar"])));
    assert!(!strings_in_strings(&strings(&[]), &strings(&["foo"])));
    assert!(!strings_in_strings(&strings(&["/foo"]), &strings(&[])));
}

#[test]
fn label_match_by_key_and_value() {
    let l = labels(&[("homepage.group", "media"), ("uptime.enabled", "true")]);
    assert!(label_match(&l, &label_filters(&[])));
    assert!(label_match(&l, &label_filters(&["homepage"])));
    assert!(label_match(&l, &label_filters(&["uptime.enabled=true"])));
    assert!(label_match(&l, &label_filters(&["uptime=tru"])));
    assert!(!label_match(&l, &label_filters(&["uptime.enabled=false"])));
    assert!(!label_match(&l, &label_filters(&["traefik"])));
    assert!(!label_match(&labels(&[]), &label_filters(&["homepage"])));
}

#[test]
fn short_id_keeps_both_ends() {
    let id = "4f66ad9a0b2e7c1dfe0a9b8c7d6e5f4a".to_string();
    assert_eq!(short_id(&id), "4f66ad...6e5f4a");
    assert_eq!(short_id(&"abcdef".to_string()), "abcdef...abcdef");
}

#[test]
fn include_filters() {
    let none_n: Vec<String> = Vec::new();
    let none_l = label_filters(&[]);
    let names = strings(&["/cool-program"]);
    let l = labels(&[("homepage", "x")]);
    assert!(match_labels_or_names(&none_n, &none_l, &names, &l));
    assert!(!match_labels_or_names(&strings(&["foo"]), &none_l, &names, &l));
    assert!(match_labels_or_names(&strings(&["cool"]), &none_l, &names, &l));
    assert!(match_labels_or_names(&strings(&["foo"]), &label_filters(&["homepage"]), &names, &l));
    assert!(!match_labels_or_names(&none_n, &label_filters(&["traefik"]), &names, &l));
}

#[test]
fn exclude_filters() {
    let none_n: Vec<String> = Vec::new();
    let none_l = label_filters(&[]);
    let names = strings(&["/fun-program"]);
    let l = labels(&[("secret", "1")]);
    assert!(!matches_exclude(&none_n, &none_l, &names, &l));
    assert!(matches_exclude(&strings(&["fun"]), &none_l, &names, &l));
    assert!(matches_exclude(&none_n, &label_filters(&["secret=1"]), &names, &l));
    assert!(!matches_exclude(&strings(&["foo"]), &label_filters(&["secret=2"]), &names, &l));
}

#[test]
fn readme_container_names_scenario() {
    let c = AppConfig::from_env(&env(&["foo", "bar"], &[], &[], &[], true));
    assert!(container_summary_match(&summary(&["/foo"], None), &c));
    assert!(container_summary_match(&summary(&["/bar"], None), &c));
    assert!(!container_summary_match(&summary(&["/cool-program"], None), &c));
    assert!(!container_summary_match(&summary(&["/fun-program"], None), &c));
    assert!(container_info_match(&c, "/foo", &labels(&[])));
    assert!(!container_info_match(&c, "/6969", &labels(&[])));
}

#[test]
fn exclusion_overrides_inclusion() {
    let c = AppConfig::from_env(&env(&["program"], &[], &["fun"], &[], false));
    assert!(container_summary_match(&summary(&["/cool-program"], None), &c));
    assert!(!container_summary_match(&summary(&["/fun-program"], None), &c));
    assert!(!container_info_match(&c, "/fun-program", &labels(&[])));
}

#[test]
fn no_filters_expose_everything() {
    let c = AppConfig::from_env(&env(&[], &[], &[], &[], false));
    assert!(container_summary_match(&summary(&["/anything"], None), &c));
    let nameless = ContainerSummary { id: None, names: None, labels: None, message: None };
    assert!(container_summary_match(&nameless, &c));
    assert!(container_info_match(&c, "/x", &labels(&[])));
}

#[test]
fn label_filters_select_containers() {
    let c = AppConfig::from_env(&env(&[], &["homepage"], &[], &[], false));
    assert!(container_summary_match(&summary(&["/a"], Some(labels(&[("homepage.name", "A")]))), &c));
    assert!(!container_summary_match(&summary(&["/b"], Some(labels(&[("other", "B")]))), &c));
    assert!(!container_summary_match(&summary(&["/c"], None), &c));
}

#[test]
fn addresses_and_ports() {
    assert_eq!(internal_port(2375), Some(2376));
    assert_eq!(internal_port(65535), None);
    assert_eq!(host_port("127.0.0.1", 2376), "127.0.0.1:2376");
    assert_eq!(host_port("0.0.0.0", 0), "0.0.0.0:0");
    assert_eq!(host_port("h", 65535), "h:65535");
    assert_eq!(upstream_address(None, None), "socket-proxy:2375");
    assert_eq!(upstream_address(Some("proxy"), Some(80)), "proxy:80");
}

#[test]
fn filter_presence() {
    assert!(AppConfig::from_env(&env(&[], &[], &[], &[], false)).has_no_filters());
    assert!(!AppConfig::from_env(&env(&["foo"], &[], &[], &[], false)).has_no_filters());
    assert!(!AppConfig::from_env(&env(&["foo"], &[], &[], &[], false)).has_exclude_filters());
    assert!(AppConfig::from_env(&env(&[], &[], &[], &["k"], false)).has_exclude_filters());
    assert!(!AppConfig::from_env(&env(&[], &[], &[], &["k"], false)).has_no_filters());
}
