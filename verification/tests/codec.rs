//! Tests for the persisted registry format: exact rendering, the
//! save-then-load round trip, and rejection of malformed documents.

use nixbrew::codec::{registry_from_text, registry_to_text};
use nixbrew::registry::{PackageInfo, PackageRegistry};

fn event(name: &str, version: &str, reference: &str, when: &str) -> PackageInfo {
    PackageInfo {
        name: name.to_string(),
        version: version.to_string(),
        reference: reference.to_string(),
        installed_at: when.to_string(),
        lock: None,
    }
}

#[test]
fn empty_registry_renders_to_the_fixed_document() {
    let reg = PackageRegistry::new();
    assert_eq!(registry_to_text(&reg), "{\"history\":{},\"resolved_cache\":{}}");
}

#[test]
fn one_event_renders_exactly() {
    let mut reg = PackageRegistry::new();
    reg.add_package(event("rg", "14.1", "nixpkgs#rg", "t1"));
    assert_eq!(
        registry_to_text(&reg),
        "{\"history\":{\"rg\":[{\"name\":\"rg\",\"version\":\"14.1\",\
         \"reference\":\"nixpkgs#rg\",\"installed_at\":\"t1\",\"lock\":null}]},\
         \"resolved_cache\":{}}"
    );
}

#[test]
fn lock_snapshot_renders_as_a_string() {
    let mut reg = PackageRegistry::new();
    let mut e = event("rg", "14.1", "nixpkgs#rg", "t1");
    e.lock = Some("locked".to_string());
    reg.add_package(e);
    let text = registry_to_text(&reg);
    assert!(text.contains("\"lock\":\"locked\""));
    let back = registry_from_text(&text).expect("rendered text parses");
    let h = back.get_package_history("rg").expect("history kept");
    assert_eq!(h[0].lock, Some("locked".to_string()));
}

#[test]
fn record_save_load_reproduces_the_history_in_order() {
    let mut reg = PackageRegistry::new();
    reg.add_package(event("ripgrep", "14.1", "nixpkgs/nixos-unstable#ripgrep", "t1"));
    reg.add_package(event("ripgrep", "13.0", "nixpkgs/nixos-23.11#ripgrep", "t2"));
    reg.add_package(event("cowsay", "3.04", "nixpkgs#cowsay", "t3"));
    reg.cache_version("ripgrep", "14.1", "nixpkgs/nixos-unstable#ripgrep");
    let text = registry_to_text(&reg);
    let back = registry_from_text(&text).expect("rendered text parses");
    let h = back.get_package_history("ripgrep").expect("history kept");
    assert_eq!(h.len(), 2);
    assert_eq!(h[0].version, "14.1");
    assert_eq!(h[0].reference, "nixpkgs/nixos-unstable#ripgrep");
    assert_eq!(h[0].installed_at, "t1");
    assert_eq!(h[1].version, "13.0");
    assert_eq!(h[1].installed_at, "t2");
    let c = back.get_package_history("cowsay").expect("history kept");
    assert_eq!(c.len(), 1);
    assert_eq!(
        back.get_cached_version("ripgrep", "14.1"),
        Some(&String::from("nixpkgs/nixos-unstable#ripgrep"))
    );
    // Rendering the reloaded registry reproduces the document itself.
    assert_eq!(registry_to_text(&back), text);
}

#[test]
fn quotes_and_backslashes_survive_the_round_trip() {
    let mut reg = PackageRegistry::new();
    reg.add_package(event("odd\"name", "1.0\\2", "ref\"with\\both", "t\"1"));
    let text = registry_to_text(&reg);
    let back = registry_from_text(&text).expect("escaped text parses");
    let h = back.get_package_history("odd\"name").expect("history kept");
    assert_eq!(h[0].version, "1.0\\2");
    assert_eq!(h[0].reference, "ref\"with\\both");
    assert_eq!(h[0].installed_at, "t\"1");
}

#[test]
fn malformed_documents_are_rejected() {
    assert!(registry_from_text("").is_none());
    assert!(registry_from_text("garbage").is_none());
    assert!(registry_from_text("{}").is_none());
    assert!(registry_from_text("{\"history\":{}}").is_none());
    assert!(registry_from_text("{\"history\":{},\"resolved_cache\":{}").is_none());
    assert!(registry_from_text("{\"history\":{},\"resolved_cache\":{}}trailing").is_none());
    assert!(
        registry_from_text("{\"history\":{\"rg\":[{\"name\":\"rg\"}]},\"resolved_cache\":{}}")
            .is_none()
    );
}

#[test]
fn parsing_never_invents_entries() {
    let reg = registry_from_text("{\"history\":{},\"resolved_cache\":{}}")
        .expect("the empty document parses");
    assert!(reg.get_package_history("ripgrep").is_none());
    assert!(reg.get_cached_version("ripgrep", "14.1").is_none());
}
