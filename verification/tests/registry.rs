//! Tests for the in-memory registry: history recording and the resolution
//! cache.

use nixbrew::registry::{PackageInfo, PackageRegistry};

fn event(name: &str, version: &str, reference: &str, when: &str) -> PackageInfo {
    PackageInfo {
        name: name.to_string(),
        version: version.to_string(),
        reference: reference.to_string(),
        installed_at: when.to_string(),
        lock: None,
    }
}

#[test]
fn new_registry_is_empty() {
    let reg = PackageRegistry::new();
    assert!(reg.get_package_history("ripgrep").is_none());
    assert!(reg.get_cached_version("ripgrep", "14.1").is_none());
}

#[test]
fn history_is_append_only_and_ordered() {
    let mut reg = PackageRegistry::new();
    reg.add_package(event("ripgrep", "14.1", "nixpkgs#ripgrep", "t1"));
    reg.add_package(event("ripgrep", "14.1", "nixpkgs#ripgrep", "t2"));
    reg.add_package(event("cowsay", "3.04", "nixpkgs#cowsay", "t3"));
    let h = reg.get_package_history("ripgrep").expect("history recorded");
    // Recording the same version twice yields two entries, oldest first.
    assert_eq!(h.len(), 2);
    assert_eq!(h[0].installed_at, "t1");
    assert_eq!(h[1].installed_at, "t2");
    let c = reg.get_package_history("cowsay").expect("history recorded");
    assert_eq!(c.len(), 1);
    assert_eq!(c[0].version, "3.04");
    assert!(reg.get_package_history("gcc").is_none());
}

#[test]
fn cache_is_keyed_by_package_and_version() {
    let mut reg = PackageRegistry::new();
    reg.cache_version("gcc", "14.1", "nixpkgs/nixos-unstable#gcc");
    reg.cache_version("gcc", "13.2", "nixpkgs/nixos-23.11#gcc");
    reg.cache_version("ripgrep", "14.1", "nixpkgs#ripgrep");
    assert_eq!(
        reg.get_cached_version("gcc", "14.1"),
        Some(&String::from("nixpkgs/nixos-unstable#gcc"))
    );
    assert_eq!(
        reg.get_cached_version("gcc", "13.2"),
        Some(&String::from("nixpkgs/nixos-23.11#gcc"))
    );
    assert_eq!(
        reg.get_cached_version("ripgrep", "14.1"),
        Some(&String::from("nixpkgs#ripgrep"))
    );
    assert!(reg.get_cached_version("gcc", "12.0").is_none());
    assert!(reg.get_cached_version("cowsay", "14.1").is_none());
}

#[test]
fn caching_again_replaces_only_that_pair() {
    let mut reg = PackageRegistry::new();
    reg.cache_version("gcc", "14.1", "nixpkgs#gcc");
    reg.cache_version("gcc", "13.2", "nixpkgs/nixos-23.11#gcc");
    reg.cache_version("gcc", "14.1", "nixpkgs/nixos-unstable#gcc");
    assert_eq!(
        reg.get_cached_version("gcc", "14.1"),
        Some(&String::from("nixpkgs/nixos-unstable#gcc"))
    );
    assert_eq!(
        reg.get_cached_version("gcc", "13.2"),
        Some(&String::from("nixpkgs/nixos-23.11#gcc"))
    );
}

#[test]
fn cache_and_history_do_not_disturb_each_other() {
    let mut reg = PackageRegistry::new();
    reg.add_package(event("gcc", "14.1", "nixpkgs#gcc", "t1"));
    reg.cache_version("gcc", "14.1", "nixpkgs/nixos-unstable#gcc");
    let h = reg.get_package_history("gcc").expect("history recorded");
    assert_eq!(h.len(), 1);
    assert_eq!(h[0].reference, "nixpkgs#gcc");
    assert_eq!(
        reg.get_cached_version("gcc", "14.1"),
        Some(&String::from("nixpkgs/nixos-unstable#gcc"))
    );
}

#[test]
fn fresh_event_carries_its_inputs_and_a_timestamp() {
    let p = PackageInfo::fresh("ripgrep", "14.1", "nixpkgs#ripgrep");
    assert_eq!(p.name, "ripgrep");
    assert_eq!(p.version, "14.1");
    assert_eq!(p.reference, "nixpkgs#ripgrep");
    assert!(!p.installed_at.is_empty());
    assert!(p.lock.is_none());
}
