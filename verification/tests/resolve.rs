//! Tests for version-token classification and the semantic-resolution state
//! machine, with the package oracle mocked by handing the machine reported
//! version strings directly.

use nixbrew::registry::PackageRegistry;
use nixbrew::resolve::{
    build_flake_url, channel_name, classify, semantic_begin, semantic_probe_result, Resolution,
    SemanticStep, TokenClass, CHANNEL_COUNT,
};

fn resolved(r: Resolution) -> String {
    match r {
        Resolution::Resolved(u) => u,
        Resolution::NeedsSemantic => panic!("expected a finished reference"),
    }
}

#[test]
fn no_token_gives_default_reference() {
    assert_eq!(resolved(build_flake_url("ripgrep", None)), "nixpkgs#ripgrep");
    assert_eq!(resolved(build_flake_url("cowsay", None)), "nixpkgs#cowsay");
}

#[test]
fn channel_pin_token_gives_channel_reference() {
    assert_eq!(
        resolved(build_flake_url("ripgrep", Some("23.11"))),
        "nixpkgs/23.11#ripgrep"
    );
    assert_eq!(resolved(build_flake_url("gcc", Some("23.05"))), "nixpkgs/23.05#gcc");
}

#[test]
fn hex_token_gives_commit_reference() {
    assert_eq!(
        resolved(build_flake_url("ripgrep", Some("cb82756"))),
        "github:NixOS/nixpkgs/cb82756#ripgrep"
    );
    assert_eq!(
        resolved(build_flake_url("gcc", Some("0123456789abcdef"))),
        "github:NixOS/nixpkgs/0123456789abcdef#gcc"
    );
}

#[test]
fn other_token_with_dot_needs_semantic_resolution() {
    assert!(matches!(
        build_flake_url("gcc", Some("14.1.0")),
        Resolution::NeedsSemantic
    ));
    assert!(matches!(
        build_flake_url("gcc", Some("1.2rc")),
        Resolution::NeedsSemantic
    ));
}

#[test]
fn dotless_token_falls_back_to_channel_reference() {
    assert_eq!(
        resolved(build_flake_url("ripgrep", Some("latest"))),
        "nixpkgs/latest#ripgrep"
    );
    // Six hex characters are below the commit-hash threshold.
    assert_eq!(
        resolved(build_flake_url("ripgrep", Some("abc123"))),
        "nixpkgs/abc123#ripgrep"
    );
}

#[test]
fn classification_follows_the_rule_order() {
    assert_eq!(classify("23.11"), TokenClass::ChannelPin);
    assert_eq!(classify("cb82756"), TokenClass::Commit);
    assert_eq!(classify("14.1.0"), TokenClass::Semantic);
    assert_eq!(classify("14.1a"), TokenClass::Semantic);
    assert_eq!(classify("latest"), TokenClass::Channel);
    assert_eq!(classify(""), TokenClass::Channel);
    // Seven digits with no dot are a commit hash, not a channel pin.
    assert_eq!(classify("1234567"), TokenClass::Commit);
}

#[test]
fn channel_table_is_ordered_least_stable_first() {
    assert_eq!(CHANNEL_COUNT, 3);
    assert_eq!(channel_name(0), "nixpkgs/nixos-unstable");
    assert_eq!(channel_name(1), "nixpkgs/nixos-23.11");
    assert_eq!(channel_name(2), "nixpkgs/nixos-23.05");
}

#[test]
fn first_matching_channel_is_selected_and_cached() {
    let mut reg = PackageRegistry::new();
    // Nothing cached: the machine asks for channel 0.
    assert!(matches!(semantic_begin(&reg, "gcc", "14.1"), SemanticStep::Probe(0)));
    // Channel 0 reports "14.1.0", which starts with "14.1": selected at
    // once; no further channel is probed.
    let step = semantic_probe_result(&mut reg, "gcc", "14.1", 0, Some("14.1.0"));
    match step {
        SemanticStep::Resolved(u) => assert_eq!(u, "nixpkgs/nixos-unstable#gcc"),
        SemanticStep::Probe(_) => panic!("expected resolution after a matching report"),
    }
    assert_eq!(
        reg.get_cached_version("gcc", "14.1"),
        Some(&String::from("nixpkgs/nixos-unstable#gcc"))
    );
}

#[test]
fn second_resolution_is_answered_from_the_cache() {
    let mut reg = PackageRegistry::new();
    let step = semantic_probe_result(&mut reg, "gcc", "14.1", 0, Some("14.1.0"));
    let first = match step {
        SemanticStep::Resolved(u) => u,
        SemanticStep::Probe(_) => panic!("expected resolution"),
    };
    // A later invocation begins again: the pair is cached, so no probe runs
    // and the identical reference comes back.
    match semantic_begin(&reg, "gcc", "14.1") {
        SemanticStep::Resolved(u) => assert_eq!(u, first),
        SemanticStep::Probe(_) => panic!("cached pair must not be probed again"),
    }
}

#[test]
fn non_matching_reports_walk_the_channels_in_order() {
    let mut reg = PackageRegistry::new();
    assert!(matches!(
        semantic_probe_result(&mut reg, "gcc", "14.1", 0, Some("13.2.0")),
        SemanticStep::Probe(1)
    ));
    assert!(matches!(
        semantic_probe_result(&mut reg, "gcc", "14.1", 1, Some("12.3.0")),
        SemanticStep::Probe(2)
    ));
    // No channel matched: the unpinned reference is the answer, and it is
    // cached so the miss is never probed again.
    match semantic_probe_result(&mut reg, "gcc", "14.1", 2, Some("11.4.0")) {
        SemanticStep::Resolved(u) => assert_eq!(u, "nixpkgs#gcc"),
        SemanticStep::Probe(_) => panic!("expected the fallback reference"),
    }
    assert_eq!(reg.get_cached_version("gcc", "14.1"), Some(&String::from("nixpkgs#gcc")));
    match semantic_begin(&reg, "gcc", "14.1") {
        SemanticStep::Resolved(u) => assert_eq!(u, "nixpkgs#gcc"),
        SemanticStep::Probe(_) => panic!("cached fallback must not be probed again"),
    }
}

#[test]
fn failed_probe_is_skipped_not_fatal() {
    let mut reg = PackageRegistry::new();
    // Channel 0's probe failed: the machine moves on to channel 1.
    assert!(matches!(
        semantic_probe_result(&mut reg, "gcc", "14.1", 0, None),
        SemanticStep::Probe(1)
    ));
    // A failure on the last channel still ends in the fallback.
    match semantic_probe_result(&mut reg, "gcc", "14.1", 2, None) {
        SemanticStep::Resolved(u) => assert_eq!(u, "nixpkgs#gcc"),
        SemanticStep::Probe(_) => panic!("expected the fallback reference"),
    }
}

#[test]
fn prefix_match_requires_the_whole_token() {
    let mut reg = PackageRegistry::new();
    // "14.10.2" starts with "14.1" as characters, and the rule is a plain
    // prefix match, so it is selected.
    assert!(matches!(
        semantic_probe_result(&mut reg, "gcc", "14.1", 0, Some("14.10.2")),
        SemanticStep::Resolved(_)
    ));
    let mut reg2 = PackageRegistry::new();
    // "14" alone does not start with "14.1".
    assert!(matches!(
        semantic_probe_result(&mut reg2, "gcc", "14.1", 0, Some("14")),
        SemanticStep::Probe(1)
    ));
}
