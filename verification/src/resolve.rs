//! Version-token classification and resolution to a concrete flake reference.
//!
//! A token is classified in order: a direct channel pin ("23.11"), a commit
//! hash, a semantic version (anything else with a dot), or a bare channel
//! name. Only semantic versions need the external package oracle; the
//! oracle-driven part is a small state machine (`semantic_begin` /
//! `semantic_probe_result`) whose probes the caller performs.

use vstd::prelude::*;

use crate::registry::{spec_cache_get, PackageRegistry, RegistryV};
use crate::text::{digit, hex_digit, is_digit, is_hex_digit, str_starts_with};
use vstd::string::StringExecFns;

verus! {

/// Minimum number of hexadecimal characters for a token to count as a
/// commit hash. The threshold is a policy constant: tokens at least this
/// long and all-hex are treated as source revision pins.
pub const HASH_MIN_LEN: usize = 7;

/// Number of channels probed, in order, during semantic resolution.
pub const CHANNEL_COUNT: usize = 3;

/// The channels probed during semantic resolution, least stable first.
pub open spec fn spec_channel(i: int) -> Seq<char> {
    if i == 0 {
        "nixpkgs/nixos-unstable"@
    } else if i == 1 {
        "nixpkgs/nixos-23.11"@
    } else {
        "nixpkgs/nixos-23.05"@
    }
}

/// Executable channel table, matching `spec_channel`.
pub fn channel_name(i: usize) -> (r: &'static str)
    requires
        i < CHANNEL_COUNT,
    ensures
        r@ == spec_channel(i as int),
{
    if i == 0 {
        "nixpkgs/nixos-unstable"
    } else if i == 1 {
        "nixpkgs/nixos-23.11"
    } else {
        "nixpkgs/nixos-23.05"
    }
}

/// Number of `'.'` characters in `s`.
pub open spec fn dots(s: Seq<char>) -> nat
    decreases s.len(),
{
    if s.len() == 0 {
        0
    } else {
        dots(s.drop_last()) + if s.last() == '.' {
            1nat
        } else {
            0nat
        }
    }
}

/// A direct channel pin: exactly one decimal point, every other character a
/// decimal digit (for example "23.11").
pub open spec fn is_channel_pin_token(s: Seq<char>) -> bool {
    dots(s) == 1 && (forall|j: int| 0 <= j < s.len() && s[j] != '.' ==> is_digit(s[j]))
}

/// A commit hash: at least `HASH_MIN_LEN` characters, all hexadecimal.
pub open spec fn is_commit_token(s: Seq<char>) -> bool {
    s.len() >= HASH_MIN_LEN && (forall|j: int| 0 <= j < s.len() ==> is_hex_digit(s[j]))
}

/// How a version token is treated, decided in this order.
#[derive(Clone, Copy, PartialEq, Eq, Structural, Debug)]
pub enum TokenClass {
    /// One dot, digits everywhere else: a channel selector, no oracle.
    ChannelPin,
    /// Long enough and all hex: a source revision pin, no oracle.
    Commit,
    /// Any other token with a dot: a semantic version, resolved by probing.
    Semantic,
    /// Everything else is treated as a channel name.
    Channel,
}

/// The classification applied to a version token.
pub open spec fn spec_class(s: Seq<char>) -> TokenClass {
    if is_channel_pin_token(s) {
        TokenClass::ChannelPin
    } else if is_commit_token(s) {
        TokenClass::Commit
    } else if dots(s) >= 1 {
        TokenClass::Semantic
    } else {
        TokenClass::Channel
    }
}

/// The unpinned reference for `package`.
pub open spec fn default_reference(package: Seq<char>) -> Seq<char> {
    "nixpkgs#"@ + package
}

/// A channel-qualified reference built from a token.
pub open spec fn channel_reference(token: Seq<char>, package: Seq<char>) -> Seq<char> {
    "nixpkgs/"@ + token + "#"@ + package
}

/// A commit-qualified reference built from a token.
pub open spec fn commit_reference(token: Seq<char>, package: Seq<char>) -> Seq<char> {
    "github:NixOS/nixpkgs/"@ + token + "#"@ + package
}

/// The reference selected when a probed channel matches.
pub open spec fn probe_reference(channel: Seq<char>, package: Seq<char>) -> Seq<char> {
    channel + "#"@ + package
}

/// Classifies a version token in a single pass over its characters.
pub fn classify(token: &str) -> (r: TokenClass)
    ensures
        r == spec_class(token@),
{
    let n = token.unicode_len();
    let mut i: usize = 0;
    let mut ndots: usize = 0;
    let mut nondot_digits = true;
    let mut all_hex = true;
    while i < n
        invariant
            n == token@.len(),
            i <= n,
            ndots <= i,
            ndots as nat == dots(token@.take(i as int)),
            nondot_digits == (forall|j: int|
                0 <= j < i && token@[j] != '.' ==> is_digit(token@[j])),
            all_hex == (forall|j: int| 0 <= j < i ==> is_hex_digit(token@[j])),
        decreases n - i,
    {
        let c = token.get_char(i);
        if c == '.' {
            ndots = ndots + 1;
        } else if !digit(c) {
            nondot_digits = false;
        }
        if !hex_digit(c) {
            all_hex = false;
        }
        i = i + 1;
        proof {
            assert(token@.take(i as int).drop_last() =~= token@.take(i as int - 1));
            assert(token@.take(i as int).last() == token@[i as int - 1]);
        }
    }
    proof {
        assert(token@.take(n as int) =~= token@);
    }
    if ndots == 1 && nondot_digits {
        TokenClass::ChannelPin
    } else if n >= HASH_MIN_LEN && all_hex {
        TokenClass::Commit
    } else if ndots >= 1 {
        TokenClass::Semantic
    } else {
        TokenClass::Channel
    }
}

/// A sequence with no dot has a dot count of zero.
pub proof fn lemma_no_dots(s: Seq<char>)
    requires
        forall|j: int| 0 <= j < s.len() ==> s[j] != '.',
    ensures
        dots(s) == 0,
    decreases s.len(),
{
    if s.len() > 0 {
        lemma_no_dots(s.drop_last());
    }
}

/// Tokens of the shape digits-dot-digits are direct channel pins: their
/// resolution is pure string formatting, with no oracle involvement.
pub proof fn lemma_numeric_token_is_channel_pin(s: Seq<char>)
    requires
        dots(s) == 1,
        forall|j: int| 0 <= j < s.len() && s[j] != '.' ==> is_digit(s[j]),
    ensures
        spec_class(s) == TokenClass::ChannelPin,
{
}

/// Tokens of the accepted hex-length rule are commit pins: their resolution
/// is pure string formatting, with no oracle involvement.
pub proof fn lemma_hex_token_is_commit_pin(s: Seq<char>)
    requires
        s.len() >= HASH_MIN_LEN,
        forall|j: int| 0 <= j < s.len() ==> is_hex_digit(s[j]),
    ensures
        spec_class(s) == TokenClass::Commit,
{
    assert forall|j: int| 0 <= j < s.len() implies s[j] != '.' by {
        assert(is_hex_digit(s[j]));
    }
    lemma_no_dots(s);
}

/// The unpinned reference for `package`, as a string.
pub fn make_default_reference(package: &str) -> (r: String)
    ensures
        r@ == default_reference(package@),
{
    String::from_str("nixpkgs#").concat(package)
}

/// What the first resolution step produced: either a finished reference, or
/// a request that a semantic version be resolved through the oracle.
#[derive(Debug)]
pub enum Resolution {
    /// The token needed no oracle; the reference is final.
    Resolved(String),
    /// The token is a semantic version: run `semantic_begin`.
    NeedsSemantic,
}

/// Turns a package name and optional version token into a flake reference,
/// or reports that the token is a semantic version needing oracle probes.
/// With no token, and for channel, commit and fallback tokens, the result
/// is pure string formatting: the registry and the oracle are untouched.
pub fn build_flake_url(package: &str, version: Option<&str>) -> (r: Resolution)
    ensures
        match version {
            None => r matches Resolution::Resolved(u) && u@ == default_reference(package@),
            Some(v) => match spec_class(v@) {
                TokenClass::ChannelPin => r matches Resolution::Resolved(u) && u@
                    == channel_reference(v@, package@),
                TokenClass::Commit => r matches Resolution::Resolved(u) && u@ == commit_reference(
                    v@,
                    package@,
                ),
                TokenClass::Semantic => r is NeedsSemantic,
                TokenClass::Channel => r matches Resolution::Resolved(u) && u@
                    == channel_reference(v@, package@),
            },
        },
{
    match version {
        None => Resolution::Resolved(make_default_reference(package)),
        Some(v) => match classify(v) {
            TokenClass::ChannelPin => Resolution::Resolved(
                String::from_str("nixpkgs/").concat(v).concat("#").concat(package),
            ),
            TokenClass::Commit => Resolution::Resolved(
                String::from_str("github:NixOS/nixpkgs/").concat(v).concat("#").concat(package),
            ),
            TokenClass::Semantic => Resolution::NeedsSemantic,
            TokenClass::Channel => Resolution::Resolved(
                String::from_str("nixpkgs/").concat(v).concat("#").concat(package),
            ),
        },
    }
}

/// One step of semantic resolution: either a finished reference, or a
/// request to ask the oracle what version the given channel reports.
#[derive(Debug)]
pub enum SemanticStep {
    /// Resolution is finished with this reference.
    Resolved(String),
    /// Ask the oracle about `channel_name(i)` and call
    /// `semantic_probe_result` with what it said.
    Probe(usize),
}

/// What beginning a semantic resolution does: a cached pair is answered
/// immediately; `None` means channel 0 must be probed.
pub open spec fn spec_semantic_begin(
    reg: RegistryV,
    package: Seq<char>,
    version: Seq<char>,
) -> Option<Seq<char>> {
    spec_cache_get(reg, package, version)
}

/// Whether the oracle's reported version string satisfies the requested
/// token: the report must start with the token.
pub open spec fn probe_hit(version: Seq<char>, reported: Option<&str>) -> bool {
    match reported {
        Some(rv) => version.is_prefix_of(rv@),
        None => false,
    }
}

/// Starts resolving `(package, version)` as a semantic version. A cached
/// pair is returned at once, with no oracle probe; otherwise the caller must
/// probe channel 0.
pub fn semantic_begin(registry: &PackageRegistry, package: &str, version: &str) -> (r:
    SemanticStep)
    ensures
        match spec_semantic_begin(registry@, package@, version@) {
            Some(u) => r matches SemanticStep::Resolved(s) && s@ == u,
            None => r == SemanticStep::Probe(0usize),
        },
{
    match registry.get_cached_version(package, version) {
        Some(u) => SemanticStep::Resolved(u.clone()),
        None => SemanticStep::Probe(0),
    }
}

/// Consumes the outcome of probing channel `index`: `reported` is the
/// version string that channel reported for `package`, or `None` when the
/// probe failed. A report starting with the requested token selects that
/// channel and caches the reference; otherwise the next channel is probed,
/// and after the last channel the unpinned reference is selected and cached.
/// The install history is never touched.
pub fn semantic_probe_result(
    registry: &mut PackageRegistry,
    package: &str,
    version: &str,
    index: usize,
    reported: Option<&str>,
) -> (r: SemanticStep)
    requires
        index < CHANNEL_COUNT,
    ensures
        final(registry)@.history == old(registry)@.history,
        probe_hit(version@, reported) ==> (r matches SemanticStep::Resolved(u) && u@
            == probe_reference(spec_channel(index as int), package@) && spec_cache_get(
            final(registry)@,
            package@,
            version@,
        ) == Some(u@)),
        !probe_hit(version@, reported) && index + 1 < CHANNEL_COUNT ==> r
            == SemanticStep::Probe((index + 1) as usize) && *final(registry) == *old(registry),
        !probe_hit(version@, reported) && index + 1 >= CHANNEL_COUNT ==> (r
            matches SemanticStep::Resolved(u) && u@ == default_reference(package@)
            && spec_cache_get(final(registry)@, package@, version@) == Some(
            default_reference(package@),
        )),
        forall|p2: Seq<char>, v2: Seq<char>|
            !(p2 == package@ && v2 == version@) ==> spec_cache_get(final(registry)@, p2, v2)
                == spec_cache_get(old(registry)@, p2, v2),
{
    let hit = match reported {
        Some(rv) => str_starts_with(rv, version),
        None => false,
    };
    if hit {
        let url = String::from_str(channel_name(index)).concat("#").concat(package);
        registry.cache_version(package, version, url.as_str());
        SemanticStep::Resolved(url)
    } else if index + 1 < CHANNEL_COUNT {
        SemanticStep::Probe(index + 1)
    } else {
        let url = make_default_reference(package);
        registry.cache_version(package, version, url.as_str());
        SemanticStep::Resolved(url)
    }
}

/// Idempotence of semantic resolution: `semantic_probe_result` caches every
/// reference it finishes with, and a registry whose cache holds a pair
/// answers `semantic_begin` from the cache with the identical reference and
/// no oracle probe. So resolving the same pair a second time issues zero
/// probes and returns the same reference.
pub proof fn lemma_semantic_resolution_idempotent(
    reg: RegistryV,
    package: Seq<char>,
    version: Seq<char>,
    reference: Seq<char>,
)
    requires
        spec_cache_get(reg, package, version) == Some(reference),
    ensures
        spec_semantic_begin(reg, package, version) == Some(reference),
{
}

} // verus!
