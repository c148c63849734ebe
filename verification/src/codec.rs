//! The registry's persisted text format: a JSON object with the history and
//! the resolution cache, rendered and parsed by this module.
//!
//! Rendering is total; parsing accepts exactly what this module renders and
//! fails on everything else, so a malformed persisted file is reported
//! rather than silently replaced. The two directions are proved inverse:
//! `lemma_registry_text_round_trip`.

use vstd::prelude::*;

use crate::registry::{
    cache_view, events_view, hist_view, pins_view, CacheEntry, HistoryEntry, PackageInfo,
    PackageInfoV, PackageRegistry, RegistryV, VersionPin,
};
use crate::text::push_char;
use vstd::string::StringExecFns;

verus! {

/// `lit` stands verbatim in `s` at position `i`.
pub open spec fn lit_at(s: Seq<char>, i: int, lit: Seq<char>) -> bool {
    &&& 0 <= i
    &&& i + lit.len() <= s.len()
    &&& s.subrange(i, i + lit.len()) == lit
}

/// A fragment in `s` splits into its two halves.
pub proof fn lemma_lit_split(s: Seq<char>, i: int, a: Seq<char>, b: Seq<char>)
    requires
        lit_at(s, i, a + b),
    ensures
        lit_at(s, i, a),
        lit_at(s, i + a.len(), b),
{
    assert(s.subrange(i, i + a.len()) =~= (a + b).subrange(0, a.len() as int));
    assert((a + b).subrange(0, a.len() as int) =~= a);
    assert(s.subrange(i + a.len(), i + a.len() + b.len()) =~= (a + b).subrange(
        a.len() as int,
        (a + b).len() as int,
    ));
    assert((a + b).subrange(a.len() as int, (a + b).len() as int) =~= b);
}

/// A one-character fragment pins the character.
pub proof fn lemma_lit_char(s: Seq<char>, i: int, c: char)
    requires
        lit_at(s, i, seq![c]),
    ensures
        0 <= i < s.len(),
        s[i] == c,
{
    assert(s.subrange(i, i + 1)[0] == s[i]);
}

/// The escaped form of one character: quote and backslash take a backslash
/// in front, everything else stands as itself.
pub open spec fn esc_char(c: char) -> Seq<char> {
    if c == '"' || c == '\\' {
        seq!['\\', c]
    } else {
        seq![c]
    }
}

/// The escaped form of a string body.
pub open spec fn esc(s: Seq<char>) -> Seq<char>
    decreases s.len(),
{
    if s.len() == 0 {
        Seq::empty()
    } else {
        esc_char(s[0]) + esc(s.drop_first())
    }
}

/// Escaping distributes over concatenation.
pub proof fn lemma_esc_append(a: Seq<char>, b: Seq<char>)
    ensures
        esc(a + b) == esc(a) + esc(b),
    decreases a.len(),
{
    if a.len() == 0 {
        assert(a + b =~= b);
        assert(esc(a) + esc(b) =~= esc(b));
    } else {
        assert((a + b).drop_first() =~= a.drop_first() + b);
        lemma_esc_append(a.drop_first(), b);
        assert(esc(a + b) =~= esc(a) + esc(b));
    }
}

/// Escaping a single character gives its escaped form.
pub proof fn lemma_esc_one(c: char)
    ensures
        esc(seq![c]) == esc_char(c),
{
    let s1 = seq![c];
    assert(s1.drop_first() =~= Seq::<char>::empty());
    assert(esc(Seq::<char>::empty()) == Seq::<char>::empty());
    assert(esc(s1) == esc_char(c) + Seq::<char>::empty());
    assert(esc_char(c) + Seq::<char>::empty() =~= esc_char(c));
}

/// A rendered string: the escaped body between double quotes.
pub open spec fn render_string(x: Seq<char>) -> Seq<char> {
    seq!['"'] + esc(x) + seq!['"']
}

/// A rendered optional string: `null` when absent.
pub open spec fn render_opt_string(x: Option<Seq<char>>) -> Seq<char> {
    match x {
        None => "null"@,
        Some(v) => render_string(v),
    }
}

/// Parses a string body up to and including the closing quote, undoing the
/// escaping. Returns the body and the number of characters consumed.
pub open spec fn p_strbody(s: Seq<char>, i: int) -> Option<(Seq<char>, int)>
    decreases s.len() - i,
{
    if i < 0 || i >= s.len() {
        None
    } else if s[i] == '"' {
        Some((Seq::empty(), 1))
    } else if s[i] == '\\' {
        if i + 1 < s.len() && (s[i + 1] == '"' || s[i + 1] == '\\') {
            match p_strbody(s, i + 2) {
                Some((c, n)) => Some((seq![s[i + 1]] + c, n + 2)),
                None => None,
            }
        } else {
            None
        }
    } else {
        match p_strbody(s, i + 1) {
            Some((c, n)) => Some((seq![s[i]] + c, n + 1)),
            None => None,
        }
    }
}

/// Parses a quoted string at `i`.
pub open spec fn p_string(s: Seq<char>, i: int) -> Option<(Seq<char>, int)> {
    if 0 <= i < s.len() && s[i] == '"' {
        match p_strbody(s, i + 1) {
            Some((c, n)) => Some((c, n + 1)),
            None => None,
        }
    } else {
        None
    }
}

/// Parses `null` or a quoted string at `i`.
pub open spec fn p_opt_string(s: Seq<char>, i: int) -> Option<(Option<Seq<char>>, int)> {
    if lit_at(s, i, "null"@) {
        Some((None, "null"@.len() as int))
    } else {
        match p_string(s, i) {
            Some((c, n)) => Some((Some(c), n)),
            None => None,
        }
    }
}

/// A rendered string body parses back to the original body.
pub proof fn lemma_rt_strbody(x: Seq<char>, s: Seq<char>, i: int)
    requires
        lit_at(s, i, esc(x) + seq!['"']),
    ensures
        p_strbody(s, i) == Some((x, esc(x).len() as int + 1)),
    decreases x.len(),
{
    if x.len() == 0 {
        assert(esc(x) + seq!['"'] =~= seq!['"']);
        lemma_lit_char(s, i, '"');
        assert(p_strbody(s, i) == Some((Seq::<char>::empty(), 1int)));
        assert(x =~= Seq::<char>::empty());
    } else {
        let c = x[0];
        let rest = x.drop_first();
        assert(x =~= seq![c] + rest);
        lemma_esc_append(seq![c], rest);
        lemma_esc_one(c);
        assert(esc(x) == esc_char(c) + esc(rest));
        assert((esc_char(c) + esc(rest)) + seq!['"'] =~= esc_char(c) + (esc(rest) + seq!['"']));
        lemma_lit_split(s, i, esc_char(c), esc(rest) + seq!['"']);
        if c == '"' || c == '\\' {
            assert(esc_char(c) =~= seq!['\\'] + seq![c]);
            lemma_lit_split(s, i, seq!['\\'], seq![c]);
            lemma_lit_char(s, i, '\\');
            lemma_lit_char(s, i + 1, c);
            lemma_rt_strbody(rest, s, i + 2);
            assert(p_strbody(s, i + 2) == Some((rest, esc(rest).len() as int + 1)));
            assert(seq![s[i + 1]] + rest =~= x);
        } else {
            assert(esc_char(c) == seq![c]);
            lemma_lit_char(s, i, c);
            lemma_rt_strbody(rest, s, i + 1);
            assert(seq![s[i]] + rest =~= x);
        }
    }
}

/// A rendered string parses back to the original value.
pub proof fn lemma_rt_string(x: Seq<char>, s: Seq<char>, i: int)
    requires
        lit_at(s, i, render_string(x)),
    ensures
        p_string(s, i) == Some((x, render_string(x).len() as int)),
{
    assert(render_string(x) =~= seq!['"'] + (esc(x) + seq!['"']));
    lemma_lit_split(s, i, seq!['"'], esc(x) + seq!['"']);
    lemma_lit_char(s, i, '"');
    lemma_rt_strbody(x, s, i + 1);
}

/// A rendered optional string parses back to the original value.
pub proof fn lemma_rt_opt_string(x: Option<Seq<char>>, s: Seq<char>, i: int)
    requires
        lit_at(s, i, render_opt_string(x)),
    ensures
        p_opt_string(s, i) == Some((x, render_opt_string(x).len() as int)),
{
    reveal_strlit("null");
    match x {
        None => {
            assert(lit_at(s, i, "null"@));
        },
        Some(v) => {
            assert(render_string(v) =~= seq!['"'] + (esc(v) + seq!['"']));
            lemma_lit_split(s, i, seq!['"'], esc(v) + seq!['"']);
            lemma_lit_char(s, i, '"');
            if lit_at(s, i, "null"@) {
                assert(s.subrange(i, i + 4)[0] == s[i]);
                assert(false);
            }
            lemma_rt_string(v, s, i);
        },
    }
}

/// Whether `lit` stands in `v` at position `i`, checked character by
/// character.
pub fn e_lit(v: &Vec<char>, i: usize, lit: &str) -> (r: bool)
    ensures
        r == lit_at(v@, i as int, lit@),
{
    let m = lit.unicode_len();
    if i > v.len() || m > v.len() - i {
        return false;
    }
    let mut j: usize = 0;
    while j < m
        invariant
            m == lit@.len(),
            i + m <= v@.len(),
            v@.len() <= usize::MAX,
            j <= m,
            forall|k: int| 0 <= k < j ==> v@[i + k] == lit@[k],
        decreases m - j,
    {
        if v[i + j] != lit.get_char(j) {
            proof {
                assert(v@.subrange(i as int, i + m)[j as int] != lit@[j as int]);
            }
            return false;
        }
        j = j + 1;
    }
    proof {
        assert(v@.subrange(i as int, i + m) =~= lit@);
    }
    true
}

/// Executable form of `p_strbody`: the unescaped body and the count of
/// characters consumed, closing quote included.
fn e_strbody(v: &Vec<char>, i: usize) -> (r: Option<(String, usize)>)
    ensures
        match r {
            Some((c, n)) => p_strbody(v@, i as int) == Some((c@, n as int)) && i + n <= v@.len(),
            None => p_strbody(v@, i as int) is None,
        },
    decreases v@.len() - i,
{
    if i >= v.len() {
        return None;
    }
    let c = v[i];
    if c == '"' {
        let empty = String::new();
        proof {
            assert(empty@ =~= Seq::<char>::empty());
        }
        Some((empty, 1))
    } else if c == '\\' {
        if i + 1 < v.len() && (v[i + 1] == '"' || v[i + 1] == '\\') {
            match e_strbody(v, i + 2) {
                Some((rest, n)) => {
                    let mut out = String::new();
                    push_char(&mut out, v[i + 1]);
                    out.append(rest.as_str());
                    proof {
                        assert(out@ =~= seq![v@[i as int + 1]] + rest@);
                    }
                    Some((out, n + 2))
                },
                None => None,
            }
        } else {
            None
        }
    } else {
        match e_strbody(v, i + 1) {
            Some((rest, n)) => {
                let mut out = String::new();
                push_char(&mut out, c);
                out.append(rest.as_str());
                proof {
                    assert(out@ =~= seq![v@[i as int]] + rest@);
                }
                Some((out, n + 1))
            },
            None => None,
        }
    }
}

/// Executable form of `p_string`.
pub fn e_string(v: &Vec<char>, i: usize) -> (r: Option<(String, usize)>)
    ensures
        match r {
            Some((c, n)) => p_string(v@, i as int) == Some((c@, n as int)) && i + n <= v@.len(),
            None => p_string(v@, i as int) is None,
        },
{
    if i < v.len() && v[i] == '"' {
        match e_strbody(v, i + 1) {
            Some((c, n)) => Some((c, n + 1)),
            None => None,
        }
    } else {
        None
    }
}

/// Executable form of `p_opt_string`.
pub fn e_opt_string(v: &Vec<char>, i: usize) -> (r: Option<(Option<String>, usize)>)
    ensures
        match r {
            Some((c, n)) => ({
                let sp = p_opt_string(v@, i as int);
                &&& sp matches Some((sc, sn))
                &&& n as int == sn
                &&& i + n <= v@.len()
                &&& match (c, sc) {
                    (Some(cv), Some(scv)) => cv@ == scv,
                    (None, None) => true,
                    _ => false,
                }
            }),
            None => p_opt_string(v@, i as int) is None,
        },
{
    proof {
        reveal_strlit("null");
    }
    if e_lit(v, i, "null") {
        Some((None, 4))
    } else {
        match e_string(v, i) {
            Some((c, n)) => Some((Some(c), n)),
            None => None,
        }
    }
}

/// Appends the rendered form of `x` to `out`.
pub fn render_string_into(out: &mut String, x: &str)
    ensures
        final(out)@ == old(out)@ + render_string(x@),
{
    let n = x.unicode_len();
    push_char(out, '"');
    let mut i: usize = 0;
    while i < n
        invariant
            n == x@.len(),
            i <= n,
            out@ == old(out)@ + seq!['"'] + esc(x@.take(i as int)),
        decreases n - i,
    {
        let c = x.get_char(i);
        if c == '"' || c == '\\' {
            push_char(out, '\\');
            push_char(out, c);
        } else {
            push_char(out, c);
        }
        i = i + 1;
        proof {
            assert(x@.take(i as int) =~= x@.take(i as int - 1) + seq![x@[i as int - 1]]);
            lemma_esc_append(x@.take(i as int - 1), seq![x@[i as int - 1]]);
            lemma_esc_one(x@[i as int - 1]);
            assert(out@ =~= old(out)@ + seq!['"'] + esc(x@.take(i as int)));
        }
    }
    push_char(out, '"');
    proof {
        assert(x@.take(n as int) =~= x@);
        assert(out@ =~= old(out)@ + render_string(x@));
    }
}

/// A rendered history event object, fields in fixed order.
pub open spec fn render_info(p: PackageInfoV) -> Seq<char> {
    "{\"name\":"@ + render_string(p.name) + ",\"version\":"@ + render_string(p.version)
        + ",\"reference\":"@ + render_string(p.reference) + ",\"installed_at\":"@ + render_string(
        p.installed_at,
    ) + ",\"lock\":"@ + render_opt_string(p.lock) + seq!['}']
}

/// The comma-joined renderings of one or more history events.
pub open spec fn render_info_items(es: Seq<PackageInfoV>) -> Seq<char>
    decreases es.len(),
{
    if es.len() <= 1 {
        render_info(es[0])
    } else {
        render_info(es[0]) + seq![','] + render_info_items(es.drop_first())
    }
}

/// A rendered event array.
pub open spec fn render_infos(es: Seq<PackageInfoV>) -> Seq<char> {
    if es.len() == 0 {
        seq!['[', ']']
    } else {
        seq!['['] + render_info_items(es) + seq![']']
    }
}

/// One rendered history binding: quoted name, colon, event array.
pub open spec fn render_hist_item(e: (Seq<char>, Seq<PackageInfoV>)) -> Seq<char> {
    render_string(e.0) + seq![':'] + render_infos(e.1)
}

/// The comma-joined renderings of one or more history bindings.
pub open spec fn render_hist_items(h: Seq<(Seq<char>, Seq<PackageInfoV>)>) -> Seq<char>
    decreases h.len(),
{
    if h.len() <= 1 {
        render_hist_item(h[0])
    } else {
        render_hist_item(h[0]) + seq![','] + render_hist_items(h.drop_first())
    }
}

/// The rendered history object.
pub open spec fn render_hist(h: Seq<(Seq<char>, Seq<PackageInfoV>)>) -> Seq<char> {
    if h.len() == 0 {
        seq!['{', '}']
    } else {
        seq!['{'] + render_hist_items(h) + seq!['}']
    }
}

/// One rendered cache pin: quoted version, colon, quoted reference.
pub open spec fn render_pin_item(p: (Seq<char>, Seq<char>)) -> Seq<char> {
    render_string(p.0) + seq![':'] + render_string(p.1)
}

/// The comma-joined renderings of one or more cache pins.
pub open spec fn render_pin_items(ps: Seq<(Seq<char>, Seq<char>)>) -> Seq<char>
    decreases ps.len(),
{
    if ps.len() <= 1 {
        render_pin_item(ps[0])
    } else {
        render_pin_item(ps[0]) + seq![','] + render_pin_items(ps.drop_first())
    }
}

/// The rendered pin object of one package.
pub open spec fn render_pins(ps: Seq<(Seq<char>, Seq<char>)>) -> Seq<char> {
    if ps.len() == 0 {
        seq!['{', '}']
    } else {
        seq!['{'] + render_pin_items(ps) + seq!['}']
    }
}

/// One rendered cache binding: quoted package name, colon, pin object.
pub open spec fn render_cache_item(e: (Seq<char>, Seq<(Seq<char>, Seq<char>)>)) -> Seq<char> {
    render_string(e.0) + seq![':'] + render_pins(e.1)
}

/// The comma-joined renderings of one or more cache bindings.
pub open spec fn render_cache_items(c: Seq<(Seq<char>, Seq<(Seq<char>, Seq<char>)>)>) -> Seq<char>
    decreases c.len(),
{
    if c.len() <= 1 {
        render_cache_item(c[0])
    } else {
        render_cache_item(c[0]) + seq![','] + render_cache_items(c.drop_first())
    }
}

/// The rendered cache object.
pub open spec fn render_cache(c: Seq<(Seq<char>, Seq<(Seq<char>, Seq<char>)>)>) -> Seq<char> {
    if c.len() == 0 {
        seq!['{', '}']
    } else {
        seq!['{'] + render_cache_items(c) + seq!['}']
    }
}

/// The rendered registry document.
pub open spec fn spec_render_registry(r: RegistryV) -> Seq<char> {
    "{\"history\":"@ + render_hist(r.history) + ",\"resolved_cache\":"@ + render_cache(r.cache)
        + seq!['}']
}

/// Parses one history event object.
pub open spec fn p_info(s: Seq<char>, i: int) -> Option<(PackageInfoV, int)> {
    let l1 = "{\"name\":"@;
    if !lit_at(s, i, l1) {
        None
    } else {
        match p_string(s, i + l1.len() as int) {
            None => None,
            Some((name, n1)) => {
                let i2 = i + l1.len() as int + n1;
                let l2 = ",\"version\":"@;
                if !lit_at(s, i2, l2) {
                    None
                } else {
                    match p_string(s, i2 + l2.len() as int) {
                        None => None,
                        Some((version, n2)) => {
                            let i3 = i2 + l2.len() as int + n2;
                            let l3 = ",\"reference\":"@;
                            if !lit_at(s, i3, l3) {
                                None
                            } else {
                                match p_string(s, i3 + l3.len() as int) {
                                    None => None,
                                    Some((reference, n3)) => {
                                        let i4 = i3 + l3.len() as int + n3;
                                        let l4 = ",\"installed_at\":"@;
                                        if !lit_at(s, i4, l4) {
                                            None
                                        } else {
                                            match p_string(s, i4 + l4.len() as int) {
                                                None => None,
                                                Some((installed_at, n4)) => {
                                                    let i5 = i4 + l4.len() as int + n4;
                                                    let l5 = ",\"lock\":"@;
                                                    if !lit_at(s, i5, l5) {
                                                        None
                                                    } else {
                                                        match p_opt_string(
                                                            s,
                                                            i5 + l5.len() as int,
                                                        ) {
                                                            None => None,
                                                            Some((lock, n5)) => {
                                                                let i6 = i5 + l5.len() as int
                                                                    + n5;
                                                                if lit_at(s, i6, seq!['}']) {
                                                                    Some(
                                                                        (
                                                                            PackageInfoV {
                                                                                name,
                                                                                version,
                                                                                reference,
                                                                                installed_at,
                                                                                lock,
                                                                            },
                                                                            i6 + 1 - i,
                                                                        ),
                                                                    )
                                                                } else {
                                                                    None
                                                                }
                                                            },
                                                        }
                                                    }
                                                },
                                            }
                                        }
                                    },
                                }
                            }
                        },
                    }
                }
            },
        }
    }
}

/// Parses one or more comma-separated event objects up to and including the
/// closing `]`.
pub open spec fn p_info_items(s: Seq<char>, i: int) -> Option<(Seq<PackageInfoV>, int)>
    decreases s.len() - i,
{
    if i < 0 {
        None
    } else {
        match p_info(s, i) {
            None => None,
            Some((p, n)) => {
                if n < 1 || i + n >= s.len() {
                    None
                } else if s[i + n] == ']' {
                    Some((seq![p], n + 1))
                } else if s[i + n] == ',' {
                    match p_info_items(s, i + n + 1) {
                        Some((rest, m)) => Some((seq![p] + rest, n + 1 + m)),
                        None => None,
                    }
                } else {
                    None
                }
            },
        }
    }
}

/// Parses an event array.
pub open spec fn p_infos(s: Seq<char>, i: int) -> Option<(Seq<PackageInfoV>, int)> {
    if !(0 <= i < s.len() && s[i] == '[') {
        None
    } else if i + 1 < s.len() && s[i + 1] == ']' {
        Some((Seq::empty(), 2))
    } else {
        match p_info_items(s, i + 1) {
            Some((es, n)) => Some((es, n + 1)),
            None => None,
        }
    }
}

/// Parses one or more comma-separated history bindings up to and including
/// the closing `}`.
pub open spec fn p_hist_items(s: Seq<char>, i: int) -> Option<
    (Seq<(Seq<char>, Seq<PackageInfoV>)>, int),
>
    decreases s.len() - i,
{
    if i < 0 {
        None
    } else {
        match p_string(s, i) {
            None => None,
            Some((name, n1)) => {
                if n1 < 1 || i + n1 >= s.len() {
                    None
                } else if s[i + n1] != ':' {
                    None
                } else {
                    match p_infos(s, i + n1 + 1) {
                        None => None,
                        Some((es, n2)) => {
                            let k = n1 + 1 + n2;
                            if n2 < 1 || i + k >= s.len() {
                                None
                            } else if s[i + k] == '}' {
                                Some((seq![(name, es)], k + 1))
                            } else if s[i + k] == ',' {
                                match p_hist_items(s, i + k + 1) {
                                    Some((rest, m)) => Some((seq![(name, es)] + rest, k + 1 + m)),
                                    None => None,
                                }
                            } else {
                                None
                            }
                        },
                    }
                }
            },
        }
    }
}

/// Parses the history object.
pub open spec fn p_hist(s: Seq<char>, i: int) -> Option<(Seq<(Seq<char>, Seq<PackageInfoV>)>, int)> {
    if !(0 <= i < s.len() && s[i] == '{') {
        None
    } else if i + 1 < s.len() && s[i + 1] == '}' {
        Some((Seq::empty(), 2))
    } else {
        match p_hist_items(s, i + 1) {
            Some((h, n)) => Some((h, n + 1)),
            None => None,
        }
    }
}

/// Parses one or more comma-separated pins up to and including the closing
/// `}`.
pub open spec fn p_pin_items(s: Seq<char>, i: int) -> Option<(Seq<(Seq<char>, Seq<char>)>, int)>
    decreases s.len() - i,
{
    if i < 0 {
        None
    } else {
        match p_string(s, i) {
            None => None,
            Some((version, n1)) => {
                if n1 < 1 || i + n1 >= s.len() {
                    None
                } else if s[i + n1] != ':' {
                    None
                } else {
                    match p_string(s, i + n1 + 1) {
                        None => None,
                        Some((reference, n2)) => {
                            let k = n1 + 1 + n2;
                            if n2 < 1 || i + k >= s.len() {
                                None
                            } else if s[i + k] == '}' {
                                Some((seq![(version, reference)], k + 1))
                            } else if s[i + k] == ',' {
                                match p_pin_items(s, i + k + 1) {
                                    Some((rest, m)) => Some(
                                        (seq![(version, reference)] + rest, k + 1 + m),
                                    ),
                                    None => None,
                                }
                            } else {
                                None
                            }
                        },
                    }
                }
            },
        }
    }
}

/// Parses a pin object.
pub open spec fn p_pins(s: Seq<char>, i: int) -> Option<(Seq<(Seq<char>, Seq<char>)>, int)> {
    if !(0 <= i < s.len() && s[i] == '{') {
        None
    } else if i + 1 < s.len() && s[i + 1] == '}' {
        Some((Seq::empty(), 2))
    } else {
        match p_pin_items(s, i + 1) {
            Some((ps, n)) => Some((ps, n + 1)),
            None => None,
        }
    }
}

/// Parses one or more comma-separated cache bindings up to and including
/// the closing `}`.
pub open spec fn p_cache_items(s: Seq<char>, i: int) -> Option<
    (Seq<(Seq<char>, Seq<(Seq<char>, Seq<char>)>)>, int),
>
    decreases s.len() - i,
{
    if i < 0 {
        None
    } else {
        match p_string(s, i) {
            None => None,
            Some((name, n1)) => {
                if n1 < 1 || i + n1 >= s.len() {
                    None
                } else if s[i + n1] != ':' {
                    None
                } else {
                    match p_pins(s, i + n1 + 1) {
                        None => None,
                        Some((ps, n2)) => {
                            let k = n1 + 1 + n2;
                            if n2 < 1 || i + k >= s.len() {
                                None
                            } else if s[i + k] == '}' {
                                Some((seq![(name, ps)], k + 1))
                            } else if s[i + k] == ',' {
                                match p_cache_items(s, i + k + 1) {
                                    Some((rest, m)) => Some((seq![(name, ps)] + rest, k + 1 + m)),
                                    None => None,
                                }
                            } else {
                                None
                            }
                        },
                    }
                }
            },
        }
    }
}

/// Parses the cache object.
pub open spec fn p_cache(s: Seq<char>, i: int) -> Option<
    (Seq<(Seq<char>, Seq<(Seq<char>, Seq<char>)>)>, int),
> {
    if !(0 <= i < s.len() && s[i] == '{') {
        None
    } else if i + 1 < s.len() && s[i + 1] == '}' {
        Some((Seq::empty(), 2))
    } else {
        match p_cache_items(s, i + 1) {
            Some((c, n)) => Some((c, n + 1)),
            None => None,
        }
    }
}

/// Parses a whole registry document starting at `i`.
pub open spec fn p_registry(s: Seq<char>, i: int) -> Option<(RegistryV, int)> {
    let l1 = "{\"history\":"@;
    if !lit_at(s, i, l1) {
        None
    } else {
        match p_hist(s, i + l1.len() as int) {
            None => None,
            Some((h, n1)) => {
                let i2 = i + l1.len() as int + n1;
                let l2 = ",\"resolved_cache\":"@;
                if !lit_at(s, i2, l2) {
                    None
                } else {
                    match p_cache(s, i2 + l2.len() as int) {
                        None => None,
                        Some((c, n2)) => {
                            let i3 = i2 + l2.len() as int + n2;
                            if lit_at(s, i3, seq!['}']) {
                                Some((RegistryV { history: h, cache: c }, i3 + 1 - i))
                            } else {
                                None
                            }
                        },
                    }
                }
            },
        }
    }
}

/// What a persisted document means: the registry value, provided the
/// document parses and nothing trails it.
pub open spec fn spec_parse_registry(s: Seq<char>) -> Option<RegistryV> {
    match p_registry(s, 0) {
        Some((r, n)) => if n == s.len() {
            Some(r)
        } else {
            None
        },
        None => None,
    }
}

/// A rendered event object parses back to the original event.
#[verifier::rlimit(60)]
pub proof fn lemma_rt_info(p: PackageInfoV, s: Seq<char>, i: int)
    requires
        lit_at(s, i, render_info(p)),
    ensures
        p_info(s, i) == Some((p, render_info(p).len() as int)),
{
    let f1 = "{\"name\":"@;
    let g1 = render_string(p.name);
    let f2 = ",\"version\":"@;
    let g2 = render_string(p.version);
    let f3 = ",\"reference\":"@;
    let g3 = render_string(p.reference);
    let f4 = ",\"installed_at\":"@;
    let g4 = render_string(p.installed_at);
    let f5 = ",\"lock\":"@;
    let g5 = render_opt_string(p.lock);
    let f6 = seq!['}'];
    assert(render_info(p) =~= f1 + (g1 + (f2 + (g2 + (f3 + (g3 + (f4 + (g4 + (f5 + (g5
        + f6))))))))));
    lemma_lit_split(s, i, f1, g1 + (f2 + (g2 + (f3 + (g3 + (f4 + (g4 + (f5 + (g5 + f6)))))))));
    let i1 = i + f1.len() as int;
    lemma_lit_split(s, i1, g1, f2 + (g2 + (f3 + (g3 + (f4 + (g4 + (f5 + (g5 + f6))))))));
    lemma_rt_string(p.name, s, i1);
    let i2 = i1 + g1.len() as int;
    lemma_lit_split(s, i2, f2, g2 + (f3 + (g3 + (f4 + (g4 + (f5 + (g5 + f6)))))));
    let i2b = i2 + f2.len() as int;
    lemma_lit_split(s, i2b, g2, f3 + (g3 + (f4 + (g4 + (f5 + (g5 + f6))))));
    lemma_rt_string(p.version, s, i2b);
    let i3 = i2b + g2.len() as int;
    lemma_lit_split(s, i3, f3, g3 + (f4 + (g4 + (f5 + (g5 + f6)))));
    let i3b = i3 + f3.len() as int;
    lemma_lit_split(s, i3b, g3, f4 + (g4 + (f5 + (g5 + f6))));
    lemma_rt_string(p.reference, s, i3b);
    let i4 = i3b + g3.len() as int;
    lemma_lit_split(s, i4, f4, g4 + (f5 + (g5 + f6)));
    let i4b = i4 + f4.len() as int;
    lemma_lit_split(s, i4b, g4, f5 + (g5 + f6));
    lemma_rt_string(p.installed_at, s, i4b);
    let i5 = i4b + g4.len() as int;
    lemma_lit_split(s, i5, f5, g5 + f6);
    let i5b = i5 + f5.len() as int;
    lemma_lit_split(s, i5b, g5, f6);
    lemma_rt_opt_string(p.lock, s, i5b);
    let i6 = i5b + g5.len() as int;
    lemma_lit_char(s, i6, '}');
    assert(lit_at(s, i6, seq!['}']));
}

/// The rendering of an event object is never empty.
pub proof fn lemma_render_info_len(p: PackageInfoV)
    ensures
        render_info(p).len() >= 1,
{
}

/// Rendered comma-joined event objects, followed by `]`, parse back to the
/// original events.
#[verifier::rlimit(60)]
pub proof fn lemma_rt_info_items(es: Seq<PackageInfoV>, s: Seq<char>, i: int)
    requires
        es.len() >= 1,
        lit_at(s, i, render_info_items(es) + seq![']']),
    ensures
        p_info_items(s, i) == Some((es, render_info_items(es).len() as int + 1)),
    decreases es.len(),
{
    if es.len() == 1 {
        lemma_lit_split(s, i, render_info(es[0]), seq![']']);
        lemma_rt_info(es[0], s, i);
        lemma_render_info_len(es[0]);
        let n = render_info(es[0]).len() as int;
        lemma_lit_char(s, i + n, ']');
        assert(seq![es[0]] =~= es);
    } else {
        let rest = es.drop_first();
        let a = render_info(es[0]);
        let b = render_info_items(rest);
        assert(render_info_items(es) + seq![']'] =~= a + (seq![','] + (b + seq![']'])));
        lemma_lit_split(s, i, a, seq![','] + (b + seq![']']));
        lemma_rt_info(es[0], s, i);
        lemma_render_info_len(es[0]);
        let n = a.len() as int;
        lemma_lit_split(s, i + n, seq![','], b + seq![']']);
        lemma_lit_char(s, i + n, ',');
        lemma_rt_info_items(rest, s, i + n + 1);
        assert(seq![es[0]] + rest =~= es);
    }
}

/// A rendered event array parses back to the original events.
pub proof fn lemma_rt_infos(es: Seq<PackageInfoV>, s: Seq<char>, i: int)
    requires
        lit_at(s, i, render_infos(es)),
    ensures
        p_infos(s, i) == Some((es, render_infos(es).len() as int)),
{
    reveal_strlit("{\"name\":");
    if es.len() == 0 {
        assert(render_infos(es) =~= seq!['['] + seq![']']);
        lemma_lit_split(s, i, seq!['['], seq![']']);
        lemma_lit_char(s, i, '[');
        lemma_lit_char(s, i + 1, ']');
        assert(p_infos(s, i) == Some((Seq::<PackageInfoV>::empty(), 2int)));
        assert(es =~= Seq::<PackageInfoV>::empty());
    } else {
        let items = render_info_items(es);
        assert(render_infos(es) =~= seq!['['] + (items + seq![']']));
        lemma_lit_split(s, i, seq!['['], items + seq![']']);
        lemma_lit_char(s, i, '[');
        lemma_rt_info_items(es, s, i + 1);
        assert(items[0] == render_info(es[0])[0]);
        assert(render_info(es[0])[0] == '{');
        assert(s.subrange(i + 1, i + 1 + (items + seq![']']).len())[0] == s[i + 1]);
        assert(s[i + 1] == '{');
    }
}

/// Rendered comma-joined history bindings, followed by `}`, parse back to
/// the original bindings.
#[verifier::rlimit(60)]
pub proof fn lemma_rt_hist_items(h: Seq<(Seq<char>, Seq<PackageInfoV>)>, s: Seq<char>, i: int)
    requires
        h.len() >= 1,
        lit_at(s, i, render_hist_items(h) + seq!['}']),
    ensures
        p_hist_items(s, i) == Some((h, render_hist_items(h).len() as int + 1)),
    decreases h.len(),
{
    let a = render_string(h[0].0);
    let b = render_infos(h[0].1);
    if h.len() == 1 {
        assert(render_hist_items(h) + seq!['}'] =~= a + (seq![':'] + (b + seq!['}'])));
        lemma_lit_split(s, i, a, seq![':'] + (b + seq!['}']));
        lemma_rt_string(h[0].0, s, i);
        let n1 = a.len() as int;
        lemma_lit_split(s, i + n1, seq![':'], b + seq!['}']);
        lemma_lit_char(s, i + n1, ':');
        lemma_lit_split(s, i + n1 + 1, b, seq!['}']);
        lemma_rt_infos(h[0].1, s, i + n1 + 1);
        let k = n1 + 1 + b.len() as int;
        lemma_lit_char(s, i + k, '}');
        assert(seq![(h[0].0, h[0].1)] =~= h);
    } else {
        let rest = h.drop_first();
        let c = render_hist_items(rest);
        assert(render_hist_items(h) + seq!['}'] =~= a + (seq![':'] + (b + (seq![','] + (c
            + seq!['}'])))));
        lemma_lit_split(s, i, a, seq![':'] + (b + (seq![','] + (c + seq!['}']))));
        lemma_rt_string(h[0].0, s, i);
        let n1 = a.len() as int;
        lemma_lit_split(s, i + n1, seq![':'], b + (seq![','] + (c + seq!['}'])));
        lemma_lit_char(s, i + n1, ':');
        lemma_lit_split(s, i + n1 + 1, b, seq![','] + (c + seq!['}']));
        lemma_rt_infos(h[0].1, s, i + n1 + 1);
        let k = n1 + 1 + b.len() as int;
        lemma_lit_split(s, i + k, seq![','], c + seq!['}']);
        lemma_lit_char(s, i + k, ',');
        lemma_rt_hist_items(rest, s, i + k + 1);
        assert(seq![(h[0].0, h[0].1)] + rest =~= h);
    }
}

/// A rendered history object parses back to the original bindings.
pub proof fn lemma_rt_hist(h: Seq<(Seq<char>, Seq<PackageInfoV>)>, s: Seq<char>, i: int)
    requires
        lit_at(s, i, render_hist(h)),
    ensures
        p_hist(s, i) == Some((h, render_hist(h).len() as int)),
{
    if h.len() == 0 {
        assert(render_hist(h) =~= seq!['{'] + seq!['}']);
        lemma_lit_split(s, i, seq!['{'], seq!['}']);
        lemma_lit_char(s, i, '{');
        lemma_lit_char(s, i + 1, '}');
        assert(h =~= Seq::<(Seq<char>, Seq<PackageInfoV>)>::empty());
    } else {
        let items = render_hist_items(h);
        assert(render_hist(h) =~= seq!['{'] + (items + seq!['}']));
        lemma_lit_split(s, i, seq!['{'], items + seq!['}']);
        lemma_lit_char(s, i, '{');
        lemma_rt_hist_items(h, s, i + 1);
        assert(items[0] == render_string(h[0].0)[0]);
        assert(render_string(h[0].0)[0] == '"');
        assert(s.subrange(i + 1, i + 1 + (items + seq!['}']).len())[0] == s[i + 1]);
        assert(s[i + 1] == '"');
    }
}

/// Rendered comma-joined pins, followed by `}`, parse back to the original
/// pins.
#[verifier::rlimit(60)]
pub proof fn lemma_rt_pin_items(ps: Seq<(Seq<char>, Seq<char>)>, s: Seq<char>, i: int)
    requires
        ps.len() >= 1,
        lit_at(s, i, render_pin_items(ps) + seq!['}']),
    ensures
        p_pin_items(s, i) == Some((ps, render_pin_items(ps).len() as int + 1)),
    decreases ps.len(),
{
    let a = render_string(ps[0].0);
    let b = render_string(ps[0].1);
    if ps.len() == 1 {
        assert(render_pin_items(ps) + seq!['}'] =~= a + (seq![':'] + (b + seq!['}'])));
        lemma_lit_split(s, i, a, seq![':'] + (b + seq!['}']));
        lemma_rt_string(ps[0].0, s, i);
        let n1 = a.len() as int;
        lemma_lit_split(s, i + n1, seq![':'], b + seq!['}']);
        lemma_lit_char(s, i + n1, ':');
        lemma_lit_split(s, i + n1 + 1, b, seq!['}']);
        lemma_rt_string(ps[0].1, s, i + n1 + 1);
        let k = n1 + 1 + b.len() as int;
        lemma_lit_char(s, i + k, '}');
        assert(seq![(ps[0].0, ps[0].1)] =~= ps);
    } else {
        let rest = ps.drop_first();
        let c = render_pin_items(rest);
        assert(render_pin_items(ps) + seq!['}'] =~= a + (seq![':'] + (b + (seq![','] + (c
            + seq!['}'])))));
        lemma_lit_split(s, i, a, seq![':'] + (b + (seq![','] + (c + seq!['}']))));
        lemma_rt_string(ps[0].0, s, i);
        let n1 = a.len() as int;
        lemma_lit_split(s, i + n1, seq![':'], b + (seq![','] + (c + seq!['}'])));
        lemma_lit_char(s, i + n1, ':');
        lemma_lit_split(s, i + n1 + 1, b, seq![','] + (c + seq!['}']));
        lemma_rt_string(ps[0].1, s, i + n1 + 1);
        let k = n1 + 1 + b.len() as int;
        lemma_lit_split(s, i + k, seq![','], c + seq!['}']);
        lemma_lit_char(s, i + k, ',');
        lemma_rt_pin_items(rest, s, i + k + 1);
        assert(seq![(ps[0].0, ps[0].1)] + rest =~= ps);
    }
}

/// A rendered pin object parses back to the original pins.
pub proof fn lemma_rt_pins(ps: Seq<(Seq<char>, Seq<char>)>, s: Seq<char>, i: int)
    requires
        lit_at(s, i, render_pins(ps)),
    ensures
        p_pins(s, i) == Some((ps, render_pins(ps).len() as int)),
{
    if ps.len() == 0 {
        assert(render_pins(ps) =~= seq!['{'] + seq!['}']);
        lemma_lit_split(s, i, seq!['{'], seq!['}']);
        lemma_lit_char(s, i, '{');
        lemma_lit_char(s, i + 1, '}');
        assert(ps =~= Seq::<(Seq<char>, Seq<char>)>::empty());
    } else {
        let items = render_pin_items(ps);
        assert(render_pins(ps) =~= seq!['{'] + (items + seq!['}']));
        lemma_lit_split(s, i, seq!['{'], items + seq!['}']);
        lemma_lit_char(s, i, '{');
        lemma_rt_pin_items(ps, s, i + 1);
        assert(items[0] == render_string(ps[0].0)[0]);
        assert(render_string(ps[0].0)[0] == '"');
        assert(s.subrange(i + 1, i + 1 + (items + seq!['}']).len())[0] == s[i + 1]);
        assert(s[i + 1] == '"');
    }
}

/// Rendered comma-joined cache bindings, followed by `}`, parse back to the
/// original bindings.
#[verifier::rlimit(60)]
pub proof fn lemma_rt_cache_items(
    c: Seq<(Seq<char>, Seq<(Seq<char>, Seq<char>)>)>,
    s: Seq<char>,
    i: int,
)
    requires
        c.len() >= 1,
        lit_at(s, i, render_cache_items(c) + seq!['}']),
    ensures
        p_cache_items(s, i) == Some((c, render_cache_items(c).len() as int + 1)),
    decreases c.len(),
{
    let a = render_string(c[0].0);
    let b = render_pins(c[0].1);
    if c.len() == 1 {
        assert(render_cache_items(c) + seq!['}'] =~= a + (seq![':'] + (b + seq!['}'])));
        lemma_lit_split(s, i, a, seq![':'] + (b + seq!['}']));
        lemma_rt_string(c[0].0, s, i);
        let n1 = a.len() as int;
        lemma_lit_split(s, i + n1, seq![':'], b + seq!['}']);
        lemma_lit_char(s, i + n1, ':');
        lemma_lit_split(s, i + n1 + 1, b, seq!['}']);
        lemma_rt_pins(c[0].1, s, i + n1 + 1);
        let k = n1 + 1 + b.len() as int;
        lemma_lit_char(s, i + k, '}');
        assert(seq![(c[0].0, c[0].1)] =~= c);
    } else {
        let rest = c.drop_first();
        let d = render_cache_items(rest);
        assert(render_cache_items(c) + seq!['}'] =~= a + (seq![':'] + (b + (seq![','] + (d
            + seq!['}'])))));
        lemma_lit_split(s, i, a, seq![':'] + (b + (seq![','] + (d + seq!['}']))));
        lemma_rt_string(c[0].0, s, i);
        let n1 = a.len() as int;
        lemma_lit_split(s, i + n1, seq![':'], b + (seq![','] + (d + seq!['}'])));
        lemma_lit_char(s, i + n1, ':');
        lemma_lit_split(s, i + n1 + 1, b, seq![','] + (d + seq!['}']));
        lemma_rt_pins(c[0].1, s, i + n1 + 1);
        let k = n1 + 1 + b.len() as int;
        lemma_lit_split(s, i + k, seq![','], d + seq!['}']);
        lemma_lit_char(s, i + k, ',');
        lemma_rt_cache_items(rest, s, i + k + 1);
        assert(seq![(c[0].0, c[0].1)] + rest =~= c);
    }
}

/// A rendered cache object parses back to the original bindings.
pub proof fn lemma_rt_cache(c: Seq<(Seq<char>, Seq<(Seq<char>, Seq<char>)>)>, s: Seq<char>, i: int)
    requires
        lit_at(s, i, render_cache(c)),
    ensures
        p_cache(s, i) == Some((c, render_cache(c).len() as int)),
{
    if c.len() == 0 {
        assert(render_cache(c) =~= seq!['{'] + seq!['}']);
        lemma_lit_split(s, i, seq!['{'], seq!['}']);
        lemma_lit_char(s, i, '{');
        lemma_lit_char(s, i + 1, '}');
        assert(c =~= Seq::<(Seq<char>, Seq<(Seq<char>, Seq<char>)>)>::empty());
    } else {
        let items = render_cache_items(c);
        assert(render_cache(c) =~= seq!['{'] + (items + seq!['}']));
        lemma_lit_split(s, i, seq!['{'], items + seq!['}']);
        lemma_lit_char(s, i, '{');
        lemma_rt_cache_items(c, s, i + 1);
        assert(items[0] == render_string(c[0].0)[0]);
        assert(render_string(c[0].0)[0] == '"');
        assert(s.subrange(i + 1, i + 1 + (items + seq!['}']).len())[0] == s[i + 1]);
        assert(s[i + 1] == '"');
    }
}

/// Round-trip law: every registry value, rendered to text and parsed back,
/// is reproduced exactly — history sequences in the same order with no
/// entries lost, and the cache intact.
#[verifier::spinoff_prover]
#[verifier::rlimit(100)]
pub proof fn lemma_registry_text_round_trip(r: RegistryV)
    ensures
        spec_parse_registry(spec_render_registry(r)) == Some(r),
{
    let s = spec_render_registry(r);
    let f1 = "{\"history\":"@;
    let g1 = render_hist(r.history);
    let f2 = ",\"resolved_cache\":"@;
    let g2 = render_cache(r.cache);
    let f3 = seq!['}'];
    let i1 = f1.len() as int;
    let i2 = i1 + g1.len() as int;
    let i2b = i2 + f2.len() as int;
    let i3 = i2b + g2.len() as int;
    assert(lit_at(s, 0, f1) && lit_at(s, i1, g1) && lit_at(s, i2, f2) && lit_at(s, i2b, g2)
        && lit_at(s, i3, f3)) by {
        assert(s.subrange(0, s.len() as int) =~= s);
        assert(lit_at(s, 0, s));
        assert(s =~= f1 + (g1 + (f2 + (g2 + f3))));
        lemma_lit_split(s, 0, f1, g1 + (f2 + (g2 + f3)));
        lemma_lit_split(s, i1, g1, f2 + (g2 + f3));
        lemma_lit_split(s, i2, f2, g2 + f3);
        lemma_lit_split(s, i2b, g2, f3);
    }
    assert(p_hist(s, i1) == Some((r.history, g1.len() as int))) by {
        lemma_rt_hist(r.history, s, i1);
    }
    assert(p_cache(s, i2b) == Some((r.cache, g2.len() as int))) by {
        lemma_rt_cache(r.cache, s, i2b);
    }
    assert(p_registry(s, 0) == Some((r, i3 + 1)));
    assert(i3 + 1 == s.len());
}

/// Appends the rendered form of an optional string to `out`.
pub fn render_opt_string_into(out: &mut String, x: &Option<String>)
    ensures
        final(out)@ == old(out)@ + render_opt_string(
            match *x {
                Some(ref v) => Some(v@),
                None => None,
            },
        ),
{
    match x {
        None => {
            out.append("null");
        },
        Some(v) => {
            render_string_into(out, v.as_str());
        },
    }
}

/// Appending one more event extends the comma-joined rendering.
pub proof fn lemma_render_info_items_push(es: Seq<PackageInfoV>, p: PackageInfoV)
    requires
        es.len() >= 1,
    ensures
        render_info_items(es.push(p)) == render_info_items(es) + seq![','] + render_info(p),
    decreases es.len(),
{
    if es.len() == 1 {
        let e2 = es.push(p);
        assert(e2.drop_first() =~= seq![p]);
        assert(e2[0] == es[0]);
        assert(render_info_items(seq![p]) == render_info(p));
        assert(render_info_items(e2) =~= render_info_items(es) + seq![','] + render_info(p));
    } else {
        assert(es.push(p).drop_first() =~= es.drop_first().push(p));
        assert(es.push(p)[0] == es[0]);
        lemma_render_info_items_push(es.drop_first(), p);
        assert(render_info_items(es.push(p)) =~= render_info_items(es) + seq![','] + render_info(
            p,
        ));
    }
}

/// Appending one more history binding extends the comma-joined rendering.
pub proof fn lemma_render_hist_items_push(
    h: Seq<(Seq<char>, Seq<PackageInfoV>)>,
    e: (Seq<char>, Seq<PackageInfoV>),
)
    requires
        h.len() >= 1,
    ensures
        render_hist_items(h.push(e)) == render_hist_items(h) + seq![','] + render_hist_item(e),
    decreases h.len(),
{
    if h.len() == 1 {
        let h2 = h.push(e);
        assert(h2.drop_first() =~= seq![e]);
        assert(h2[0] == h[0]);
        assert(render_hist_items(seq![e]) == render_hist_item(e));
        assert(render_hist_items(h2) =~= render_hist_items(h) + seq![','] + render_hist_item(e));
    } else {
        assert(h.push(e).drop_first() =~= h.drop_first().push(e));
        assert(h.push(e)[0] == h[0]);
        lemma_render_hist_items_push(h.drop_first(), e);
        assert(render_hist_items(h.push(e)) =~= render_hist_items(h) + seq![',']
            + render_hist_item(e));
    }
}

/// Appending one more pin extends the comma-joined rendering.
pub proof fn lemma_render_pin_items_push(ps: Seq<(Seq<char>, Seq<char>)>, p: (Seq<char>, Seq<char>))
    requires
        ps.len() >= 1,
    ensures
        render_pin_items(ps.push(p)) == render_pin_items(ps) + seq![','] + render_pin_item(p),
    decreases ps.len(),
{
    if ps.len() == 1 {
        let p2 = ps.push(p);
        assert(p2.drop_first() =~= seq![p]);
        assert(p2[0] == ps[0]);
        assert(render_pin_items(seq![p]) == render_pin_item(p));
        assert(render_pin_items(p2) =~= render_pin_items(ps) + seq![','] + render_pin_item(p));
    } else {
        assert(ps.push(p).drop_first() =~= ps.drop_first().push(p));
        assert(ps.push(p)[0] == ps[0]);
        lemma_render_pin_items_push(ps.drop_first(), p);
        assert(render_pin_items(ps.push(p)) =~= render_pin_items(ps) + seq![','] + render_pin_item(
            p,
        ));
    }
}

/// Appending one more cache binding extends the comma-joined rendering.
pub proof fn lemma_render_cache_items_push(
    c: Seq<(Seq<char>, Seq<(Seq<char>, Seq<char>)>)>,
    e: (Seq<char>, Seq<(Seq<char>, Seq<char>)>),
)
    requires
        c.len() >= 1,
    ensures
        render_cache_items(c.push(e)) == render_cache_items(c) + seq![','] + render_cache_item(e),
    decreases c.len(),
{
    if c.len() == 1 {
        let c2 = c.push(e);
        assert(c2.drop_first() =~= seq![e]);
        assert(c2[0] == c[0]);
        assert(render_cache_items(seq![e]) == render_cache_item(e));
        assert(render_cache_items(c2) =~= render_cache_items(c) + seq![','] + render_cache_item(
            e,
        ));
    } else {
        assert(c.push(e).drop_first() =~= c.drop_first().push(e));
        assert(c.push(e)[0] == c[0]);
        lemma_render_cache_items_push(c.drop_first(), e);
        assert(render_cache_items(c.push(e)) =~= render_cache_items(c) + seq![',']
            + render_cache_item(e));
    }
}

/// Appends the rendered form of one event object to `out`.
fn render_info_into(out: &mut String, p: &PackageInfo)
    ensures
        final(out)@ == old(out)@ + render_info(p@),
{
    out.append("{\"name\":");
    render_string_into(out, p.name.as_str());
    out.append(",\"version\":");
    render_string_into(out, p.version.as_str());
    out.append(",\"reference\":");
    render_string_into(out, p.reference.as_str());
    out.append(",\"installed_at\":");
    render_string_into(out, p.installed_at.as_str());
    out.append(",\"lock\":");
    render_opt_string_into(out, &p.lock);
    push_char(out, '}');
    proof {
        assert(out@ =~= old(out)@ + render_info(p@));
    }
}

/// Appends the rendered event array to `out`.
fn render_infos_into(out: &mut String, es: &Vec<PackageInfo>)
    ensures
        final(out)@ == old(out)@ + render_infos(events_view(es@)),
{
    let ghost sv = events_view(es@);
    push_char(out, '[');
    let n = es.len();
    let mut i: usize = 0;
    while i < n
        invariant
            n == es@.len(),
            sv == events_view(es@),
            sv.len() == n,
            i <= n,
            i == 0 ==> out@ == old(out)@ + seq!['['],
            i >= 1 ==> out@ == old(out)@ + seq!['['] + render_info_items(sv.take(i as int)),
        decreases n - i,
    {
        if i > 0 {
            push_char(out, ',');
        }
        render_info_into(out, &es[i]);
        proof {
            assert(es@[i as int]@ == sv[i as int]);
            if i == 0 {
                assert(sv.take(1) =~= seq![sv[0]]);
                assert(render_info_items(seq![sv[0]]) == render_info(sv[0]));
                assert(out@ =~= old(out)@ + seq!['['] + render_info_items(sv.take(1)));
            } else {
                assert(sv.take(i as int + 1) =~= sv.take(i as int).push(sv[i as int]));
                lemma_render_info_items_push(sv.take(i as int), sv[i as int]);
                assert(out@ =~= old(out)@ + seq!['['] + render_info_items(sv.take(i as int + 1)));
            }
        }
        i = i + 1;
    }
    push_char(out, ']');
    proof {
        if n == 0 {
            assert(out@ =~= old(out)@ + render_infos(sv));
        } else {
            assert(sv.take(n as int) =~= sv);
            assert(out@ =~= old(out)@ + render_infos(sv));
        }
    }
}

/// Appends the rendered history object to `out`.
fn render_hist_into(out: &mut String, h: &Vec<HistoryEntry>)
    ensures
        final(out)@ == old(out)@ + render_hist(hist_view(h@)),
{
    let ghost sv = hist_view(h@);
    push_char(out, '{');
    let n = h.len();
    let mut i: usize = 0;
    while i < n
        invariant
            n == h@.len(),
            sv == hist_view(h@),
            sv.len() == n,
            i <= n,
            i == 0 ==> out@ == old(out)@ + seq!['{'],
            i >= 1 ==> out@ == old(out)@ + seq!['{'] + render_hist_items(sv.take(i as int)),
        decreases n - i,
    {
        if i > 0 {
            push_char(out, ',');
        }
        render_string_into(out, h[i].name.as_str());
        push_char(out, ':');
        render_infos_into(out, &h[i].events);
        proof {
            assert(sv[i as int] == (h@[i as int].name@, events_view(h@[i as int].events@)));
            assert(render_hist_item(sv[i as int]) == render_string(h@[i as int].name@)
                + seq![':'] + render_infos(events_view(h@[i as int].events@)));
            if i == 0 {
                assert(sv.take(1) =~= seq![sv[0]]);
                assert(render_hist_items(seq![sv[0]]) == render_hist_item(sv[0]));
                assert(out@ =~= old(out)@ + seq!['{'] + render_hist_items(sv.take(1)));
            } else {
                assert(sv.take(i as int + 1) =~= sv.take(i as int).push(sv[i as int]));
                lemma_render_hist_items_push(sv.take(i as int), sv[i as int]);
                assert(out@ =~= old(out)@ + seq!['{'] + render_hist_items(sv.take(i as int + 1)));
            }
        }
        i = i + 1;
    }
    push_char(out, '}');
    proof {
        if n == 0 {
            assert(out@ =~= old(out)@ + render_hist(sv));
        } else {
            assert(sv.take(n as int) =~= sv);
            assert(out@ =~= old(out)@ + render_hist(sv));
        }
    }
}

/// Appends the rendered pin object to `out`.
fn render_pins_into(out: &mut String, ps: &Vec<VersionPin>)
    ensures
        final(out)@ == old(out)@ + render_pins(pins_view(ps@)),
{
    let ghost sv = pins_view(ps@);
    push_char(out, '{');
    let n = ps.len();
    let mut i: usize = 0;
    while i < n
        invariant
            n == ps@.len(),
            sv == pins_view(ps@),
            sv.len() == n,
            i <= n,
            i == 0 ==> out@ == old(out)@ + seq!['{'],
            i >= 1 ==> out@ == old(out)@ + seq!['{'] + render_pin_items(sv.take(i as int)),
        decreases n - i,
    {
        if i > 0 {
            push_char(out, ',');
        }
        render_string_into(out, ps[i].version.as_str());
        push_char(out, ':');
        render_string_into(out, ps[i].reference.as_str());
        proof {
            assert(sv[i as int] == (ps@[i as int].version@, ps@[i as int].reference@));
            if i == 0 {
                assert(sv.take(1) =~= seq![sv[0]]);
                assert(render_pin_items(seq![sv[0]]) == render_pin_item(sv[0]));
                assert(out@ =~= old(out)@ + seq!['{'] + render_pin_items(sv.take(1)));
            } else {
                assert(sv.take(i as int + 1) =~= sv.take(i as int).push(sv[i as int]));
                lemma_render_pin_items_push(sv.take(i as int), sv[i as int]);
                assert(out@ =~= old(out)@ + seq!['{'] + render_pin_items(sv.take(i as int + 1)));
            }
        }
        i = i + 1;
    }
    push_char(out, '}');
    proof {
        if n == 0 {
            assert(out@ =~= old(out)@ + render_pins(sv));
        } else {
            assert(sv.take(n as int) =~= sv);
            assert(out@ =~= old(out)@ + render_pins(sv));
        }
    }
}

/// Appends the rendered cache object to `out`.
fn render_cache_into(out: &mut String, c: &Vec<CacheEntry>)
    ensures
        final(out)@ == old(out)@ + render_cache(cache_view(c@)),
{
    let ghost sv = cache_view(c@);
    push_char(out, '{');
    let n = c.len();
    let mut i: usize = 0;
    while i < n
        invariant
            n == c@.len(),
            sv == cache_view(c@),
            sv.len() == n,
            i <= n,
            i == 0 ==> out@ == old(out)@ + seq!['{'],
            i >= 1 ==> out@ == old(out)@ + seq!['{'] + render_cache_items(sv.take(i as int)),
        decreases n - i,
    {
        if i > 0 {
            push_char(out, ',');
        }
        render_string_into(out, c[i].name.as_str());
        push_char(out, ':');
        render_pins_into(out, &c[i].pins);
        proof {
            assert(sv[i as int] == (c@[i as int].name@, pins_view(c@[i as int].pins@)));
            if i == 0 {
                assert(sv.take(1) =~= seq![sv[0]]);
                assert(render_cache_items(seq![sv[0]]) == render_cache_item(sv[0]));
                assert(out@ =~= old(out)@ + seq!['{'] + render_cache_items(sv.take(1)));
            } else {
                assert(sv.take(i as int + 1) =~= sv.take(i as int).push(sv[i as int]));
                lemma_render_cache_items_push(sv.take(i as int), sv[i as int]);
                assert(out@ =~= old(out)@ + seq!['{'] + render_cache_items(sv.take(i as int + 1)));
            }
        }
        i = i + 1;
    }
    push_char(out, '}');
    proof {
        if n == 0 {
            assert(out@ =~= old(out)@ + render_cache(sv));
        } else {
            assert(sv.take(n as int) =~= sv);
            assert(out@ =~= old(out)@ + render_cache(sv));
        }
    }
}

/// Executable form of `p_info`.
fn e_info(v: &Vec<char>, i: usize) -> (r: Option<(PackageInfo, usize)>)
    ensures
        match r {
            Some((p, n)) => p_info(v@, i as int) == Some((p@, n as int)) && i + n <= v@.len(),
            None => p_info(v@, i as int) is None,
        },
{
    let vn = v.len();
    proof {
        assert(v@.len() == vn);
    }
    let l1 = "{\"name\":";
    if !e_lit(v, i, l1) {
        return None;
    }
    let i1 = i + l1.unicode_len();
    match e_string(v, i1) {
        None => None,
        Some((name, n1)) => {
            let i2 = i1 + n1;
            let l2 = ",\"version\":";
            if !e_lit(v, i2, l2) {
                return None;
            }
            let i2b = i2 + l2.unicode_len();
            match e_string(v, i2b) {
                None => None,
                Some((version, n2)) => {
                    let i3 = i2b + n2;
                    let l3 = ",\"reference\":";
                    if !e_lit(v, i3, l3) {
                        return None;
                    }
                    let i3b = i3 + l3.unicode_len();
                    match e_string(v, i3b) {
                        None => None,
                        Some((reference, n3)) => {
                            let i4 = i3b + n3;
                            let l4 = ",\"installed_at\":";
                            if !e_lit(v, i4, l4) {
                                return None;
                            }
                            let i4b = i4 + l4.unicode_len();
                            match e_string(v, i4b) {
                                None => None,
                                Some((installed_at, n4)) => {
                                    let i5 = i4b + n4;
                                    let l5 = ",\"lock\":";
                                    if !e_lit(v, i5, l5) {
                                        return None;
                                    }
                                    let i5b = i5 + l5.unicode_len();
                                    match e_opt_string(v, i5b) {
                                        None => None,
                                        Some((lock, n5)) => {
                                            let i6 = i5b + n5;
                                            proof {
                                                reveal_strlit("}");
                                                assert("}"@ =~= seq!['}']);
                                            }
                                            if !e_lit(v, i6, "}") {
                                                return None;
                                            }
                                            let p = PackageInfo {
                                                name,
                                                version,
                                                reference,
                                                installed_at,
                                                lock,
                                            };
                                            Some((p, i6 + 1 - i))
                                        },
                                    }
                                },
                            }
                        },
                    }
                },
            }
        },
    }
}

/// Executable form of `p_info_items`.
fn e_info_items(v: &Vec<char>, i: usize) -> (r: Option<(Vec<PackageInfo>, usize)>)
    ensures
        match r {
            Some((es, n)) => p_info_items(v@, i as int) == Some((events_view(es@), n as int)) && i
                + n <= v@.len(),
            None => p_info_items(v@, i as int) is None,
        },
    decreases v@.len() - i,
{
    let vn = v.len();
    proof {
        assert(v@.len() == vn);
    }
    match e_info(v, i) {
        None => None,
        Some((p, n)) => {
            if n < 1 || i + n >= v.len() {
                return None;
            }
            let c = v[i + n];
            if c == ']' {
                let mut out: Vec<PackageInfo> = Vec::new();
                out.push(p);
                proof {
                    assert(events_view(out@) =~= seq![p@]);
                }
                Some((out, n + 1))
            } else if c == ',' {
                match e_info_items(v, i + n + 1) {
                    None => None,
                    Some((mut rest, m)) => {
                        let ghost rv = events_view(rest@);
                        rest.insert(0, p);
                        proof {
                            assert(events_view(rest@) =~= seq![p@] + rv);
                        }
                        Some((rest, n + 1 + m))
                    },
                }
            } else {
                None
            }
        },
    }
}

/// Executable form of `p_infos`.
fn e_infos(v: &Vec<char>, i: usize) -> (r: Option<(Vec<PackageInfo>, usize)>)
    ensures
        match r {
            Some((es, n)) => p_infos(v@, i as int) == Some((events_view(es@), n as int)) && i + n
                <= v@.len(),
            None => p_infos(v@, i as int) is None,
        },
{
    if !(i < v.len() && v[i] == '[') {
        return None;
    }
    if i + 1 < v.len() && v[i + 1] == ']' {
        let out: Vec<PackageInfo> = Vec::new();
        proof {
            assert(events_view(out@) =~= Seq::<PackageInfoV>::empty());
        }
        return Some((out, 2));
    }
    match e_info_items(v, i + 1) {
        None => None,
        Some((es, n)) => Some((es, n + 1)),
    }
}

/// Executable form of `p_hist_items`.
fn e_hist_items(v: &Vec<char>, i: usize) -> (r: Option<(Vec<HistoryEntry>, usize)>)
    ensures
        match r {
            Some((h, n)) => p_hist_items(v@, i as int) == Some((hist_view(h@), n as int)) && i + n
                <= v@.len(),
            None => p_hist_items(v@, i as int) is None,
        },
    decreases v@.len() - i,
{
    let vn = v.len();
    proof {
        assert(v@.len() == vn);
    }
    match e_string(v, i) {
        None => None,
        Some((name, n1)) => {
            if n1 < 1 || i + n1 >= v.len() {
                return None;
            }
            if v[i + n1] != ':' {
                return None;
            }
            match e_infos(v, i + n1 + 1) {
                None => None,
                Some((events, n2)) => {
                    let k = n1 + 1 + n2;
                    if n2 < 1 || i + k >= v.len() {
                        return None;
                    }
                    let c = v[i + k];
                    if c == '}' {
                        let entry = HistoryEntry { name, events };
                        let mut out: Vec<HistoryEntry> = Vec::new();
                        out.push(entry);
                        proof {
                            assert(hist_view(out@) =~= seq![
                                (out@[0].name@, events_view(out@[0].events@)),
                            ]);
                        }
                        Some((out, k + 1))
                    } else if c == ',' {
                        match e_hist_items(v, i + k + 1) {
                            None => None,
                            Some((mut rest, m)) => {
                                let ghost rv = hist_view(rest@);
                                let entry = HistoryEntry { name, events };
                                rest.insert(0, entry);
                                proof {
                                    assert(hist_view(rest@) =~= seq![
                                        (rest@[0].name@, events_view(rest@[0].events@)),
                                    ] + rv);
                                }
                                Some((rest, k + 1 + m))
                            },
                        }
                    } else {
                        None
                    }
                },
            }
        },
    }
}

/// Executable form of `p_hist`.
fn e_hist(v: &Vec<char>, i: usize) -> (r: Option<(Vec<HistoryEntry>, usize)>)
    ensures
        match r {
            Some((h, n)) => p_hist(v@, i as int) == Some((hist_view(h@), n as int)) && i + n
                <= v@.len(),
            None => p_hist(v@, i as int) is None,
        },
{
    if !(i < v.len() && v[i] == '{') {
        return None;
    }
    if i + 1 < v.len() && v[i + 1] == '}' {
        let out: Vec<HistoryEntry> = Vec::new();
        proof {
            assert(hist_view(out@) =~= Seq::<(Seq<char>, Seq<PackageInfoV>)>::empty());
        }
        return Some((out, 2));
    }
    match e_hist_items(v, i + 1) {
        None => None,
        Some((h, n)) => Some((h, n + 1)),
    }
}

/// Executable form of `p_pin_items`.
fn e_pin_items(v: &Vec<char>, i: usize) -> (r: Option<(Vec<VersionPin>, usize)>)
    ensures
        match r {
            Some((ps, n)) => p_pin_items(v@, i as int) == Some((pins_view(ps@), n as int)) && i + n
                <= v@.len(),
            None => p_pin_items(v@, i as int) is None,
        },
    decreases v@.len() - i,
{
    let vn = v.len();
    proof {
        assert(v@.len() == vn);
    }
    match e_string(v, i) {
        None => None,
        Some((version, n1)) => {
            if n1 < 1 || i + n1 >= v.len() {
                return None;
            }
            if v[i + n1] != ':' {
                return None;
            }
            match e_string(v, i + n1 + 1) {
                None => None,
                Some((reference, n2)) => {
                    let k = n1 + 1 + n2;
                    if n2 < 1 || i + k >= v.len() {
                        return None;
                    }
                    let c = v[i + k];
                    if c == '}' {
                        let pin = VersionPin { version, reference };
                        let mut out: Vec<VersionPin> = Vec::new();
                        out.push(pin);
                        proof {
                            assert(pins_view(out@) =~= seq![
                                (out@[0].version@, out@[0].reference@),
                            ]);
                        }
                        Some((out, k + 1))
                    } else if c == ',' {
                        match e_pin_items(v, i + k + 1) {
                            None => None,
                            Some((mut rest, m)) => {
                                let ghost rv = pins_view(rest@);
                                let pin = VersionPin { version, reference };
                                rest.insert(0, pin);
                                proof {
                                    assert(pins_view(rest@) =~= seq![
                                        (rest@[0].version@, rest@[0].reference@),
                                    ] + rv);
                                }
                                Some((rest, k + 1 + m))
                            },
                        }
                    } else {
                        None
                    }
                },
            }
        },
    }
}

/// Executable form of `p_pins`.
fn e_pins(v: &Vec<char>, i: usize) -> (r: Option<(Vec<VersionPin>, usize)>)
    ensures
        match r {
            Some((ps, n)) => p_pins(v@, i as int) == Some((pins_view(ps@), n as int)) && i + n
                <= v@.len(),
            None => p_pins(v@, i as int) is None,
        },
{
    if !(i < v.len() && v[i] == '{') {
        return None;
    }
    if i + 1 < v.len() && v[i + 1] == '}' {
        let out: Vec<VersionPin> = Vec::new();
        proof {
            assert(pins_view(out@) =~= Seq::<(Seq<char>, Seq<char>)>::empty());
        }
        return Some((out, 2));
    }
    match e_pin_items(v, i + 1) {
        None => None,
        Some((ps, n)) => Some((ps, n + 1)),
    }
}

/// Executable form of `p_cache_items`.
fn e_cache_items(v: &Vec<char>, i: usize) -> (r: Option<(Vec<CacheEntry>, usize)>)
    ensures
        match r {
            Some((c, n)) => p_cache_items(v@, i as int) == Some((cache_view(c@), n as int)) && i
                + n <= v@.len(),
            None => p_cache_items(v@, i as int) is None,
        },
    decreases v@.len() - i,
{
    let vn = v.len();
    proof {
        assert(v@.len() == vn);
    }
    match e_string(v, i) {
        None => None,
        Some((name, n1)) => {
            if n1 < 1 || i + n1 >= v.len() {
                return None;
            }
            if v[i + n1] != ':' {
                return None;
            }
            match e_pins(v, i + n1 + 1) {
                None => None,
                Some((pins, n2)) => {
                    let k = n1 + 1 + n2;
                    if n2 < 1 || i + k >= v.len() {
                        return None;
                    }
                    let c = v[i + k];
                    if c == '}' {
                        let entry = CacheEntry { name, pins };
                        let mut out: Vec<CacheEntry> = Vec::new();
                        out.push(entry);
                        proof {
                            assert(cache_view(out@) =~= seq![
                                (out@[0].name@, pins_view(out@[0].pins@)),
                            ]);
                        }
                        Some((out, k + 1))
                    } else if c == ',' {
                        match e_cache_items(v, i + k + 1) {
                            None => None,
                            Some((mut rest, m)) => {
                                let ghost rv = cache_view(rest@);
                                let entry = CacheEntry { name, pins };
                                rest.insert(0, entry);
                                proof {
                                    assert(cache_view(rest@) =~= seq![
                                        (rest@[0].name@, pins_view(rest@[0].pins@)),
                                    ] + rv);
                                }
                                Some((rest, k + 1 + m))
                            },
                        }
                    } else {
                        None
                    }
                },
            }
        },
    }
}

/// Executable form of `p_cache`.
fn e_cache(v: &Vec<char>, i: usize) -> (r: Option<(Vec<CacheEntry>, usize)>)
    ensures
        match r {
            Some((c, n)) => p_cache(v@, i as int) == Some((cache_view(c@), n as int)) && i + n
                <= v@.len(),
            None => p_cache(v@, i as int) is None,
        },
{
    if !(i < v.len() && v[i] == '{') {
        return None;
    }
    if i + 1 < v.len() && v[i + 1] == '}' {
        let out: Vec<CacheEntry> = Vec::new();
        proof {
            assert(cache_view(out@) =~= Seq::<(Seq<char>, Seq<(Seq<char>, Seq<char>)>)>::empty());
        }
        return Some((out, 2));
    }
    match e_cache_items(v, i + 1) {
        None => None,
        Some((c, n)) => Some((c, n + 1)),
    }
}

/// Executable form of `p_registry`.
fn e_registry(v: &Vec<char>, i: usize) -> (r: Option<(PackageRegistry, usize)>)
    ensures
        match r {
            Some((reg, n)) => p_registry(v@, i as int) == Some((reg@, n as int)) && i + n
                <= v@.len(),
            None => p_registry(v@, i as int) is None,
        },
{
    let vn = v.len();
    proof {
        assert(v@.len() == vn);
    }
    let l1 = "{\"history\":";
    if !e_lit(v, i, l1) {
        return None;
    }
    let i1 = i + l1.unicode_len();
    match e_hist(v, i1) {
        None => None,
        Some((history, n1)) => {
            let i2 = i1 + n1;
            let l2 = ",\"resolved_cache\":";
            if !e_lit(v, i2, l2) {
                return None;
            }
            let i2b = i2 + l2.unicode_len();
            match e_cache(v, i2b) {
                None => None,
                Some((resolved_cache, n2)) => {
                    let i3 = i2b + n2;
                    proof {
                        reveal_strlit("}");
                        assert("}"@ =~= seq!['}']);
                    }
                    if !e_lit(v, i3, "}") {
                        return None;
                    }
                    let reg = PackageRegistry { history, resolved_cache };
                    Some((reg, i3 + 1 - i))
                },
            }
        },
    }
}

/// Parses a whole persisted registry document. `None` is a malformed file:
/// the caller must fail rather than fall back to an empty registry.
pub fn registry_from_text(t: &str) -> (r: Option<PackageRegistry>)
    ensures
        match r {
            Some(reg) => spec_parse_registry(t@) == Some(reg@),
            None => spec_parse_registry(t@) is None,
        },
{
    let v = crate::text::string_to_chars(t);
    match e_registry(&v, 0) {
        None => None,
        Some((reg, n)) => {
            if n == v.len() {
                Some(reg)
            } else {
                None
            }
        },
    }
}

/// Renders the whole registry to its persisted text.
pub fn registry_to_text(reg: &PackageRegistry) -> (t: String)
    ensures
        t@ == spec_render_registry(reg@),
{
    let mut out = String::new();
    out.append("{\"history\":");
    render_hist_into(&mut out, &reg.history);
    out.append(",\"resolved_cache\":");
    render_cache_into(&mut out, &reg.resolved_cache);
    push_char(&mut out, '}');
    proof {
        assert(out@ =~= spec_render_registry(reg@));
    }
    out
}

} // verus!
