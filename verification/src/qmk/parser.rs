//! The keycode token classifier and the raw keymap assembler.
//!
//! A raw firmware token is matched against an ordered list of patterns,
//! first match wins; a token that matches none is kept verbatim as
//! `Unrecognized`, so classification is total and never fails.

use crate::keymap::layer::resolve_layer;
use crate::keymap::layer::LayerNames;
use crate::keymap::Key;
use crate::keymap::Keymap;
use crate::keymap::KeymapView;
use crate::keymap::KeyView;
use vstd::prelude::*;

verus! {

/// An ASCII uppercase letter.
pub open spec fn is_upper(c: char) -> bool {
    'A' <= c && c <= 'Z'
}

/// An ASCII lowercase letter.
pub open spec fn is_lower(c: char) -> bool {
    'a' <= c && c <= 'z'
}

/// An ASCII digit.
pub open spec fn is_digit(c: char) -> bool {
    '0' <= c && c <= '9'
}

/// A character of a call-syntax argument: ASCII letter, digit, or underscore.
pub open spec fn is_wordish(c: char) -> bool {
    is_upper(c) || is_lower(c) || is_digit(c) || c == '_'
}

/// A character of a modifier or layer-macro name: ASCII uppercase or underscore.
pub open spec fn is_azu(c: char) -> bool {
    is_upper(c) || c == '_'
}

/// The end of the run of characters satisfying `p` that starts at `i`.
pub open spec fn scan_end(s: Seq<char>, i: int, p: spec_fn(char) -> bool) -> int
    decreases s.len() - i when 0 <= i <= s.len()
{
    if i >= s.len() {
        i
    } else if p(s[i]) {
        scan_end(s, i + 1, p)
    } else {
        i
    }
}

/// A run found by a forward scan is the run `scan_end` names.
proof fn lemma_scan_end(s: Seq<char>, from: int, i: int, p: spec_fn(char) -> bool)
    requires
        0 <= from <= i <= s.len(),
        forall|j: int| from <= j < i ==> p(s[j]),
        i == s.len() || !p(s[i]),
    ensures
        scan_end(s, from, p) == i,
    decreases i - from,
{
    if from < i {
        lemma_scan_end(s, from + 1, i, p);
    }
}

/// A non-empty sequence of wordish characters.
pub open spec fn spec_word(s: Seq<char>) -> bool {
    s.len() > 0 && forall|i: int| 0 <= i < s.len() ==> is_wordish(s[i])
}

/// The token starts with the plain-key prefix `KC_`.
pub open spec fn is_kc(s: Seq<char>) -> bool {
    s.len() >= 3 && s.take(3) == "KC_"@
}

/// The token with a leading `KC_` removed when it carries one.
pub open spec fn strip_kc(s: Seq<char>) -> Seq<char> {
    if is_kc(s) {
        s.skip(3)
    } else {
        s
    }
}

/// A multi-segment uppercase token: two uppercase letters, then one or more
/// underscore-joined segments of uppercase letters and digits.
pub open spec fn is_special(s: Seq<char>) -> bool {
    &&& s.len() >= 4
    &&& is_upper(s[0])
    &&& is_upper(s[1])
    &&& s[2] == '_'
    &&& s[s.len() - 1] != '_'
    &&& forall|i: int| 3 <= i < s.len() ==> is_upper(s[i]) || is_digit(s[i]) || s[i] == '_'
    &&& forall|i: int| 2 <= i < s.len() - 1 ==> !(#[trigger] s[i] == '_' && s[i + 1] == '_')
}

/// A single-argument Unicode-input call: `UM(<word>)`.
pub open spec fn is_um(s: Seq<char>) -> bool {
    &&& s.len() >= 5
    &&& s.take(3) == "UM("@
    &&& s[s.len() - 1] == ')'
    &&& spec_word(s.subrange(3, s.len() - 1))
}

/// The argument of a `UM(...)` call.
pub open spec fn um_arg(s: Seq<char>) -> Seq<char> {
    s.subrange(3, s.len() - 1)
}

/// A well-formed two-argument call body after a three-character opener:
/// `<word>,<spaces><word>)` running to the end of the token.
pub open spec fn call2_ok(s: Seq<char>) -> bool {
    let e = scan_end(s, 3, |c: char| is_wordish(c));
    let f = scan_end(s, e + 1, |c: char| c == ' ');
    let g = scan_end(s, f, |c: char| is_wordish(c));
    &&& s.len() >= 7
    &&& e > 3
    &&& e < s.len()
    &&& s[e] == ','
    &&& g > f
    &&& g == s.len() - 1
    &&& s[g] == ')'
}

/// The first argument of a two-argument call.
pub open spec fn call2_arg1(s: Seq<char>) -> Seq<char> {
    s.subrange(3, scan_end(s, 3, |c: char| is_wordish(c)))
}

/// The second argument of a two-argument call.
pub open spec fn call2_arg2(s: Seq<char>) -> Seq<char> {
    let e = scan_end(s, 3, |c: char| is_wordish(c));
    let f = scan_end(s, e + 1, |c: char| c == ' ');
    s.subrange(f, s.len() - 1)
}

/// A cased Unicode-input call: `UP(<lower>, <upper>)`.
pub open spec fn is_up(s: Seq<char>) -> bool {
    s.len() >= 3 && s.take(3) == "UP("@ && call2_ok(s)
}

/// A layer-tap call: `LT(<layer>, <key>)`.
pub open spec fn is_lt(s: Seq<char>) -> bool {
    s.len() >= 3 && s.take(3) == "LT("@ && call2_ok(s)
}

/// A modifier-tap call: `<MOD>_T(KC_<KEY>)` with `<MOD>` of uppercase and
/// underscores and `<KEY>` of uppercase letters.
pub open spec fn is_mt(s: Seq<char>) -> bool {
    let e = scan_end(s, 0, |c: char| is_azu(c));
    let u = scan_end(s, e + 4, |c: char| is_upper(c));
    &&& s.len() >= 9
    &&& 3 <= e < s.len()
    &&& s[e] == '('
    &&& s[e - 2] == '_'
    &&& s[e - 1] == 'T'
    &&& e + 4 <= s.len()
    &&& s.subrange(e + 1, e + 4) == "KC_"@
    &&& u > e + 4
    &&& u == s.len() - 1
    &&& s[u] == ')'
}

/// The modifier of a modifier-tap call, without the trailing `_T`.
pub open spec fn mt_mod(s: Seq<char>) -> Seq<char> {
    s.subrange(0, scan_end(s, 0, |c: char| is_azu(c)) - 2)
}

/// The tapped key of a modifier-tap call, without its `KC_` prefix.
pub open spec fn mt_key(s: Seq<char>) -> Seq<char> {
    s.subrange(scan_end(s, 0, |c: char| is_azu(c)) + 4, s.len() - 1)
}

/// The length of a recognized layer-change opener (`MO(` or `PDF(`), zero
/// when the token starts with neither.
pub open spec fn lc_open_len(s: Seq<char>) -> int {
    if s.len() >= 3 && s.take(3) == "MO("@ {
        3
    } else if s.len() >= 4 && s.take(4) == "PDF("@ {
        4
    } else {
        0
    }
}

/// A layer-change call: `MO(<layer>)` or `PDF(<layer>)` with `<layer>` of
/// uppercase letters and underscores.
pub open spec fn is_lc(s: Seq<char>) -> bool {
    let p = lc_open_len(s);
    let g = scan_end(s, p, |c: char| is_azu(c));
    &&& p > 0
    &&& g > p
    &&& g == s.len() - 1
    &&& s[g] == ')'
}

/// The action keyword of a layer-change call.
pub open spec fn lc_action(s: Seq<char>) -> Seq<char> {
    s.take(lc_open_len(s) - 1)
}

/// The layer argument of a layer-change call.
pub open spec fn lc_arg(s: Seq<char>) -> Seq<char> {
    s.subrange(lc_open_len(s), s.len() - 1)
}

/// A modifier-wrapped key: `<MOD>(KC_<KEY>)`.
pub open spec fn is_mk(s: Seq<char>) -> bool {
    let e = scan_end(s, 0, |c: char| is_azu(c));
    let u = scan_end(s, e + 4, |c: char| is_upper(c));
    &&& s.len() >= 7
    &&& 1 <= e < s.len()
    &&& s[e] == '('
    &&& e + 4 <= s.len()
    &&& s.subrange(e + 1, e + 4) == "KC_"@
    &&& u > e + 4
    &&& u == s.len() - 1
    &&& s[u] == ')'
}

/// The modifier of a modifier-wrapped key.
pub open spec fn mk_mod(s: Seq<char>) -> Seq<char> {
    s.subrange(0, scan_end(s, 0, |c: char| is_azu(c)))
}

/// The wrapped key of a modifier-wrapped key, without its `KC_` prefix.
pub open spec fn mk_key(s: Seq<char>) -> Seq<char> {
    s.subrange(scan_end(s, 0, |c: char| is_azu(c)) + 4, s.len() - 1)
}

/// The classification of one raw token against the ordered pattern list;
/// first match wins, and a token that matches no pattern is kept verbatim.
pub open spec fn classify_spec(s: Seq<char>, names: Seq<Seq<char>>) -> KeyView {
    if s == "KC_TRNS"@ {
        KeyView::Transparent
    } else if s == "KC_NO"@ {
        KeyView::NoOp
    } else if is_kc(s) {
        KeyView::Basic(s.skip(3))
    } else if is_special(s) {
        KeyView::Special(s)
    } else if is_um(s) {
        KeyView::UnicodeSingle(um_arg(s))
    } else if is_up(s) {
        KeyView::UnicodeCased(call2_arg1(s), call2_arg2(s))
    } else if is_lt(s) && resolve_layer(names, call2_arg1(s)) is Some {
        KeyView::LayerTap {
            layer: resolve_layer(names, call2_arg1(s)).unwrap(),
            key: strip_kc(call2_arg2(s)),
        }
    } else if is_mt(s) {
        KeyView::ModTap { modifier: mt_mod(s), key: mt_key(s) }
    } else if is_lc(s) && resolve_layer(names, lc_arg(s)) is Some {
        KeyView::LayerChange {
            action: lc_action(s),
            layer: resolve_layer(names, lc_arg(s)).unwrap(),
        }
    } else if is_mk(s) {
        KeyView::ModKey { modifier: mk_mod(s), key: mk_key(s) }
    } else {
        KeyView::Unrecognized(s)
    }
}

/// The exec check for `is_upper`.
fn upper_c(c: char) -> (r: bool)
    ensures
        r == is_upper(c),
{
    'A' <= c && c <= 'Z'
}

/// The exec check for `is_wordish`.
fn wordish_c(c: char) -> (r: bool)
    ensures
        r == is_wordish(c),
{
    ('A' <= c && c <= 'Z') || ('a' <= c && c <= 'z') || ('0' <= c && c <= '9') || c == '_'
}

/// The exec check for `is_azu`.
fn azu_c(c: char) -> (r: bool)
    ensures
        r == is_azu(c),
{
    ('A' <= c && c <= 'Z') || c == '_'
}

/// The end of the run of wordish characters starting at `from`.
fn scan_wordish(s: &str, from: usize) -> (r: usize)
    requires
        from <= s@.len(),
    ensures
        r == scan_end(s@, from as int, |c: char| is_wordish(c)),
        from <= r <= s@.len(),
        forall|j: int| from <= j < r ==> is_wordish(#[trigger] s@[j]),
        r < s@.len() ==> !is_wordish(s@[r as int]),
{
    let len = s.unicode_len();
    let mut i: usize = from;
    while i < len && wordish_c(s.get_char(i))
        invariant
            from <= i <= len,
            len == s@.len(),
            forall|j: int| from <= j < i ==> is_wordish(s@[j]),
        decreases len - i,
    {
        i += 1;
    }
    proof {
        lemma_scan_end(s@, from as int, i as int, |c: char| is_wordish(c));
    }
    i
}

/// The end of the run of uppercase-or-underscore characters starting at `from`.
fn scan_azu(s: &str, from: usize) -> (r: usize)
    requires
        from <= s@.len(),
    ensures
        r == scan_end(s@, from as int, |c: char| is_azu(c)),
        from <= r <= s@.len(),
        forall|j: int| from <= j < r ==> is_azu(#[trigger] s@[j]),
        r < s@.len() ==> !is_azu(s@[r as int]),
{
    let len = s.unicode_len();
    let mut i: usize = from;
    while i < len && azu_c(s.get_char(i))
        invariant
            from <= i <= len,
            len == s@.len(),
            forall|j: int| from <= j < i ==> is_azu(s@[j]),
        decreases len - i,
    {
        i += 1;
    }
    proof {
        lemma_scan_end(s@, from as int, i as int, |c: char| is_azu(c));
    }
    i
}

/// The end of the run of uppercase characters starting at `from`.
fn scan_upper(s: &str, from: usize) -> (r: usize)
    requires
        from <= s@.len(),
    ensures
        r == scan_end(s@, from as int, |c: char| is_upper(c)),
        from <= r <= s@.len(),
        forall|j: int| from <= j < r ==> is_upper(#[trigger] s@[j]),
        r < s@.len() ==> !is_upper(s@[r as int]),
{
    let len = s.unicode_len();
    let mut i: usize = from;
    while i < len && upper_c(s.get_char(i))
        invariant
            from <= i <= len,
            len == s@.len(),
            forall|j: int| from <= j < i ==> is_upper(s@[j]),
        decreases len - i,
    {
        i += 1;
    }
    proof {
        lemma_scan_end(s@, from as int, i as int, |c: char| is_upper(c));
    }
    i
}

/// The end of the run of spaces starting at `from`.
fn scan_space(s: &str, from: usize) -> (r: usize)
    requires
        from <= s@.len(),
    ensures
        r == scan_end(s@, from as int, |c: char| c == ' '),
        from <= r <= s@.len(),
{
    let len = s.unicode_len();
    let mut i: usize = from;
    while i < len && s.get_char(i) == ' '
        invariant
            from <= i <= len,
            len == s@.len(),
            forall|j: int| from <= j < i ==> s@[j] == ' ',
        decreases len - i,
    {
        i += 1;
    }
    proof {
        lemma_scan_end(s@, from as int, i as int, |c: char| c == ' ');
    }
    i
}

/// True when the token starts with the given prefix.
fn starts_with_lit(s: &str, p: &str) -> (r: bool)
    ensures
        r == (s@.len() >= p@.len() && s@.take(p@.len() as int) == p@),
{
    let p_len = p.unicode_len();
    let s_len = s.unicode_len();
    if s_len < p_len {
        return false;
    }
    let mut i: usize = 0;
    while i < p_len
        invariant
            i <= p_len,
            p_len == p@.len(),
            s_len == s@.len(),
            p_len <= s_len,
            forall|j: int| 0 <= j < i ==> s@[j] == p@[j],
        decreases p_len - i,
    {
        if s.get_char(i) != p.get_char(i) {
            assert(s@.take(p@.len() as int)[i as int] != p@[i as int]);
            return false;
        }
        i += 1;
    }
    assert(s@.take(p@.len() as int) =~= p@);
    true
}

/// A plain key: the token with a `KC_` prefix, prefix stripped.
fn parse_kc(key_str: &str) -> (r: Option<Key>)
    ensures
        match r {
            Some(k) => is_kc(key_str@) && k@ == KeyView::Basic(key_str@.skip(3)),
            None => !is_kc(key_str@),
        },
{
    proof {
        reveal_strlit("KC_");
    }
    if starts_with_lit(key_str, "KC_") {
        let len = key_str.unicode_len();
        let rest = key_str.substring_char(3, len);
        assert(rest@ =~= key_str@.skip(3));
        Some(Key::Basic(rest.to_owned()))
    } else {
        None
    }
}

/// A multi-segment uppercase token, kept verbatim.
fn parse_special(key_str: &str) -> (r: Option<Key>)
    ensures
        match r {
            Some(k) => is_special(key_str@) && k@ == KeyView::Special(key_str@),
            None => !is_special(key_str@),
        },
{
    let len = key_str.unicode_len();
    if len < 4 {
        return None;
    }
    if !upper_c(key_str.get_char(0)) || !upper_c(key_str.get_char(1)) {
        return None;
    }
    if key_str.get_char(2) != '_' {
        return None;
    }
    if key_str.get_char(len - 1) == '_' {
        return None;
    }
    let mut i: usize = 3;
    while i < len
        invariant
            3 <= i <= len,
            len == key_str@.len(),
            forall|j: int|
                3 <= j < i ==> is_upper(key_str@[j]) || is_digit(key_str@[j]) || key_str@[j]
                    == '_',
        decreases len - i,
    {
        let c = key_str.get_char(i);
        if !wordish_c(c) || ('a' <= c && c <= 'z') {
            return None;
        }
        i += 1;
    }
    let mut i: usize = 2;
    while i < len - 1
        invariant
            2 <= i,
            i <= len,
            4 <= len,
            len == key_str@.len(),
            forall|j: int| 2 <= j < i ==> !(#[trigger] key_str@[j] == '_' && key_str@[j + 1] == '_'),
        decreases len - i,
    {
        if key_str.get_char(i) == '_' && key_str.get_char(i + 1) == '_' {
            return None;
        }
        i += 1;
    }
    Some(Key::Special(key_str.to_owned()))
}

/// The token with a leading `KC_` removed when it carries one.
fn strip_kc_exec(s: &str) -> (r: String)
    ensures
        r@ == strip_kc(s@),
{
    proof {
        reveal_strlit("KC_");
    }
    if starts_with_lit(s, "KC_") {
        let len = s.unicode_len();
        let rest = s.substring_char(3, len);
        assert(rest@ =~= s@.skip(3));
        rest.to_owned()
    } else {
        s.to_owned()
    }
}

/// The two arguments of a two-argument call body, when it is well formed.
fn parse_call2(s: &str) -> (r: Option<(String, String)>)
    requires
        s@.len() >= 3,
    ensures
        match r {
            Some(p) => call2_ok(s@) && p.0@ == call2_arg1(s@) && p.1@ == call2_arg2(s@),
            None => !call2_ok(s@),
        },
{
    let len = s.unicode_len();
    let e = scan_wordish(s, 3);
    if e <= 3 || e >= len {
        return None;
    }
    if s.get_char(e) != ',' {
        return None;
    }
    let f = scan_space(s, e + 1);
    let g = scan_wordish(s, f);
    if g == f || g != len - 1 {
        return None;
    }
    if s.get_char(g) != ')' {
        return None;
    }
    let a = s.substring_char(3, e).to_owned();
    let b = s.substring_char(f, g).to_owned();
    Some((a, b))
}

/// A Unicode-input key: the single-codepoint form, or the cased two-codepoint
/// form, in that order.
fn parse_unicode(key_str: &str) -> (r: Option<Key>)
    ensures
        match r {
            Some(k) => (is_um(key_str@) && k@ == KeyView::UnicodeSingle(um_arg(key_str@))) || (
            !is_um(key_str@) && is_up(key_str@) && k@ == KeyView::UnicodeCased(
                call2_arg1(key_str@),
                call2_arg2(key_str@),
            )),
            None => !is_um(key_str@) && !is_up(key_str@),
        },
{
    proof {
        reveal_strlit("UM(");
        reveal_strlit("UP(");
    }
    let ghost sv = key_str@;
    if starts_with_lit(key_str, "UM(") {
        assert(sv.take(3) != "UP("@) by {
            assert("UM("@[1] != "UP("@[1]);
        }
        let len = key_str.unicode_len();
        let e = scan_wordish(key_str, 3);
        if len >= 5 && e == len - 1 && key_str.get_char(len - 1) == ')' {
            assert(is_um(sv)) by {
                assert forall|j: int| 0 <= j < sv.subrange(3, sv.len() - 1).len() implies is_wordish(
                    #[trigger] sv.subrange(3, sv.len() - 1)[j],
                ) by {
                    assert(sv.subrange(3, sv.len() - 1)[j] == sv[j + 3]);
                }
            }
            let arg = key_str.substring_char(3, len - 1).to_owned();
            assert(arg@ == um_arg(sv));
            Some(Key::UnicodeSingle(arg))
        } else {
            proof {
                if is_um(sv) {
                    assert forall|j: int| 3 <= j < sv.len() - 1 implies is_wordish(
                        #[trigger] sv[j],
                    ) by {
                        assert(sv.subrange(3, sv.len() - 1)[j - 3] == sv[j]);
                    }
                    lemma_scan_end(sv, 3, sv.len() - 1, |c: char| is_wordish(c));
                }
            }
            None
        }
    } else if starts_with_lit(key_str, "UP(") {
        assert(!is_um(sv)) by {
            assert("UM("@[1] != "UP("@[1]);
        }
        match parse_call2(key_str) {
            Some((lower, upper)) => Some(Key::UnicodeCased(lower, upper)),
            None => None,
        }
    } else {
        None
    }
}

/// A layer-tap key: `LT(<layer>, <key>)` with a layer argument that resolves
/// against the roster; the tapped key keeps its name with any `KC_` prefix
/// stripped.
fn parse_layertap(key_str: &str, layer_names: &LayerNames) -> (r: Option<Key>)
    ensures
        match r {
            Some(k) => is_lt(key_str@) && resolve_layer(layer_names@, call2_arg1(key_str@))
                is Some && k@ == KeyView::LayerTap {
                layer: resolve_layer(layer_names@, call2_arg1(key_str@)).unwrap(),
                key: strip_kc(call2_arg2(key_str@)),
            },
            None => !is_lt(key_str@) || resolve_layer(
                layer_names@,
                call2_arg1(key_str@),
            ) is None,
        },
{
    proof {
        reveal_strlit("LT(");
    }
    if !starts_with_lit(key_str, "LT(") {
        return None;
    }
    match parse_call2(key_str) {
        None => None,
        Some((arg1, arg2)) => match layer_names.pretty_name(arg1.as_str()) {
            None => None,
            Some(layer) => Some(
                Key::LayerTap { layer, key: strip_kc_exec(arg2.as_str()) },
            ),
        },
    }
}

/// True when the three characters at `p` are exactly `KC_`.
fn match_kc_at(s: &str, p: usize) -> (r: bool)
    requires
        p + 3 <= s@.len(),
    ensures
        r == (s@.subrange(p as int, p as int + 3) == "KC_"@),
{
    proof {
        reveal_strlit("KC_");
    }
    let len = s.unicode_len();
    assert(p + 3 <= len);
    let r = s.get_char(p) == 'K' && s.get_char(p + 1) == 'C' && s.get_char(p + 2) == '_';
    proof {
        if r {
            assert(s@.subrange(p as int, p as int + 3) =~= "KC_"@);
        } else {
            assert(s@.subrange(p as int, p as int + 3)[0] == s@[p as int]);
            assert(s@.subrange(p as int, p as int + 3)[1] == s@[p as int + 1]);
            assert(s@.subrange(p as int, p as int + 3)[2] == s@[p as int + 2]);
        }
    }
    r
}

/// A modifier-tap key: `<MOD>_T(KC_<KEY>)`.
fn parse_modtap(key_str: &str) -> (r: Option<Key>)
    ensures
        match r {
            Some(k) => is_mt(key_str@) && k@ == KeyView::ModTap {
                modifier: mt_mod(key_str@),
                key: mt_key(key_str@),
            },
            None => !is_mt(key_str@),
        },
{
    let len = key_str.unicode_len();
    let e = scan_azu(key_str, 0);
    if e < 3 || e >= len {
        return None;
    }
    if key_str.get_char(e) != '(' {
        return None;
    }
    if key_str.get_char(e - 2) != '_' || key_str.get_char(e - 1) != 'T' {
        return None;
    }
    if len - e < 4 {
        return None;
    }
    if !match_kc_at(key_str, e + 1) {
        return None;
    }
    let u = scan_upper(key_str, e + 4);
    if u == e + 4 || u != len - 1 {
        return None;
    }
    if key_str.get_char(u) != ')' {
        return None;
    }
    let modifier = key_str.substring_char(0, e - 2).to_owned();
    let key = key_str.substring_char(e + 4, len - 1).to_owned();
    Some(Key::ModTap { modifier, key })
}

/// A layer-change key: `MO(<layer>)` or `PDF(<layer>)` with a layer argument
/// that resolves against the roster.
fn parse_layer_change(key_str: &str, layer_names: &LayerNames) -> (r: Option<Key>)
    ensures
        match r {
            Some(k) => is_lc(key_str@) && resolve_layer(layer_names@, lc_arg(key_str@))
                is Some && k@ == KeyView::LayerChange {
                action: lc_action(key_str@),
                layer: resolve_layer(layer_names@, lc_arg(key_str@)).unwrap(),
            },
            None => !is_lc(key_str@) || resolve_layer(layer_names@, lc_arg(key_str@)) is None,
        },
{
    proof {
        reveal_strlit("MO(");
        reveal_strlit("PDF(");
        reveal_strlit("MO");
        reveal_strlit("PDF");
    }
    let ghost sv = key_str@;
    let p: usize;
    let action: &'static str;
    if starts_with_lit(key_str, "MO(") {
        p = 3;
        action = "MO";
        assert(lc_open_len(sv) == 3);
        assert(sv.take(2) =~= "MO"@);
    } else if starts_with_lit(key_str, "PDF(") {
        p = 4;
        action = "PDF";
        assert(sv.take(3) != "MO("@) by {
            assert(sv.take(3)[1] == sv.take(4)[1]);
            assert("PDF("@[1] != "MO("@[1]);
        }
        assert(lc_open_len(sv) == 4);
        assert(sv.take(3) =~= "PDF"@);
    } else {
        assert(lc_open_len(sv) == 0);
        return None;
    }
    let len = key_str.unicode_len();
    let g = scan_azu(key_str, p);
    if g == p || g != len - 1 {
        return None;
    }
    if key_str.get_char(g) != ')' {
        return None;
    }
    let arg = key_str.substring_char(p, len - 1);
    assert(arg@ == lc_arg(sv));
    match layer_names.pretty_name(arg) {
        None => None,
        Some(layer) => Some(
            Key::LayerChange { action: action.to_owned(), layer },
        ),
    }
}

/// A modifier-wrapped key: `<MOD>(KC_<KEY>)`. Matched last: the pattern is
/// the most permissive of the call forms.
fn parse_modkey(key_str: &str) -> (r: Option<Key>)
    ensures
        match r {
            Some(k) => is_mk(key_str@) && k@ == KeyView::ModKey {
                modifier: mk_mod(key_str@),
                key: mk_key(key_str@),
            },
            None => !is_mk(key_str@),
        },
{
    let len = key_str.unicode_len();
    let e = scan_azu(key_str, 0);
    if e < 1 || e >= len {
        return None;
    }
    if key_str.get_char(e) != '(' {
        return None;
    }
    if len - e < 4 {
        return None;
    }
    if !match_kc_at(key_str, e + 1) {
        return None;
    }
    let u = scan_upper(key_str, e + 4);
    if u == e + 4 || u != len - 1 {
        return None;
    }
    if key_str.get_char(u) != ')' {
        return None;
    }
    let modifier = key_str.substring_char(0, e).to_owned();
    let key = key_str.substring_char(e + 4, len - 1).to_owned();
    Some(Key::ModKey { modifier, key })
}

/// The classification of one raw token: the ordered pattern list of
/// `classify_spec`, first match wins. Total — every token yields a key,
/// an unmatched one verbatim as `Unrecognized`.
pub fn from_str(key_str: &str, layer_names: &LayerNames) -> (r: Option<Key>)
    ensures
        match r {
            Some(k) => k@ == classify_spec(key_str@, layer_names@),
            None => false,
        },
{
    if crate::str_eq(key_str, "KC_TRNS") {
        return Some(Key::Transparent);
    }
    if crate::str_eq(key_str, "KC_NO") {
        return Some(Key::NoOp);
    }
    if let Some(key) = parse_kc(key_str) {
        return Some(key);
    }
    if let Some(key) = parse_special(key_str) {
        return Some(key);
    }
    if let Some(key) = parse_unicode(key_str) {
        return Some(key);
    }
    if let Some(key) = parse_layertap(key_str, layer_names) {
        return Some(key);
    }
    if let Some(key) = parse_modtap(key_str) {
        return Some(key);
    }
    if let Some(key) = parse_layer_change(key_str, layer_names) {
        return Some(key);
    }
    // Kept last: the modifier-wrap pattern is prone to false positives.
    if let Some(key) = parse_modkey(key_str) {
        return Some(key);
    }
    Some(Key::Unrecognized(key_str.to_owned()))
}

/// The tokens of one layer that classify as `Unrecognized`, in positional
/// order.
pub open spec fn layer_unrecognized(layer: Seq<Seq<char>>, names: Seq<Seq<char>>) -> Seq<
    Seq<char>,
>
    decreases layer.len(),
{
    if layer.len() == 0 {
        Seq::empty()
    } else {
        layer_unrecognized(layer.drop_last(), names) + (if classify_spec(layer.last(), names)
            is Unrecognized {
            seq![layer.last()]
        } else {
            Seq::empty()
        })
    }
}

/// The tokens of a token grid that classify as `Unrecognized`, layer by
/// layer in positional order.
pub open spec fn spec_unrecognized(layers: Seq<Seq<Seq<char>>>, names: Seq<Seq<char>>) -> Seq<
    Seq<char>,
>
    decreases layers.len(),
{
    if layers.len() == 0 {
        Seq::empty()
    } else {
        spec_unrecognized(layers.drop_last(), names) + layer_unrecognized(layers.last(), names)
    }
}

/// A keymap document as the loader hands it over: identifiers and the raw
/// token grid, one ordered token sequence per layer.
pub struct RawKeymap {
    pub keymap: String,
    pub keyboard: String,
    pub layout: String,
    pub layers: Vec<Vec<String>>,
}

/// The mathematical model of a raw keymap document.
pub ghost struct RawKeymapView {
    pub keymap: Seq<char>,
    pub keyboard: Seq<char>,
    pub layout: Seq<char>,
    pub layers: Seq<Seq<Seq<char>>>,
}

impl View for RawKeymap {
    type V = RawKeymapView;

    open spec fn view(&self) -> RawKeymapView {
        RawKeymapView {
            keymap: self.keymap@,
            keyboard: self.keyboard@,
            layout: self.layout@,
            layers: self.layers.deep_view(),
        }
    }
}

/// Every token of every layer classified, layer by layer.
pub open spec fn classify_layers(layers: Seq<Seq<Seq<char>>>, names: Seq<Seq<char>>) -> Seq<
    Seq<KeyView>,
> {
    layers.map_values(
        |layer: Seq<Seq<char>>| layer.map_values(|t: Seq<char>| classify_spec(t, names)),
    )
}

impl RawKeymap {
    /// The assembled keymap: every raw token classified against the roster.
    /// Token classification is total, so assembly never fails.
    pub fn to_keymap(self, num_rows: usize, layer_names: &LayerNames) -> (r: Result<
        Keymap,
        &'static str,
    >)
        ensures
            match r {
                Ok(m) => m@ == (KeymapView {
                    keymap: self@.keymap,
                    keyboard: self@.keyboard,
                    layout: self@.layout,
                    num_rows: num_rows as int,
                    layers: classify_layers(self@.layers, layer_names@),
                }),
                Err(_) => false,
            },
    {
        let ghost names = layer_names@;
        let ghost raw_layers = self@.layers;
        let mut layers: Vec<Vec<Key>> = Vec::new();
        let mut i: usize = 0;
        while i < self.layers.len()
            invariant
                i <= self.layers.len(),
                raw_layers == self.layers.deep_view(),
                names == layer_names@,
                layers.len() == i,
                forall|j: int|
                    0 <= j < i ==> (#[trigger] layers@[j]).deep_view() == classify_layers(
                        raw_layers,
                        names,
                    )[j],
            decreases self.layers.len() - i,
        {
            let layer: &Vec<String> = &self.layers[i];
            let ghost raw_layer = raw_layers[i as int];
            assert(layer.deep_view() == raw_layer);
            let mut keys: Vec<Key> = Vec::new();
            let mut k: usize = 0;
            while k < layer.len()
                invariant
                    k <= layer.len(),
                    layer.deep_view() == raw_layer,
                    raw_layer.len() == layer.len(),
                    names == layer_names@,
                    keys.len() == k,
                    forall|j: int|
                        0 <= j < k ==> (#[trigger] keys@[j])@ == classify_spec(raw_layer[j], names),
                decreases layer.len() - k,
            {
                let token: &String = &layer[k];
                assert(token@ == raw_layer[k as int]);
                match from_str(token.as_str(), layer_names) {
                    Some(key) => keys.push(key),
                    None => {
                        return Err("failed to parse key");
                    },
                }
                k += 1;
            }
            proof {
                assert forall|j: int| 0 <= j < keys@.len() implies #[trigger] keys.deep_view()[j]
                    == classify_spec(raw_layer[j], names) by {
                    assert(keys.deep_view()[j] == keys@[j].deep_view());
                }
                assert(keys.deep_view() =~= raw_layer.map_values(
                    |t: Seq<char>| classify_spec(t, names),
                ));
            }
            layers.push(keys);
            i += 1;
        }
        proof {
            assert forall|j: int| 0 <= j < layers@.len() implies #[trigger] layers.deep_view()[j]
                == classify_layers(raw_layers, names)[j] by {
                assert(layers.deep_view()[j] == layers@[j].deep_view());
            }
            assert(layers.deep_view() =~= classify_layers(raw_layers, names));
        }
        Ok(
            Keymap {
                keymap: self.keymap,
                keyboard: self.keyboard,
                layout: self.layout,
                num_rows,
                layers,
            },
        )
    }

    /// The raw tokens that classify only as `Unrecognized`, layer by layer
    /// in positional order: the non-fatal diagnostic a conversion reports.
    pub fn unrecognized_tokens(&self, layer_names: &LayerNames) -> (r: Vec<String>)
        ensures
            r.deep_view() == spec_unrecognized(self@.layers, layer_names@),
    {
        let ghost names = layer_names@;
        let ghost raw_layers = self@.layers;
        let mut out: Vec<String> = Vec::new();
        proof {
            assert(out.deep_view() =~= Seq::<Seq<char>>::empty());
        }
        let mut i: usize = 0;
        #[verifier::loop_isolation(false)]
        while i < self.layers.len()
            invariant
                i <= self.layers.len(),
                out.deep_view() == spec_unrecognized(raw_layers.take(i as int), names),
            decreases self.layers.len() - i,
        {
            let layer: &Vec<String> = &self.layers[i];
            let ghost raw_layer = raw_layers[i as int];
            proof {
                assert(layer.deep_view() == raw_layer);
                assert(raw_layer.take(0) =~= Seq::<Seq<char>>::empty());
            }
            let mut k: usize = 0;
            #[verifier::loop_isolation(false)]
            while k < layer.len()
                invariant
                    k <= layer.len(),
                    out.deep_view() == spec_unrecognized(raw_layers.take(i as int), names)
                        + layer_unrecognized(raw_layer.take(k as int), names),
                decreases layer.len() - k,
            {
                let token: &String = &layer[k];
                proof {
                    assert(token@ == raw_layer[k as int]);
                    assert(raw_layer.take(k + 1).drop_last() =~= raw_layer.take(k as int));
                    assert(raw_layer.take(k + 1).last() == raw_layer[k as int]);
                }
                let ghost pre = out.deep_view();
                let ghost pre_shallow = out@;
                match from_str(token.as_str(), layer_names) {
                    Some(Key::Unrecognized(t)) => {
                        out.push(t);
                        proof {
                            assert forall|j: int|
                                0 <= j < out.deep_view().len() implies #[trigger] out.deep_view()[j]
                                == (pre + seq![token@])[j] by {
                                assert(out.deep_view()[j] == out@[j]@);
                                if j < pre.len() {
                                    assert(out@[j] == pre_shallow[j]);
                                    assert(pre[j] == pre_shallow[j]@);
                                }
                            }
                            assert(out.deep_view() =~= pre + seq![token@]);
                        }
                    },
                    _ => {
                        proof {
                            assert(out.deep_view() =~= pre + Seq::<Seq<char>>::empty());
                        }
                    },
                }
                k += 1;
            }
            proof {
                assert(raw_layer.take(layer.len() as int) =~= raw_layer);
                assert(raw_layers.take(i + 1).drop_last() =~= raw_layers.take(i as int));
                assert(raw_layers.take(i + 1).last() == raw_layer);
            }
            i += 1;
        }
        assert(raw_layers.take(self.layers.len() as int) =~= raw_layers);
        out
    }
}

} // verus!

