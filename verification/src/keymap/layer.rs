//! The fixed roster of canonical layer names with alias resolution.
//!
//! A firmware macro argument resolves to a canonical layer name when it equals
//! the name ignoring ASCII case, or equals the name prefixed with an
//! underscore, again ignoring case.

use crate::dec_rep;
use crate::usize_to_string;
use vstd::prelude::*;

verus! {

/// The code of a character with ASCII uppercase letters folded to lowercase.
pub open spec fn lower_int(c: char) -> int {
    if 'A' <= c && c <= 'Z' {
        c as int + 32
    } else {
        c as int
    }
}

/// True when the two strings are equal ignoring ASCII case.
pub open spec fn eqi(a: Seq<char>, b: Seq<char>) -> bool {
    a.len() == b.len() && forall|i: int| 0 <= i < a.len() ==> lower_int(a[i]) == lower_int(b[i])
}

/// True when the query names this canonical layer: either the name itself or
/// the name with a leading underscore, ignoring ASCII case.
pub open spec fn layer_matches(name: Seq<char>, q: Seq<char>) -> bool {
    eqi(name, q) || eqi(seq!['_'] + name, q)
}

/// The first roster name the query resolves to, if any.
pub open spec fn resolve_layer(names: Seq<Seq<char>>, q: Seq<char>) -> Option<Seq<char>>
    decreases names.len(),
{
    if names.len() == 0 {
        None
    } else if layer_matches(names[0], q) {
        Some(names[0])
    } else {
        resolve_layer(names.drop_first(), q)
    }
}

/// The canonical name of the layer at an index: the roster entry, or
/// `layer<idx>` past the end of the roster.
pub open spec fn spec_layer_name(names: Seq<Seq<char>>, i: int) -> Seq<char> {
    if 0 <= i < names.len() {
        names[i]
    } else {
        "layer"@ + dec_rep(i as nat)
    }
}

proof fn lemma_resolve_skip(names: Seq<Seq<char>>, q: Seq<char>, i: int)
    requires
        0 <= i <= names.len(),
        forall|j: int| 0 <= j < i ==> !layer_matches(names[j], q),
    ensures
        resolve_layer(names, q) == resolve_layer(names.skip(i), q),
    decreases i,
{
    if i > 0 {
        assert(!layer_matches(names[0], q));
        lemma_resolve_skip(names.drop_first(), q, i - 1);
        assert(names.drop_first().skip(i - 1) =~= names.skip(i));
    } else {
        assert(names.skip(0) =~= names);
    }
}

/// The exec counterpart of `eqi`.
fn eq_ignore_case(a: &str, b: &str) -> (r: bool)
    ensures
        r == eqi(a@, b@),
{
    let a_len = a.unicode_len();
    let b_len = b.unicode_len();
    if a_len != b_len {
        return false;
    }
    let mut i: usize = 0;
    while i < a_len
        invariant
            i <= a_len,
            a_len == a@.len(),
            b_len == b@.len(),
            a_len == b_len,
            forall|j: int| 0 <= j < i ==> lower_int(a@[j]) == lower_int(b@[j]),
        decreases a_len - i,
    {
        let ca = a.get_char(i);
        let cb = b.get_char(i);
        let la: u32 = if 'A' <= ca && ca <= 'Z' {
            ca as u32 + 32
        } else {
            ca as u32
        };
        let lb: u32 = if 'A' <= cb && cb <= 'Z' {
            cb as u32 + 32
        } else {
            cb as u32
        };
        if la != lb {
            return false;
        }
        i += 1;
    }
    true
}

/// An ordered roster of canonical layer names.
pub struct LayerNames {
    names: Vec<String>,
}

impl View for LayerNames {
    type V = Seq<Seq<char>>;

    closed spec fn view(&self) -> Seq<Seq<char>> {
        self.names.deep_view()
    }
}

impl LayerNames {
    pub fn new(names: Vec<String>) -> (r: LayerNames)
        ensures
            r@ == names.deep_view(),
    {
        LayerNames { names }
    }

    /// The canonical spelling of a layer named by a firmware macro argument,
    /// accepting the name itself or the underscore-prefixed form, in either
    /// case ignoring ASCII case.
    pub fn pretty_name(&self, name: &str) -> (r: Option<String>)
        ensures
            match r {
                Some(s) => resolve_layer(self@, name@) == Some(s@),
                None => resolve_layer(self@, name@) is None,
            },
    {
        let mut i: usize = 0;
        while i < self.names.len()
            invariant
                i <= self.names.len(),
                self@.len() == self.names.len(),
                forall|j: int| 0 <= j < i ==> !layer_matches(self@[j], name@),
            decreases self.names.len() - i,
        {
            proof {
                reveal_strlit("_");
            }
            let layer: &String = &self.names[i];
            assert(layer@ == self@[i as int]);
            if eq_ignore_case(layer.as_str(), name) {
                proof {
                    lemma_resolve_skip(self@, name@, i as int);
                    assert(self@.skip(i as int)[0] == self@[i as int]);
                }
                return Some(layer.clone());
            }
            let ulayer = String::from_str("_").concat(layer.as_str());
            assert(ulayer@ =~= seq!['_'] + self@[i as int]);
            if eq_ignore_case(ulayer.as_str(), name) {
                proof {
                    lemma_resolve_skip(self@, name@, i as int);
                    assert(self@.skip(i as int)[0] == self@[i as int]);
                }
                return Some(layer.clone());
            }
            i += 1;
        }
        proof {
            lemma_resolve_skip(self@, name@, self@.len() as int);
        }
        None
    }

    /// The canonical name of the layer at an index, `layer<idx>` past the
    /// end of the roster.
    pub fn get(&self, idx: usize) -> (r: String)
        ensures
            r@ == spec_layer_name(self@, idx as int),
    {
        if idx < self.names.len() {
            assert(self.names[idx as int]@ == self@[idx as int]);
            self.names[idx].clone()
        } else {
            let n = usize_to_string(idx);
            String::from_str("layer").concat(n.as_str())
        }
    }
}

} // verus!
