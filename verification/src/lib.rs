//! Converts a QMK keymap description into a keymap-drawer layout document.
//!
//! The crate has three independent parts: a keycode classifier that turns raw
//! firmware tokens into a closed set of semantic key variants, a keymap
//! assembler and renderer built on the classifier, and an overlay resolver
//! that folds versioned keycode-definition documents into one table.

use crate::keymap::layer::LayerNames;
use crate::keymap::spec_keymap_yaml;
use crate::keymap::KeymapView;
use crate::qmk::parser::classify_layers;
use crate::qmk::parser::RawKeymap;
use crate::qmk::parser::RawKeymapView;
use vstd::prelude::*;

pub mod keymap;
pub mod qmk;

verus! {

/// True when the two strings hold the same characters.
pub fn str_eq(a: &str, b: &str) -> (r: bool)
    ensures
        r == (a@ == b@),
{
    let a_len = a.unicode_len();
    let b_len = b.unicode_len();
    if a_len != b_len {
        assert(a@.len() != b@.len());
        return false;
    }
    let mut i: usize = 0;
    while i < a_len
        invariant
            i <= a_len,
            a_len == a@.len(),
            b_len == b@.len(),
            a_len == b_len,
            forall|j: int| 0 <= j < i ==> a@[j] == b@[j],
        decreases a_len - i,
    {
        if a.get_char(i) != b.get_char(i) {
            return false;
        }
        i += 1;
    }
    assert(a@ =~= b@);
    true
}

/// A copy of a vector of strings, character for character.
pub fn clone_strings(v: &Vec<String>) -> (r: Vec<String>)
    ensures
        r.deep_view() == v.deep_view(),
{
    let mut r: Vec<String> = Vec::new();
    let mut i: usize = 0;
    while i < v.len()
        invariant
            i <= v.len(),
            r.len() == i,
            forall|j: int| 0 <= j < i ==> r.deep_view()[j] == v.deep_view()[j],
        decreases v.len() - i,
    {
        r.push(v[i].clone());
        i += 1;
    }
    assert(r.deep_view() =~= v.deep_view());
    r
}

/// The character for one decimal digit.
pub open spec fn digit_char(d: nat) -> char {
    if d == 0 {
        '0'
    } else if d == 1 {
        '1'
    } else if d == 2 {
        '2'
    } else if d == 3 {
        '3'
    } else if d == 4 {
        '4'
    } else if d == 5 {
        '5'
    } else if d == 6 {
        '6'
    } else if d == 7 {
        '7'
    } else if d == 8 {
        '8'
    } else {
        '9'
    }
}

/// The decimal representation of a number, most significant digit first.
pub open spec fn dec_rep(n: nat) -> Seq<char>
    decreases n,
{
    if n < 10 {
        seq![digit_char(n)]
    } else {
        dec_rep(n / 10) + seq![digit_char(n % 10)]
    }
}

/// The one-character string for a decimal digit.
fn digit_str(d: usize) -> (r: &'static str)
    requires
        d < 10,
    ensures
        r@ =~= seq![digit_char(d as nat)],
{
    proof {
        reveal_strlit("0");
        reveal_strlit("1");
        reveal_strlit("2");
        reveal_strlit("3");
        reveal_strlit("4");
        reveal_strlit("5");
        reveal_strlit("6");
        reveal_strlit("7");
        reveal_strlit("8");
        reveal_strlit("9");
    }
    match d {
        0 => "0",
        1 => "1",
        2 => "2",
        3 => "3",
        4 => "4",
        5 => "5",
        6 => "6",
        7 => "7",
        8 => "8",
        _ => "9",
    }
}

/// The decimal rendering of a number.
pub fn usize_to_string(n: usize) -> (r: String)
    ensures
        r@ == dec_rep(n as nat),
    decreases n,
{
    if n < 10 {
        digit_str(n).to_owned()
    } else {
        let prefix = usize_to_string(n / 10);
        prefix.concat(digit_str(n % 10))
    }
}

/// The value the first pair with this key carries, if any pair carries it.
pub open spec fn spec_alias_lookup(aliases: Seq<(Seq<char>, Seq<char>)>, key: Seq<char>) -> Option<
    Seq<char>,
>
    decreases aliases.len(),
{
    if aliases.len() == 0 {
        None
    } else if aliases[0].0 == key {
        Some(aliases[0].1)
    } else {
        spec_alias_lookup(aliases.drop_first(), key)
    }
}

proof fn lemma_alias_lookup_skip(aliases: Seq<(Seq<char>, Seq<char>)>, key: Seq<char>, i: int)
    requires
        0 <= i <= aliases.len(),
        forall|j: int| 0 <= j < i ==> (#[trigger] aliases[j]).0 != key,
    ensures
        spec_alias_lookup(aliases, key) == spec_alias_lookup(aliases.skip(i), key),
    decreases i,
{
    if i > 0 {
        lemma_alias_lookup_skip(aliases.drop_first(), key, i - 1);
        assert(aliases.drop_first().skip(i - 1) =~= aliases.skip(i));
    } else {
        assert(aliases.skip(0) =~= aliases);
    }
}

/// The substitute the alias table names for this key, if it names one.
fn alias_lookup(aliases: &Vec<(String, String)>, key: &str) -> (r: Option<String>)
    ensures
        match r {
            Some(s) => spec_alias_lookup(aliases.deep_view(), key@) == Some(s@),
            None => spec_alias_lookup(aliases.deep_view(), key@) is None,
        },
{
    let ghost av = aliases.deep_view();
    let mut i: usize = 0;
    while i < aliases.len()
        invariant
            i <= aliases.len(),
            av == aliases.deep_view(),
            av.len() == aliases.len(),
            forall|j: int| 0 <= j < i ==> (#[trigger] av[j]).0 != key@,
        decreases aliases.len() - i,
    {
        assert(aliases@[i as int].deep_view() == av[i as int]);
        if str_eq(aliases[i].0.as_str(), key) {
            proof {
                lemma_alias_lookup_skip(av, key@, i as int);
                assert(av.skip(i as int)[0] == av[i as int]);
            }
            return Some(aliases[i].1.clone());
        }
        i += 1;
    }
    proof {
        lemma_alias_lookup_skip(av, key@, av.len() as int);
    }
    None
}

/// Keyboard-specific knowledge that the QMK document does not carry: the
/// physical row count, layout-identifier substitutions, and the roster of
/// canonical layer names.
pub struct CustomConfig {
    num_rows: usize,
    pub aliases: Vec<(String, String)>,
    pub layer_names: Vec<String>,
}

/// The mathematical model of the keyboard-specific knowledge.
pub ghost struct CustomConfigView {
    pub num_rows: int,
    pub aliases: Seq<(Seq<char>, Seq<char>)>,
    pub layer_names: Seq<Seq<char>>,
}

impl View for CustomConfig {
    type V = CustomConfigView;

    closed spec fn view(&self) -> CustomConfigView {
        CustomConfigView {
            num_rows: self.num_rows as int,
            aliases: self.aliases.deep_view(),
            layer_names: self.layer_names.deep_view(),
        }
    }
}

/// One conversion run's settings: the source and destination paths and the
/// keyboard-specific knowledge.
pub struct Config {
    src_json: String,
    dest_yaml: String,
    pub custom: CustomConfig,
}

/// The mathematical model of a conversion run's settings.
pub ghost struct ConfigView {
    pub src_json: Seq<char>,
    pub dest_yaml: Seq<char>,
    pub custom: CustomConfigView,
}

impl View for Config {
    type V = ConfigView;

    closed spec fn view(&self) -> ConfigView {
        ConfigView { src_json: self.src_json@, dest_yaml: self.dest_yaml@, custom: self.custom@ }
    }
}

impl Config {
    /// A configuration with the given paths and row count and no
    /// keyboard-specific substitutions yet.
    pub fn new(src_json: String, dest_yaml: String, num_rows: usize) -> (r: Config)
        ensures
            r@.src_json == src_json@,
            r@.dest_yaml == dest_yaml@,
            r@.custom.num_rows == num_rows as int,
            r@.custom.aliases == Seq::<(Seq<char>, Seq<char>)>::empty(),
            r@.custom.layer_names == Seq::<Seq<char>>::empty(),
    {
        let r = Config {
            src_json,
            dest_yaml,
            custom: CustomConfig { num_rows, aliases: Vec::new(), layer_names: Vec::new() },
        };
        assert(r@.custom.aliases =~= Seq::<(Seq<char>, Seq<char>)>::empty());
        assert(r@.custom.layer_names =~= Seq::<Seq<char>>::empty());
        r
    }
}

/// The document one conversion run renders: every token of the raw keymap
/// classified against the configured roster, the layout identifier replaced
/// by its configured substitute when one is configured, and the result laid
/// out as the rendered layout document.
pub open spec fn spec_run(c: CustomConfigView, raw: RawKeymapView) -> Seq<char> {
    let layout = match spec_alias_lookup(c.aliases, raw.layout) {
        Some(l) => l,
        None => raw.layout,
    };
    spec_keymap_yaml(
        KeymapView {
            keymap: raw.keymap,
            keyboard: raw.keyboard,
            layout,
            num_rows: c.num_rows,
            layers: classify_layers(raw.layers, c.layer_names),
        },
        c.layer_names,
    )
}

/// One conversion run over an already-loaded raw keymap document. Never
/// fails: classification is total and rendering is defined for every
/// assembled keymap.
pub fn run(config: &Config, raw: RawKeymap) -> (r: Result<String, &'static str>)
    ensures
        match r {
            Ok(s) => s@ == spec_run(config@.custom, raw@),
            Err(_) => false,
        },
{
    let layer_names = LayerNames::new(clone_strings(&config.custom.layer_names));
    let keymap = raw.to_keymap(config.custom.num_rows, &layer_names);
    let mut keymap = match keymap {
        Ok(m) => m,
        Err(_) => {
            return Err("could not read keymap from file");
        },
    };
    match alias_lookup(&config.custom.aliases, keymap.layout.as_str()) {
        Some(alias) => {
            keymap.layout = alias;
        },
        None => {},
    }
    keymap.to_yaml(&layer_names)
}

} // verus!
