//! The classified key model and the rendered layout document.

use crate::keymap::layer::spec_layer_name;
use crate::keymap::layer::LayerNames;
use vstd::prelude::*;

pub mod layer;

verus! {

/// One classified keycode.
///
/// Classification is total: every raw token yields exactly one variant,
/// with `Unrecognized` preserving the original text as the fallback.
#[derive(Debug)]
pub enum Key {
    NoOp,
    Transparent,
    Basic(String),
    Special(String),
    UnicodeSingle(String),
    UnicodeCased(String, String),
    LayerTap { layer: String, key: String },
    ModTap { modifier: String, key: String },
    ModKey { modifier: String, key: String },
    LayerChange { action: String, layer: String },
    Unrecognized(String),
}

/// The mathematical model of a classified keycode.
pub ghost enum KeyView {
    NoOp,
    Transparent,
    Basic(Seq<char>),
    Special(Seq<char>),
    UnicodeSingle(Seq<char>),
    UnicodeCased(Seq<char>, Seq<char>),
    LayerTap { layer: Seq<char>, key: Seq<char> },
    ModTap { modifier: Seq<char>, key: Seq<char> },
    ModKey { modifier: Seq<char>, key: Seq<char> },
    LayerChange { action: Seq<char>, layer: Seq<char> },
    Unrecognized(Seq<char>),
}

impl View for Key {
    type V = KeyView;

    open spec fn view(&self) -> KeyView {
        match self {
            Key::NoOp => KeyView::NoOp,
            Key::Transparent => KeyView::Transparent,
            Key::Basic(s) => KeyView::Basic(s@),
            Key::Special(s) => KeyView::Special(s@),
            Key::UnicodeSingle(s) => KeyView::UnicodeSingle(s@),
            Key::UnicodeCased(l, u) => KeyView::UnicodeCased(l@, u@),
            Key::LayerTap { layer, key } => KeyView::LayerTap { layer: layer@, key: key@ },
            Key::ModTap { modifier, key } => KeyView::ModTap {
                modifier: modifier@,
                key: key@,
            },
            Key::ModKey { modifier, key } => KeyView::ModKey {
                modifier: modifier@,
                key: key@,
            },
            Key::LayerChange { action, layer } => KeyView::LayerChange {
                action: action@,
                layer: layer@,
            },
            Key::Unrecognized(s) => KeyView::Unrecognized(s@),
        }
    }
}

impl DeepView for Key {
    type V = KeyView;

    open spec fn deep_view(&self) -> KeyView {
        self.view()
    }
}

/// The rendered form of one key, one line of a layer section.
pub open spec fn spec_key_yaml(k: KeyView) -> Seq<char> {
    match k {
        KeyView::NoOp => "null"@,
        KeyView::Transparent => "{t: \u{25bd}, type: trans}"@,
        KeyView::Basic(s) => s,
        KeyView::Special(s) => s,
        KeyView::UnicodeSingle(u) => "UM("@ + u + ")"@,
        KeyView::UnicodeCased(l, u) => "'UP("@ + l + ", "@ + u + ")'"@,
        KeyView::LayerTap { layer, key } => "{t: "@ + key + ", h: "@ + layer + "}"@,
        KeyView::ModTap { modifier, key } => "{t: "@ + key + ", h: "@ + modifier + "}"@,
        KeyView::ModKey { modifier, key } => modifier + "("@ + key + ")"@,
        KeyView::LayerChange { action, layer } => layer,
        KeyView::Unrecognized(t) => t,
    }
}

impl Key {
    /// The rendered form of this key: the bare name for basic and special
    /// keys, call-style tokens for the Unicode forms, tap/hold records for
    /// the tap forms, the destination layer alone for a layer change, and
    /// the raw token verbatim for an unrecognized key.
    pub fn to_yaml(&self) -> (r: String)
        ensures
            r@ == spec_key_yaml(self@),
    {
        match self {
            Key::NoOp => String::from_str("null"),
            Key::Transparent => String::from_str("{t: \u{25bd}, type: trans}"),
            Key::Basic(key) => key.clone(),
            Key::Special(key) => key.clone(),
            Key::UnicodeSingle(uc) => {
                let mut y = String::from_str("UM(");
                y.append(uc.as_str());
                y.append(")");
                assert(y@ =~= spec_key_yaml(self@));
                y
            },
            Key::UnicodeCased(lower, upper) => {
                let mut y = String::from_str("'UP(");
                y.append(lower.as_str());
                y.append(", ");
                y.append(upper.as_str());
                y.append(")'");
                assert(y@ =~= spec_key_yaml(self@));
                y
            },
            Key::LayerTap { layer, key } => {
                let mut y = String::from_str("{t: ");
                y.append(key.as_str());
                y.append(", h: ");
                y.append(layer.as_str());
                y.append("}");
                assert(y@ =~= spec_key_yaml(self@));
                y
            },
            Key::ModTap { modifier, key } => {
                let mut y = String::from_str("{t: ");
                y.append(key.as_str());
                y.append(", h: ");
                y.append(modifier.as_str());
                y.append("}");
                assert(y@ =~= spec_key_yaml(self@));
                y
            },
            Key::ModKey { modifier, key } => {
                let mut y = modifier.clone();
                y.append("(");
                y.append(key.as_str());
                y.append(")");
                assert(y@ =~= spec_key_yaml(self@));
                y
            },
            Key::LayerChange { action: _, layer } => layer.clone(),
            Key::Unrecognized(key) => key.clone(),
        }
    }
}

/// An assembled keymap: identifiers and the classified layers.
pub struct Keymap {
    pub keymap: String,
    pub keyboard: String,
    pub layout: String,
    pub num_rows: usize,
    pub layers: Vec<Vec<Key>>,
}

/// The mathematical model of an assembled keymap.
pub ghost struct KeymapView {
    pub keymap: Seq<char>,
    pub keyboard: Seq<char>,
    pub layout: Seq<char>,
    pub num_rows: int,
    pub layers: Seq<Seq<KeyView>>,
}

impl View for Keymap {
    type V = KeymapView;

    open spec fn view(&self) -> KeymapView {
        KeymapView {
            keymap: self.keymap@,
            keyboard: self.keyboard@,
            layout: self.layout@,
            num_rows: self.num_rows as int,
            layers: self.layers.deep_view(),
        }
    }
}

/// The rendered lines of one layer's keys, in positional order.
pub open spec fn spec_keys_yaml(keys: Seq<KeyView>) -> Seq<char>
    decreases keys.len(),
{
    if keys.len() == 0 {
        Seq::empty()
    } else {
        spec_keys_yaml(keys.drop_last()) + "  - "@ + spec_key_yaml(keys.last()) + "\n"@
    }
}

/// One layer section: the canonical layer name, then the rendered keys.
pub open spec fn spec_layer_section(keys: Seq<KeyView>, names: Seq<Seq<char>>, i: int) -> Seq<
    char,
> {
    "  "@ + spec_layer_name(names, i) + "\n"@ + spec_keys_yaml(keys)
}

/// The layer sections of a keymap, in layer order.
pub open spec fn spec_layers_yaml(layers: Seq<Seq<KeyView>>, names: Seq<Seq<char>>) -> Seq<char>
    decreases layers.len(),
{
    if layers.len() == 0 {
        Seq::empty()
    } else {
        spec_layers_yaml(layers.drop_last(), names) + spec_layer_section(
            layers.last(),
            names,
            layers.len() - 1,
        )
    }
}

/// The header block carrying the keyboard and layout identifiers.
pub open spec fn spec_keymap_header(m: KeymapView) -> Seq<char> {
    "layout: {qmk_keyboard: "@ + m.keyboard + ", layout_name: "@ + m.layout + "}\nlayers:\n"@
}

/// The whole rendered document: header, then one section per layer.
pub open spec fn spec_keymap_yaml(m: KeymapView, names: Seq<Seq<char>>) -> Seq<char> {
    spec_keymap_header(m) + spec_layers_yaml(m.layers, names)
}

impl Keymap {
    /// The rendered layout document: a header naming the keyboard and the
    /// layout, then one section per layer introduced by its canonical name,
    /// with one line per key in positional order. Never fails.
    pub fn to_yaml(&self, layer_names: &LayerNames) -> (r: Result<String, &'static str>)
        ensures
            match r {
                Ok(s) => s@ == spec_keymap_yaml(self@, layer_names@),
                Err(_) => false,
            },
    {
        let ghost names = layer_names@;
        let mut yaml = String::from_str("layout: {qmk_keyboard: ");
        yaml.append(self.keyboard.as_str());
        yaml.append(", layout_name: ");
        yaml.append(self.layout.as_str());
        yaml.append("}\nlayers:\n");
        assert(yaml@ =~= spec_keymap_header(self@));
        let mut i: usize = 0;
        while i < self.layers.len()
            invariant
                i <= self.layers.len(),
                self@.layers.len() == self.layers.len(),
                names == layer_names@,
                yaml@ == spec_keymap_header(self@) + spec_layers_yaml(
                    self@.layers.take(i as int),
                    names,
                ),
            decreases self.layers.len() - i,
        {
            yaml.append("  ");
            let name = layer_names.get(i);
            yaml.append(name.as_str());
            yaml.append("\n");
            let ghost keys = self@.layers[i as int];
            let layer: &Vec<Key> = &self.layers[i];
            assert(layer.deep_view() == keys);
            let mut k: usize = 0;
            while k < layer.len()
                invariant
                    k <= layer.len(),
                    keys.len() == layer.len(),
                    layer.deep_view() == keys,
                    yaml@ == spec_keymap_header(self@) + spec_layers_yaml(
                        self@.layers.take(i as int),
                        names,
                    ) + "  "@ + spec_layer_name(names, i as int) + "\n"@ + spec_keys_yaml(
                        keys.take(k as int),
                    ),
                decreases layer.len() - k,
            {
                yaml.append("  - ");
                let line = layer[k].to_yaml();
                yaml.append(line.as_str());
                yaml.append("\n");
                proof {
                    assert(layer@[k as int]@ == keys[k as int]);
                    assert(keys.take(k + 1).drop_last() =~= keys.take(k as int));
                    assert(keys.take(k + 1).last() == keys[k as int]);
                    assert(yaml@ =~= spec_keymap_header(self@) + spec_layers_yaml(
                        self@.layers.take(i as int),
                        names,
                    ) + "  "@ + spec_layer_name(names, i as int) + "\n"@ + spec_keys_yaml(
                        keys.take(k + 1),
                    ));
                }
                k += 1;
            }
            proof {
                assert(keys.take(keys.len() as int) =~= keys);
                let taken = self@.layers.take(i + 1);
                assert(taken.drop_last() =~= self@.layers.take(i as int));
                assert(taken.last() == keys);
                assert(yaml@ =~= spec_keymap_header(self@) + spec_layers_yaml(
                    self@.layers.take(i + 1),
                    names,
                ));
            }
            i += 1;
        }
        assert(self@.layers.take(self.layers.len() as int) =~= self@.layers);
        Ok(yaml)
    }
}

} // verus!
