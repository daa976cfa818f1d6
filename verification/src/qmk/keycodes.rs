//! The keycode display-name table: the fixed mapping from a firmware
//! keycode name to the short label a drawing shows for it.

use crate::qmk::constants::spec_view_find;
use vstd::prelude::*;

verus! {
/// One run of the display-name table.
pub open spec fn display_pairs_a() -> Seq<(Seq<char>, Seq<char>)> {
    seq![
        ("KC_C"@, "C"@),
        ("KC_D"@, "D"@),
        ("KC_E"@, "E"@),
        ("KC_F"@, "F"@),
        ("KC_G"@, "G"@),
        ("KC_H"@, "H"@),
        ("KC_I"@, "I"@),
        ("KC_J"@, "J"@),
        ("KC_K"@, "K"@),
        ("KC_L"@, "L"@),
        ("KC_M"@, "M"@),
        ("KC_N"@, "N"@),
        ("KC_O"@, "O"@),
        ("KC_P"@, "P"@),
        ("KC_Q"@, "Q"@),
        ("KC_R"@, "R"@),
        ("KC_S"@, "S"@),
        ("KC_T"@, "T"@),
        ("KC_U"@, "U"@),
        ("KC_V"@, "V"@),
        ("KC_W"@, "W"@),
        ("KC_X"@, "X"@),
        ("KC_Y"@, "Y"@),
        ("KC_Z"@, "Z"@),
        ("KC_1"@, "1"@),
        ("KC_2"@, "2"@),
        ("KC_3"@, "3"@),
        ("KC_4"@, "4"@),
        ("KC_5"@, "5"@),
        ("KC_6"@, "6"@),
        ("KC_7"@, "7"@),
        ("KC_8"@, "8"@),
        ("KC_9"@, "9"@),
        ("KC_0"@, "0"@),
        ("KC_ENTER"@, ""@),
        ("KC_ESCAPE"@, ""@),
        ("KC_BACKSPACE"@, ""@),
        ("KC_TAB"@, ""@),
        ("KC_SPACE"@, " "@),
        ("KC_MINUS"@, "-"@),
        ("KC_EQUAL"@, "="@),
        ("KC_LEFT_BRACKET"@, "["@),
        ("KC_RIGHT_BRACKET"@, "]"@),
        ("KC_BACKSLASH"@, "\\"@),
        ("KC_NONUS_HASH"@, "#"@),
        ("KC_SEMICOLON"@, ";"@),
        ("KC_QUOTE"@, "'"@),
        ("KC_GRAVE"@, "`"@),
    ]
}

/// One run of the display-name table.
pub open spec fn display_pairs_b() -> Seq<(Seq<char>, Seq<char>)> {
    seq![
        ("KC_COMMA"@, ","@),
        ("KC_DOT"@, "."@),
        ("KC_SLASH"@, "/"@),
        ("KC_CAPS_LOCK"@, ""@),
        ("KC_F1"@, "F1"@),
        ("KC_F2"@, "F2"@),
        ("KC_F3"@, "F3"@),
        ("KC_F4"@, "F4"@),
        ("KC_F5"@, "F5"@),
        ("KC_F6"@, "F6"@),
        ("KC_F7"@, "F7"@),
        ("KC_F8"@, "F8"@),
        ("KC_F9"@, "F9"@),
        ("KC_F10"@, "F10"@),
        ("KC_F11"@, "F11"@),
        ("KC_F12"@, "F12"@),
        ("KC_PRINT_SCREEN"@, ""@),
        ("KC_SCROLL_LOCK"@, ""@),
        ("KC_PAUSE"@, ""@),
        ("KC_INSERT"@, ""@),
        ("KC_HOME"@, ""@),
        ("KC_PAGE_UP"@, ""@),
        ("KC_DELETE"@, ""@),
        ("KC_END"@, ""@),
        ("KC_PAGE_DOWN"@, ""@),
        ("KC_RIGHT"@, ""@),
        ("KC_LEFT"@, ""@),
        ("KC_DOWN"@, ""@),
        ("KC_UP"@, ""@),
        ("KC_NUM_LOCK"@, ""@),
        ("KC_KP_SLASH"@, "/"@),
        ("KC_KP_ASTERISK"@, "*"@),
        ("KC_KP_MINUS"@, "-"@),
        ("KC_KP_PLUS"@, "+"@),
        ("KC_KP_ENTER"@, ""@),
        ("KC_KP_1"@, "1"@),
        ("KC_KP_2"@, "2"@),
        ("KC_KP_3"@, "3"@),
        ("KC_KP_4"@, "4"@),
        ("KC_KP_5"@, "5"@),
        ("KC_KP_6"@, "6"@),
        ("KC_KP_7"@, "7"@),
        ("KC_KP_8"@, "8"@),
        ("KC_KP_9"@, "9"@),
        ("KC_KP_0"@, "0"@),
        ("KC_KP_DOT"@, "."@),
        ("KC_NONUS_BACKSLASH"@, "\\"@),
        ("KC_APPLICATION"@, ""@),
    ]
}

/// One run of the display-name table.
pub open spec fn display_pairs_c() -> Seq<(Seq<char>, Seq<char>)> {
    seq![
        ("KC_KB_POWER"@, ""@),
        ("KC_KP_EQUAL"@, "="@),
        ("KC_F13"@, ""@),
        ("KC_F14"@, ""@),
        ("KC_F15"@, ""@),
        ("KC_F16"@, ""@),
        ("KC_F17"@, ""@),
        ("KC_F18"@, ""@),
        ("KC_F19"@, ""@),
        ("KC_F20"@, ""@),
        ("KC_F21"@, ""@),
        ("KC_F22"@, ""@),
        ("KC_F23"@, ""@),
        ("KC_F24"@, ""@),
        ("KC_EXECUTE"@, ""@),
        ("KC_HELP"@, ""@),
        ("KC_MENU"@, ""@),
        ("KC_SELECT"@, ""@),
        ("KC_STOP"@, ""@),
        ("KC_AGAIN"@, ""@),
        ("KC_UNDO"@, ""@),
        ("KC_CUT"@, ""@),
        ("KC_COPY"@, ""@),
        ("KC_PASTE"@, ""@),
        ("KC_FIND"@, ""@),
        ("KC_KB_MUTE"@, ""@),
        ("KC_KB_VOLUME_UP"@, ""@),
        ("KC_KB_VOLUME_DOWN"@, ""@),
        ("KC_LOCKING_CAPS_LOCK"@, ""@),
        ("KC_LOCKING_NUM_LOCK"@, ""@),
        ("KC_LOCKING_SCROLL_LOCK"@, ""@),
        ("KC_KP_COMMA"@, ""@),
        ("KC_KP_EQUAL_AS400"@, ""@),
        ("KC_INTERNATIONAL_1"@, ""@),
        ("KC_INTERNATIONAL_2"@, ""@),
        ("KC_INTERNATIONAL_3"@, ""@),
        ("KC_INTERNATIONAL_4"@, ""@),
        ("KC_INTERNATIONAL_5"@, ""@),
        ("KC_INTERNATIONAL_6"@, ""@),
        ("KC_INTERNATIONAL_7"@, ""@),
        ("KC_INTERNATIONAL_8"@, ""@),
        ("KC_INTERNATIONAL_9"@, ""@),
        ("KC_LANGUAGE_1"@, ""@),
        ("KC_LANGUAGE_2"@, ""@),
        ("KC_LANGUAGE_3"@, ""@),
        ("KC_LANGUAGE_4"@, ""@),
        ("KC_LANGUAGE_5"@, ""@),
        ("KC_LANGUAGE_6"@, ""@),
    ]
}

/// One run of the display-name table.
pub open spec fn display_pairs_d() -> Seq<(Seq<char>, Seq<char>)> {
    seq![
        ("KC_LANGUAGE_7"@, ""@),
        ("KC_LANGUAGE_8"@, ""@),
        ("KC_LANGUAGE_9"@, ""@),
        ("KC_ALTERNATE_ERASE"@, ""@),
        ("KC_SYSTEM_REQUEST"@, ""@),
        ("KC_CANCEL"@, ""@),
        ("KC_CLEAR"@, ""@),
        ("KC_PRIOR"@, ""@),
        ("KC_RETURN"@, ""@),
        ("KC_SEPARATOR"@, ""@),
        ("KC_OUT"@, ""@),
        ("KC_OPER"@, ""@),
        ("KC_CLEAR_AGAIN"@, ""@),
        ("KC_CRSEL"@, ""@),
        ("KC_EXSEL"@, ""@),
        ("KC_SYSTEM_POWER"@, ""@),
        ("KC_SYSTEM_SLEEP"@, ""@),
        ("KC_SYSTEM_WAKE"@, ""@),
        ("KC_AUDIO_MUTE"@, ""@),
        ("KC_AUDIO_VOL_UP"@, ""@),
        ("KC_AUDIO_VOL_DOWN"@, ""@),
        ("KC_MEDIA_NEXT_TRACK"@, ""@),
        ("KC_MEDIA_PREV_TRACK"@, ""@),
        ("KC_MEDIA_STOP"@, ""@),
        ("KC_MEDIA_PLAY_PAUSE"@, ""@),
        ("KC_MEDIA_SELECT"@, ""@),
        ("KC_MEDIA_EJECT"@, ""@),
        ("KC_MAIL"@, ""@),
        ("KC_CALCULATOR"@, ""@),
        ("KC_MY_COMPUTER"@, ""@),
        ("KC_WWW_SEARCH"@, ""@),
        ("KC_WWW_HOME"@, ""@),
        ("KC_WWW_BACK"@, ""@),
        ("KC_WWW_FORWARD"@, ""@),
        ("KC_WWW_STOP"@, ""@),
        ("KC_WWW_REFRESH"@, ""@),
        ("KC_WWW_FAVORITES"@, ""@),
        ("KC_MEDIA_FAST_FORWARD"@, ""@),
        ("KC_MEDIA_REWIND"@, ""@),
        ("KC_BRIGHTNESS_UP"@, ""@),
        ("KC_BRIGHTNESS_DOWN"@, ""@),
        ("KC_CONTROL_PANEL"@, ""@),
        ("KC_ASSISTANT"@, ""@),
        ("KC_MISSION_CONTROL"@, ""@),
        ("KC_LAUNCHPAD"@, ""@),
    ]
}

fn table_a() -> (r: Vec<(&'static str, &'static str)>)
    ensures
        r.deep_view() =~= display_pairs_a(),
{
    let mut r: Vec<(&'static str, &'static str)> = Vec::new();
    r.push(("KC_C", "C"));
    r.push(("KC_D", "D"));
    r.push(("KC_E", "E"));
    r.push(("KC_F", "F"));
    r.push(("KC_G", "G"));
    r.push(("KC_H", "H"));
    r.push(("KC_I", "I"));
    r.push(("KC_J", "J"));
    r.push(("KC_K", "K"));
    r.push(("KC_L", "L"));
    r.push(("KC_M", "M"));
    r.push(("KC_N", "N"));
    r.push(("KC_O", "O"));
    r.push(("KC_P", "P"));
    r.push(("KC_Q", "Q"));
    r.push(("KC_R", "R"));
    r.push(("KC_S", "S"));
    r.push(("KC_T", "T"));
    r.push(("KC_U", "U"));
    r.push(("KC_V", "V"));
    r.push(("KC_W", "W"));
    r.push(("KC_X", "X"));
    r.push(("KC_Y", "Y"));
    r.push(("KC_Z", "Z"));
    r.push(("KC_1", "1"));
    r.push(("KC_2", "2"));
    r.push(("KC_3", "3"));
    r.push(("KC_4", "4"));
    r.push(("KC_5", "5"));
    r.push(("KC_6", "6"));
    r.push(("KC_7", "7"));
    r.push(("KC_8", "8"));
    r.push(("KC_9", "9"));
    r.push(("KC_0", "0"));
    r.push(("KC_ENTER", ""));
    r.push(("KC_ESCAPE", ""));
    r.push(("KC_BACKSPACE", ""));
    r.push(("KC_TAB", ""));
    r.push(("KC_SPACE", " "));
    r.push(("KC_MINUS", "-"));
    r.push(("KC_EQUAL", "="));
    r.push(("KC_LEFT_BRACKET", "["));
    r.push(("KC_RIGHT_BRACKET", "]"));
    r.push(("KC_BACKSLASH", "\\"));
    r.push(("KC_NONUS_HASH", "#"));
    r.push(("KC_SEMICOLON", ";"));
    r.push(("KC_QUOTE", "'"));
    r.push(("KC_GRAVE", "`"));
    assert(r.deep_view() =~= display_pairs_a());
    r
}

fn table_b() -> (r: Vec<(&'static str, &'static str)>)
    ensures
        r.deep_view() =~= display_pairs_b(),
{
    let mut r: Vec<(&'static str, &'static str)> = Vec::new();
    r.push(("KC_COMMA", ","));
    r.push(("KC_DOT", "."));
    r.push(("KC_SLASH", "/"));
    r.push(("KC_CAPS_LOCK", ""));
    r.push(("KC_F1", "F1"));
    r.push(("KC_F2", "F2"));
    r.push(("KC_F3", "F3"));
    r.push(("KC_F4", "F4"));
    r.push(("KC_F5", "F5"));
    r.push(("KC_F6", "F6"));
    r.push(("KC_F7", "F7"));
    r.push(("KC_F8", "F8"));
    r.push(("KC_F9", "F9"));
    r.push(("KC_F10", "F10"));
    r.push(("KC_F11", "F11"));
    r.push(("KC_F12", "F12"));
    r.push(("KC_PRINT_SCREEN", ""));
    r.push(("KC_SCROLL_LOCK", ""));
    r.push(("KC_PAUSE", ""));
    r.push(("KC_INSERT", ""));
    r.push(("KC_HOME", ""));
    r.push(("KC_PAGE_UP", ""));
    r.push(("KC_DELETE", ""));
    r.push(("KC_END", ""));
    r.push(("KC_PAGE_DOWN", ""));
    r.push(("KC_RIGHT", ""));
    r.push(("KC_LEFT", ""));
    r.push(("KC_DOWN", ""));
    r.push(("KC_UP", ""));
    r.push(("KC_NUM_LOCK", ""));
    r.push(("KC_KP_SLASH", "/"));
    r.push(("KC_KP_ASTERISK", "*"));
    r.push(("KC_KP_MINUS", "-"));
    r.push(("KC_KP_PLUS", "+"));
    r.push(("KC_KP_ENTER", ""));
    r.push(("KC_KP_1", "1"));
    r.push(("KC_KP_2", "2"));
    r.push(("KC_KP_3", "3"));
    r.push(("KC_KP_4", "4"));
    r.push(("KC_KP_5", "5"));
    r.push(("KC_KP_6", "6"));
    r.push(("KC_KP_7", "7"));
    r.push(("KC_KP_8", "8"));
    r.push(("KC_KP_9", "9"));
    r.push(("KC_KP_0", "0"));
    r.push(("KC_KP_DOT", "."));
    r.push(("KC_NONUS_BACKSLASH", "\\"));
    r.push(("KC_APPLICATION", ""));
    assert(r.deep_view() =~= display_pairs_b());
    r
}

fn table_c() -> (r: Vec<(&'static str, &'static str)>)
    ensures
        r.deep_view() =~= display_pairs_c(),
{
    let mut r: Vec<(&'static str, &'static str)> = Vec::new();
    r.push(("KC_KB_POWER", ""));
    r.push(("KC_KP_EQUAL", "="));
    r.push(("KC_F13", ""));
    r.push(("KC_F14", ""));
    r.push(("KC_F15", ""));
    r.push(("KC_F16", ""));
    r.push(("KC_F17", ""));
    r.push(("KC_F18", ""));
    r.push(("KC_F19", ""));
    r.push(("KC_F20", ""));
    r.push(("KC_F21", ""));
    r.push(("KC_F22", ""));
    r.push(("KC_F23", ""));
    r.push(("KC_F24", ""));
    r.push(("KC_EXECUTE", ""));
    r.push(("KC_HELP", ""));
    r.push(("KC_MENU", ""));
    r.push(("KC_SELECT", ""));
    r.push(("KC_STOP", ""));
    r.push(("KC_AGAIN", ""));
    r.push(("KC_UNDO", ""));
    r.push(("KC_CUT", ""));
    r.push(("KC_COPY", ""));
    r.push(("KC_PASTE", ""));
    r.push(("KC_FIND", ""));
    r.push(("KC_KB_MUTE", ""));
    r.push(("KC_KB_VOLUME_UP", ""));
    r.push(("KC_KB_VOLUME_DOWN", ""));
    r.push(("KC_LOCKING_CAPS_LOCK", ""));
    r.push(("KC_LOCKING_NUM_LOCK", ""));
    r.push(("KC_LOCKING_SCROLL_LOCK", ""));
    r.push(("KC_KP_COMMA", ""));
    r.push(("KC_KP_EQUAL_AS400", ""));
    r.push(("KC_INTERNATIONAL_1", ""));
    r.push(("KC_INTERNATIONAL_2", ""));
    r.push(("KC_INTERNATIONAL_3", ""));
    r.push(("KC_INTERNATIONAL_4", ""));
    r.push(("KC_INTERNATIONAL_5", ""));
    r.push(("KC_INTERNATIONAL_6", ""));
    r.push(("KC_INTERNATIONAL_7", ""));
    r.push(("KC_INTERNATIONAL_8", ""));
    r.push(("KC_INTERNATIONAL_9", ""));
    r.push(("KC_LANGUAGE_1", ""));
    r.push(("KC_LANGUAGE_2", ""));
    r.push(("KC_LANGUAGE_3", ""));
    r.push(("KC_LANGUAGE_4", ""));
    r.push(("KC_LANGUAGE_5", ""));
    r.push(("KC_LANGUAGE_6", ""));
    assert(r.deep_view() =~= display_pairs_c());
    r
}

fn table_d() -> (r: Vec<(&'static str, &'static str)>)
    ensures
        r.deep_view() =~= display_pairs_d(),
{
    let mut r: Vec<(&'static str, &'static str)> = Vec::new();
    r.push(("KC_LANGUAGE_7", ""));
    r.push(("KC_LANGUAGE_8", ""));
    r.push(("KC_LANGUAGE_9", ""));
    r.push(("KC_ALTERNATE_ERASE", ""));
    r.push(("KC_SYSTEM_REQUEST", ""));
    r.push(("KC_CANCEL", ""));
    r.push(("KC_CLEAR", ""));
    r.push(("KC_PRIOR", ""));
    r.push(("KC_RETURN", ""));
    r.push(("KC_SEPARATOR", ""));
    r.push(("KC_OUT", ""));
    r.push(("KC_OPER", ""));
    r.push(("KC_CLEAR_AGAIN", ""));
    r.push(("KC_CRSEL", ""));
    r.push(("KC_EXSEL", ""));
    r.push(("KC_SYSTEM_POWER", ""));
    r.push(("KC_SYSTEM_SLEEP", ""));
    r.push(("KC_SYSTEM_WAKE", ""));
    r.push(("KC_AUDIO_MUTE", ""));
    r.push(("KC_AUDIO_VOL_UP", ""));
    r.push(("KC_AUDIO_VOL_DOWN", ""));
    r.push(("KC_MEDIA_NEXT_TRACK", ""));
    r.push(("KC_MEDIA_PREV_TRACK", ""));
    r.push(("KC_MEDIA_STOP", ""));
    r.push(("KC_MEDIA_PLAY_PAUSE", ""));
    r.push(("KC_MEDIA_SELECT", ""));
    r.push(("KC_MEDIA_EJECT", ""));
    r.push(("KC_MAIL", ""));
    r.push(("KC_CALCULATOR", ""));
    r.push(("KC_MY_COMPUTER", ""));
    r.push(("KC_WWW_SEARCH", ""));
    r.push(("KC_WWW_HOME", ""));
    r.push(("KC_WWW_BACK", ""));
    r.push(("KC_WWW_FORWARD", ""));
    r.push(("KC_WWW_STOP", ""));
    r.push(("KC_WWW_REFRESH", ""));
    r.push(("KC_WWW_FAVORITES", ""));
    r.push(("KC_MEDIA_FAST_FORWARD", ""));
    r.push(("KC_MEDIA_REWIND", ""));
    r.push(("KC_BRIGHTNESS_UP", ""));
    r.push(("KC_BRIGHTNESS_DOWN", ""));
    r.push(("KC_CONTROL_PANEL", ""));
    r.push(("KC_ASSISTANT", ""));
    r.push(("KC_MISSION_CONTROL", ""));
    r.push(("KC_LAUNCHPAD", ""));
    assert(r.deep_view() =~= display_pairs_d());
    r
}

/// The full display-name table, in its fixed order.
pub open spec fn spec_display_table() -> Seq<(Seq<char>, Seq<char>)> {
    display_pairs_a() + display_pairs_b() + display_pairs_c() + display_pairs_d()
}

/// The display name the table holds for a keycode, if it holds one.
pub open spec fn spec_display_name(key: Seq<char>) -> Option<Seq<char>> {
    match spec_view_find(spec_display_table(), key) {
        Some(i) => Some(spec_display_table()[i].1),
        None => None,
    }
}

/// The display-name table as keyed pairs, in its fixed order.
pub fn init_hashmap() -> (t: Vec<(&'static str, &'static str)>)
    ensures
        t.deep_view() == spec_display_table(),
{
    let mut t = table_a();
    let mut b = table_b();
    let mut c = table_c();
    let mut d = table_d();
    let ghost ta = t.deep_view();
    let ghost tb = b.deep_view();
    let ghost tc = c.deep_view();
    let ghost td = d.deep_view();
    t.append(&mut b);
    proof {
        assert forall|j: int| 0 <= j < t.deep_view().len() implies #[trigger] t.deep_view()[j] == (
        ta + tb)[j] by {
            assert(t.deep_view()[j] == t@[j].deep_view());
        }
        assert(t.deep_view() =~= ta + tb);
    }
    let ghost tab = t.deep_view();
    t.append(&mut c);
    proof {
        assert forall|j: int| 0 <= j < t.deep_view().len() implies #[trigger] t.deep_view()[j] == (
        tab + tc)[j] by {
            assert(t.deep_view()[j] == t@[j].deep_view());
        }
        assert(t.deep_view() =~= tab + tc);
    }
    let ghost tabc = t.deep_view();
    t.append(&mut d);
    proof {
        assert forall|j: int| 0 <= j < t.deep_view().len() implies #[trigger] t.deep_view()[j] == (
        tabc + td)[j] by {
            assert(t.deep_view()[j] == t@[j].deep_view());
        }
        assert(t.deep_view() =~= tabc + td);
        assert(t.deep_view() =~= spec_display_table());
    }
    t
}

/// The display name of a keycode: what the fixed table holds for it.
pub fn display_name(keycode: &str) -> (r: Option<&'static str>)
    ensures
        match r {
            Some(v) => spec_display_name(keycode@) == Some(v@),
            None => spec_display_name(keycode@) is None,
        },
{
    let table = init_hashmap();
    let ghost tv = table.deep_view();
    proof {
        assert forall|j: int| 0 <= j < tv.len() implies #[trigger] tv[j] == (
            table@[j].0@,
            table@[j].1@,
        ) by {
            assert(tv[j] == table@[j].deep_view());
        }
    }
    let mut i: usize = 0;
    #[verifier::loop_isolation(false)]
    while i < table.len()
        invariant
            i <= table.len(),
            forall|j: int| 0 <= j < i ==> (#[trigger] tv[j]).0 != keycode@,
        decreases table.len() - i,
    {
        if crate::str_eq(table[i].0, keycode) {
            proof {
                crate::qmk::constants::lemma_view_find(tv, keycode@, i as int);
            }
            return Some(table[i].1);
        }
        i += 1;
    }
    proof {
        crate::qmk::constants::lemma_view_find(tv, keycode@, tv.len() as int);
    }
    None
}

} // verus!
