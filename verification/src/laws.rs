//! The crate's cross-cutting laws, stated and proved over the grammar and
//! display specification functions: parsing a single character is
//! insensitive to ASCII case, and the canonical display form of a named key
//! re-parses to the same key record.

use vstd::prelude::*;
use crate::chars::{lower, is_space, is_ascii_char};
use crate::keys::{BaseKey, Modifiers, KeyRecord};
use crate::parse::{spec_parse_one, spec_parse_token, spec_base_of, trim_of,
    eq_ci, is_plus, lemma_find_plus_none, lemma_find_plus_at,
    lemma_trim_front_range, lemma_trim_back_range};
use crate::display::{spec_display, spec_base_display};

verus! {

/// A single ASCII letter parses to its lowercased character key.
proof fn lemma_parse_one_letter(c: char)
    requires
        ('A' <= c && c <= 'Z') || ('a' <= c && c <= 'z'),
    ensures
        spec_parse_one(seq![c]) == Ok::<KeyRecord, crate::parse::SpecParseError>(
            KeyRecord { base: BaseKey::Char(lower(c)), mods: Modifiers::empty() },
        ),
{
    reveal_strlit("enter");
    reveal_strlit("esc");
    reveal_strlit("escape");
    reveal_strlit("backspace");
    reveal_strlit("delete");
    reveal_strlit("del");
    reveal_strlit("up");
    reveal_strlit("down");
    reveal_strlit("left");
    reveal_strlit("right");
    reveal_strlit("tab");
    reveal_strlit("space");
    reveal_strlit("home");
    reveal_strlit("end");
    reveal_strlit("pageup");
    reveal_strlit("pagedown");
    reveal_strlit("insert");
    reveal_strlit("f1");
    reveal_strlit("f2");
    reveal_strlit("f3");
    reveal_strlit("f4");
    reveal_strlit("f5");
    reveal_strlit("f6");
    reveal_strlit("f7");
    reveal_strlit("f8");
    reveal_strlit("f9");
    reveal_strlit("f10");
    reveal_strlit("f11");
    reveal_strlit("f12");
    assert("enter"@.len() == 5);
    assert("esc"@.len() == 3);
    assert("escape"@.len() == 6);
    assert("backspace"@.len() == 9);
    assert("delete"@.len() == 6);
    assert("del"@.len() == 3);
    assert("up"@.len() == 2);
    assert("down"@.len() == 4);
    assert("left"@.len() == 4);
    assert("right"@.len() == 5);
    assert("tab"@.len() == 3);
    assert("space"@.len() == 5);
    assert("home"@.len() == 4);
    assert("end"@.len() == 3);
    assert("pageup"@.len() == 6);
    assert("pagedown"@.len() == 8);
    assert("insert"@.len() == 6);
    assert("f1"@.len() == 2);
    assert("f2"@.len() == 2);
    assert("f3"@.len() == 2);
    assert("f4"@.len() == 2);
    assert("f5"@.len() == 2);
    assert("f6"@.len() == 2);
    assert("f7"@.len() == 2);
    assert("f8"@.len() == 2);
    assert("f9"@.len() == 2);
    assert("f10"@.len() == 3);
    assert("f11"@.len() == 3);
    assert("f12"@.len() == 3);
    let s = seq![c];
    assert(!is_space(c));
    lemma_trim_front_range(s, 0);
    lemma_trim_back_range(s, 1);
    assert(trim_of(s) =~= s);
    assert(trim_of(s) == s);
    assert(forall|i: int| 0 <= i < s.len() ==> !is_plus(s[i]));
    lemma_find_plus_none(s);
    assert(is_ascii_char(c));
    assert(spec_base_of(s) == Ok::<BaseKey, crate::parse::SpecParseError>(BaseKey::Char(lower(c))));
}

/// Single-character key specifications are case folded: a character and its
/// ASCII lowercase form parse identically.
pub proof fn lemma_parse_case_insensitive(c: char)
    ensures
        spec_parse_one(seq![c]) == spec_parse_one(seq![lower(c)]),
{
    if 'A' <= c && c <= 'Z' {
        lemma_parse_one_letter(c);
        assert('a' <= lower(c) && lower(c) <= 'z');
        lemma_parse_one_letter(lower(c));
        assert(lower(lower(c)) == lower(c));
    } else {
        assert(lower(c) == c);
        assert(seq![c] =~= seq![lower(c)]);
    }
}

/// A leading `"Ctrl+"` in a token sets the ctrl modifier and leaves the
/// rest of the token to parse.
proof fn lemma_parse_prefix_ctrl(t: Seq<char>, m: Modifiers)
    ensures
        spec_parse_token("Ctrl+"@ + t, m) == spec_parse_token(t, Modifiers { ctrl: true, alt: m.alt, shift: m.shift, super_key: m.super_key }),
{
    reveal_strlit("Ctrl+");
    reveal_strlit("ctrl");
    assert("Ctrl+"@.len() == 5);
    assert("ctrl"@.len() == 4);
    let s = "Ctrl+"@ + t;
    assert(is_plus(s[4]));
    assert forall|i: int| 0 <= i < 4 implies !is_plus(s[i]) by {
        if i == 0 { } else if i == 1 { } else if i == 2 { } else if i == 3 { } else { }
    }
    lemma_find_plus_at(s, 4);
    let part = s.subrange(0, 4);
    assert forall|i: int| 0 <= i < 4 implies lower(part[i]) == lower("ctrl"@[i]) by {
        if i == 0 { } else if i == 1 { } else if i == 2 { } else if i == 3 { } else { }
    }
    assert(eq_ci(part, "ctrl"@));
    assert(s.subrange(5, s.len() as int) =~= t);
}

/// A leading `"Alt+"` in a token sets the alt modifier and leaves the
/// rest of the token to parse.
proof fn lemma_parse_prefix_alt(t: Seq<char>, m: Modifiers)
    ensures
        spec_parse_token("Alt+"@ + t, m) == spec_parse_token(t, Modifiers { ctrl: m.ctrl, alt: true, shift: m.shift, super_key: m.super_key }),
{
    reveal_strlit("Alt+");
    reveal_strlit("alt");
    assert("Alt+"@.len() == 4);
    assert("alt"@.len() == 3);
    reveal_strlit("ctrl");
    assert("ctrl"@.len() == 4);
    let s = "Alt+"@ + t;
    assert(is_plus(s[3]));
    assert forall|i: int| 0 <= i < 3 implies !is_plus(s[i]) by {
        if i == 0 { } else if i == 1 { } else if i == 2 { } else { }
    }
    lemma_find_plus_at(s, 3);
    let part = s.subrange(0, 3);
    assert forall|i: int| 0 <= i < 3 implies lower(part[i]) == lower("alt"@[i]) by {
        if i == 0 { } else if i == 1 { } else if i == 2 { } else { }
    }
    assert(eq_ci(part, "alt"@));
    assert(s.subrange(4, s.len() as int) =~= t);
}

/// A leading `"Shift+"` in a token sets the shift modifier and leaves the
/// rest of the token to parse.
proof fn lemma_parse_prefix_shift(t: Seq<char>, m: Modifiers)
    ensures
        spec_parse_token("Shift+"@ + t, m) == spec_parse_token(t, Modifiers { ctrl: m.ctrl, alt: m.alt, shift: true, super_key: m.super_key }),
{
    reveal_strlit("Shift+");
    reveal_strlit("shift");
    assert("Shift+"@.len() == 6);
    assert("shift"@.len() == 5);
    reveal_strlit("ctrl");
    assert("ctrl"@.len() == 4);
    reveal_strlit("alt");
    assert("alt"@.len() == 3);
    let s = "Shift+"@ + t;
    assert(is_plus(s[5]));
    assert forall|i: int| 0 <= i < 5 implies !is_plus(s[i]) by {
        if i == 0 { } else if i == 1 { } else if i == 2 { } else if i == 3 { } else if i == 4 { } else { }
    }
    lemma_find_plus_at(s, 5);
    let part = s.subrange(0, 5);
    assert forall|i: int| 0 <= i < 5 implies lower(part[i]) == lower("shift"@[i]) by {
        if i == 0 { } else if i == 1 { } else if i == 2 { } else if i == 3 { } else if i == 4 { } else { }
    }
    assert(eq_ci(part, "shift"@));
    assert(s.subrange(6, s.len() as int) =~= t);
}

/// The display word of a named key is one parseable token: no `'+'`, no
/// whitespace at its edges, and its base key is the named key itself.
proof fn lemma_base_word(b: BaseKey, m: Modifiers)
    requires
        b == BaseKey::Enter || b == BaseKey::Esc || b == BaseKey::Backspace || b == BaseKey::Delete || b == BaseKey::Tab || b == BaseKey::Home || b == BaseKey::End || b == BaseKey::PageUp || b == BaseKey::PageDown || b == BaseKey::Insert,
    ensures
        spec_parse_token(spec_base_display(b), m) == Ok::<KeyRecord, crate::parse::SpecParseError>(
            KeyRecord { base: b, mods: m },
        ),
        spec_base_display(b).len() > 0,
        !is_space(spec_base_display(b)[0]),
        !is_space(spec_base_display(b)[spec_base_display(b).len() - 1]),
{
    reveal_strlit("enter");
    assert("enter"@.len() == 5);
    reveal_strlit("esc");
    assert("esc"@.len() == 3);
    reveal_strlit("escape");
    assert("escape"@.len() == 6);
    reveal_strlit("backspace");
    assert("backspace"@.len() == 9);
    reveal_strlit("delete");
    assert("delete"@.len() == 6);
    reveal_strlit("del");
    assert("del"@.len() == 3);
    reveal_strlit("up");
    assert("up"@.len() == 2);
    reveal_strlit("down");
    assert("down"@.len() == 4);
    reveal_strlit("left");
    assert("left"@.len() == 4);
    reveal_strlit("right");
    assert("right"@.len() == 5);
    reveal_strlit("tab");
    assert("tab"@.len() == 3);
    reveal_strlit("space");
    assert("space"@.len() == 5);
    reveal_strlit("home");
    assert("home"@.len() == 4);
    reveal_strlit("end");
    assert("end"@.len() == 3);
    reveal_strlit("pageup");
    assert("pageup"@.len() == 6);
    reveal_strlit("pagedown");
    assert("pagedown"@.len() == 8);
    reveal_strlit("insert");
    assert("insert"@.len() == 6);
    reveal_strlit("f1");
    assert("f1"@.len() == 2);
    reveal_strlit("f2");
    assert("f2"@.len() == 2);
    reveal_strlit("f3");
    assert("f3"@.len() == 2);
    reveal_strlit("f4");
    assert("f4"@.len() == 2);
    reveal_strlit("f5");
    assert("f5"@.len() == 2);
    reveal_strlit("f6");
    assert("f6"@.len() == 2);
    reveal_strlit("f7");
    assert("f7"@.len() == 2);
    reveal_strlit("f8");
    assert("f8"@.len() == 2);
    reveal_strlit("f9");
    assert("f9"@.len() == 2);
    reveal_strlit("f10");
    assert("f10"@.len() == 3);
    reveal_strlit("f11");
    assert("f11"@.len() == 3);
    reveal_strlit("f12");
    assert("f12"@.len() == 3);
    let w = spec_base_display(b);
    match b {
        BaseKey::Enter => {
            reveal_strlit("Enter");
            assert(w == "Enter"@);
            assert("Enter"@.len() == 5);
            assert forall|i: int| 0 <= i < w.len() implies !is_plus(w[i]) by {
                if i == 0 { } else if i == 1 { } else if i == 2 { } else if i == 3 { } else if i == 4 { } else { }
            }
            lemma_find_plus_none(w);
            assert(!is_space(w[0]));
            assert(!is_space(w[w.len() - 1]));
            assert forall|i: int| 0 <= i < 5 implies lower(w[i]) == lower("enter"@[i]) by {
                if i == 0 { } else if i == 1 { } else if i == 2 { } else if i == 3 { } else if i == 4 { } else { }
            }
            assert(eq_ci(w, "enter"@));
            assert(spec_base_of(w) == Ok::<BaseKey, crate::parse::SpecParseError>(BaseKey::Enter));
        },
        BaseKey::Esc => {
            reveal_strlit("Esc");
            assert(w == "Esc"@);
            assert("Esc"@.len() == 3);
            assert forall|i: int| 0 <= i < w.len() implies !is_plus(w[i]) by {
                if i == 0 { } else if i == 1 { } else if i == 2 { } else { }
            }
            lemma_find_plus_none(w);
            assert(!is_space(w[0]));
            assert(!is_space(w[w.len() - 1]));
            assert forall|i: int| 0 <= i < 3 implies lower(w[i]) == lower("esc"@[i]) by {
                if i == 0 { } else if i == 1 { } else if i == 2 { } else { }
            }
            assert(eq_ci(w, "esc"@));
            assert(spec_base_of(w) == Ok::<BaseKey, crate::parse::SpecParseError>(BaseKey::Esc));
        },
        BaseKey::Backspace => {
            reveal_strlit("Backspace");
            assert(w == "Backspace"@);
            assert("Backspace"@.len() == 9);
            assert forall|i: int| 0 <= i < w.len() implies !is_plus(w[i]) by {
                if i == 0 { } else if i == 1 { } else if i == 2 { } else if i == 3 { } else if i == 4 { } else if i == 5 { } else if i == 6 { } else if i == 7 { } else if i == 8 { } else { }
            }
            lemma_find_plus_none(w);
            assert(!is_space(w[0]));
            assert(!is_space(w[w.len() - 1]));
            assert forall|i: int| 0 <= i < 9 implies lower(w[i]) == lower("backspace"@[i]) by {
                if i == 0 { } else if i == 1 { } else if i == 2 { } else if i == 3 { } else if i == 4 { } else if i == 5 { } else if i == 6 { } else if i == 7 { } else if i == 8 { } else { }
            }
            assert(eq_ci(w, "backspace"@));
            assert(spec_base_of(w) == Ok::<BaseKey, crate::parse::SpecParseError>(BaseKey::Backspace));
        },
        BaseKey::Delete => {
            reveal_strlit("Delete");
            assert(w == "Delete"@);
            assert("Delete"@.len() == 6);
            assert forall|i: int| 0 <= i < w.len() implies !is_plus(w[i]) by {
                if i == 0 { } else if i == 1 { } else if i == 2 { } else if i == 3 { } else if i == 4 { } else if i == 5 { } else { }
            }
            lemma_find_plus_none(w);
            assert(!is_space(w[0]));
            assert(!is_space(w[w.len() - 1]));
            assert forall|i: int| 0 <= i < 6 implies lower(w[i]) == lower("delete"@[i]) by {
                if i == 0 { } else if i == 1 { } else if i == 2 { } else if i == 3 { } else if i == 4 { } else if i == 5 { } else { }
            }
            assert(eq_ci(w, "delete"@));
            assert(!eq_ci(w, "escape"@)) by {
                assert(lower(w[0]) != lower("escape"@[0]) || lower(w[1]) != lower("escape"@[1]));
            }
            assert(spec_base_of(w) == Ok::<BaseKey, crate::parse::SpecParseError>(BaseKey::Delete));
        },
        BaseKey::Tab => {
            reveal_strlit("Tab");
            assert(w == "Tab"@);
            assert("Tab"@.len() == 3);
            assert forall|i: int| 0 <= i < w.len() implies !is_plus(w[i]) by {
                if i == 0 { } else if i == 1 { } else if i == 2 { } else { }
            }
            lemma_find_plus_none(w);
            assert(!is_space(w[0]));
            assert(!is_space(w[w.len() - 1]));
            assert forall|i: int| 0 <= i < 3 implies lower(w[i]) == lower("tab"@[i]) by {
                if i == 0 { } else if i == 1 { } else if i == 2 { } else { }
            }
            assert(eq_ci(w, "tab"@));
            assert(!eq_ci(w, "esc"@)) by {
                assert(lower(w[0]) != lower("esc"@[0]) || lower(w[1]) != lower("esc"@[1]));
            }
            assert(!eq_ci(w, "del"@)) by {
                assert(lower(w[0]) != lower("del"@[0]) || lower(w[1]) != lower("del"@[1]));
            }
            assert(spec_base_of(w) == Ok::<BaseKey, crate::parse::SpecParseError>(BaseKey::Tab));
        },
        BaseKey::Home => {
            reveal_strlit("Home");
            assert(w == "Home"@);
            assert("Home"@.len() == 4);
            assert forall|i: int| 0 <= i < w.len() implies !is_plus(w[i]) by {
                if i == 0 { } else if i == 1 { } else if i == 2 { } else if i == 3 { } else { }
            }
            lemma_find_plus_none(w);
            assert(!is_space(w[0]));
            assert(!is_space(w[w.len() - 1]));
            assert forall|i: int| 0 <= i < 4 implies lower(w[i]) == lower("home"@[i]) by {
                if i == 0 { } else if i == 1 { } else if i == 2 { } else if i == 3 { } else { }
            }
            assert(eq_ci(w, "home"@));
            assert(!eq_ci(w, "down"@)) by {
                assert(lower(w[0]) != lower("down"@[0]) || lower(w[1]) != lower("down"@[1]));
            }
            assert(!eq_ci(w, "left"@)) by {
                assert(lower(w[0]) != lower("left"@[0]) || lower(w[1]) != lower("left"@[1]));
            }
            assert(spec_base_of(w) == Ok::<BaseKey, crate::parse::SpecParseError>(BaseKey::Home));
        },
        BaseKey::End => {
            reveal_strlit("End");
            assert(w == "End"@);
            assert("End"@.len() == 3);
            assert forall|i: int| 0 <= i < w.len() implies !is_plus(w[i]) by {
                if i == 0 { } else if i == 1 { } else if i == 2 { } else { }
            }
            lemma_find_plus_none(w);
            assert(!is_space(w[0]));
            assert(!is_space(w[w.len() - 1]));
            assert forall|i: int| 0 <= i < 3 implies lower(w[i]) == lower("end"@[i]) by {
                if i == 0 { } else if i == 1 { } else if i == 2 { } else { }
            }
            assert(eq_ci(w, "end"@));
            assert(!eq_ci(w, "esc"@)) by {
                assert(lower(w[0]) != lower("esc"@[0]) || lower(w[1]) != lower("esc"@[1]));
            }
            assert(!eq_ci(w, "del"@)) by {
                assert(lower(w[0]) != lower("del"@[0]) || lower(w[1]) != lower("del"@[1]));
            }
            assert(!eq_ci(w, "tab"@)) by {
                assert(lower(w[0]) != lower("tab"@[0]) || lower(w[1]) != lower("tab"@[1]));
            }
            assert(spec_base_of(w) == Ok::<BaseKey, crate::parse::SpecParseError>(BaseKey::End));
        },
        BaseKey::PageUp => {
            reveal_strlit("PageUp");
            assert(w == "PageUp"@);
            assert("PageUp"@.len() == 6);
            assert forall|i: int| 0 <= i < w.len() implies !is_plus(w[i]) by {
                if i == 0 { } else if i == 1 { } else if i == 2 { } else if i == 3 { } else if i == 4 { } else if i == 5 { } else { }
            }
            lemma_find_plus_none(w);
            assert(!is_space(w[0]));
            assert(!is_space(w[w.len() - 1]));
            assert forall|i: int| 0 <= i < 6 implies lower(w[i]) == lower("pageup"@[i]) by {
                if i == 0 { } else if i == 1 { } else if i == 2 { } else if i == 3 { } else if i == 4 { } else if i == 5 { } else { }
            }
            assert(eq_ci(w, "pageup"@));
            assert(!eq_ci(w, "escape"@)) by {
                assert(lower(w[0]) != lower("escape"@[0]) || lower(w[1]) != lower("escape"@[1]));
            }
            assert(!eq_ci(w, "delete"@)) by {
                assert(lower(w[0]) != lower("delete"@[0]) || lower(w[1]) != lower("delete"@[1]));
            }
            assert(spec_base_of(w) == Ok::<BaseKey, crate::parse::SpecParseError>(BaseKey::PageUp));
        },
        BaseKey::PageDown => {
            reveal_strlit("PageDown");
            assert(w == "PageDown"@);
            assert("PageDown"@.len() == 8);
            assert forall|i: int| 0 <= i < w.len() implies !is_plus(w[i]) by {
                if i == 0 { } else if i == 1 { } else if i == 2 { } else if i == 3 { } else if i == 4 { } else if i == 5 { } else if i == 6 { } else if i == 7 { } else { }
            }
            lemma_find_plus_none(w);
            assert(!is_space(w[0]));
            assert(!is_space(w[w.len() - 1]));
            assert forall|i: int| 0 <= i < 8 implies lower(w[i]) == lower("pagedown"@[i]) by {
                if i == 0 { } else if i == 1 { } else if i == 2 { } else if i == 3 { } else if i == 4 { } else if i == 5 { } else if i == 6 { } else if i == 7 { } else { }
            }
            assert(eq_ci(w, "pagedown"@));
            assert(spec_base_of(w) == Ok::<BaseKey, crate::parse::SpecParseError>(BaseKey::PageDown));
        },
        BaseKey::Insert => {
            reveal_strlit("Insert");
            assert(w == "Insert"@);
            assert("Insert"@.len() == 6);
            assert forall|i: int| 0 <= i < w.len() implies !is_plus(w[i]) by {
                if i == 0 { } else if i == 1 { } else if i == 2 { } else if i == 3 { } else if i == 4 { } else if i == 5 { } else { }
            }
            lemma_find_plus_none(w);
            assert(!is_space(w[0]));
            assert(!is_space(w[w.len() - 1]));
            assert forall|i: int| 0 <= i < 6 implies lower(w[i]) == lower("insert"@[i]) by {
                if i == 0 { } else if i == 1 { } else if i == 2 { } else if i == 3 { } else if i == 4 { } else if i == 5 { } else { }
            }
            assert(eq_ci(w, "insert"@));
            assert(!eq_ci(w, "escape"@)) by {
                assert(lower(w[0]) != lower("escape"@[0]) || lower(w[1]) != lower("escape"@[1]));
            }
            assert(!eq_ci(w, "delete"@)) by {
                assert(lower(w[0]) != lower("delete"@[0]) || lower(w[1]) != lower("delete"@[1]));
            }
            assert(!eq_ci(w, "pageup"@)) by {
                assert(lower(w[0]) != lower("pageup"@[0]) || lower(w[1]) != lower("pageup"@[1]));
            }
            assert(spec_base_of(w) == Ok::<BaseKey, crate::parse::SpecParseError>(BaseKey::Insert));
        },
        _ => { },
    }
}

/// Re-parsing the canonical display form of a named key yields the same
/// key record, for every named key whose display form is in the parser's
/// vocabulary and every modifier set the grammar can express (the four
/// arrows display as glyphs outside the vocabulary, function keys as
/// `F(n)`, and `super` has no spelling in the grammar; those stay out).
pub proof fn lemma_named_display_round_trip(k: KeyRecord)
    requires
        !k.mods.super_key,
        k.base == BaseKey::Enter || k.base == BaseKey::Esc || k.base == BaseKey::Backspace
            || k.base == BaseKey::Delete || k.base == BaseKey::Tab || k.base == BaseKey::Home
            || k.base == BaseKey::End || k.base == BaseKey::PageUp || k.base == BaseKey::PageDown
            || k.base == BaseKey::Insert,
    ensures
        spec_parse_one(spec_display(k)) == Ok::<KeyRecord, crate::parse::SpecParseError>(k),
{
    reveal_strlit("Ctrl+");
    reveal_strlit("Alt+");
    reveal_strlit("Shift+");
    assert("Ctrl+"@.len() == 5);
    assert("Alt+"@.len() == 4);
    assert("Shift+"@.len() == 6);
    let s = spec_display(k);
    let w = spec_base_display(k.base);
    let m0 = Modifiers::empty();
    lemma_base_word(k.base, k.mods);
    let s2 = (if k.mods.shift { "Shift+"@ } else { Seq::<char>::empty() }) + w;
    let s1 = (if k.mods.alt { "Alt+"@ } else { Seq::<char>::empty() }) + s2;
    assert(s =~= (if k.mods.ctrl { "Ctrl+"@ } else { Seq::<char>::empty() }) + s1);
    let m1 = Modifiers { ctrl: k.mods.ctrl, alt: false, shift: false, super_key: false };
    if k.mods.ctrl {
        lemma_parse_prefix_ctrl(s1, m0);
        assert(spec_parse_token(s, m0) == spec_parse_token(s1, m1));
    } else {
        assert(s =~= s1);
        assert(m1 == m0);
    }
    let m2 = Modifiers { ctrl: k.mods.ctrl, alt: k.mods.alt, shift: false, super_key: false };
    if k.mods.alt {
        lemma_parse_prefix_alt(s2, m1);
        assert(spec_parse_token(s1, m1) == spec_parse_token(s2, m2));
    } else {
        assert(s1 =~= s2);
        assert(m2 == m1);
    }
    if k.mods.shift {
        lemma_parse_prefix_shift(w, m2);
        assert(spec_parse_token(s2, m2) == spec_parse_token(w, k.mods));
    } else {
        assert(s2 =~= w);
        assert(m2 == k.mods);
    }
    assert(spec_parse_token(s, m0) == Ok::<KeyRecord, crate::parse::SpecParseError>(k));
    assert(s.len() > 0);
    assert(!is_space(s[0]));
    assert(!is_space(s[s.len() - 1]));
    lemma_trim_front_range(s, 0);
    lemma_trim_back_range(s, s.len() as int);
    assert(trim_of(s) =~= s);
    assert(trim_of(s) == s);
}

} // verus!
