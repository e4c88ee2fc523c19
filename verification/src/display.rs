//! Human-readable rendering of keys: modifiers in canonical order
//! (Ctrl, Alt, Shift, Super), each capitalized and joined with `'+'`, then
//! the base key — an uppercased character, a named key, an arrow glyph for
//! the four directions, or `F(n)` for a function key.

use vstd::prelude::*;
use vstd::string::StringExecFns;
use crate::chars::{upper, upper_char, dec_digits, push_decimal, string_push};
use crate::keys::{BaseKey, Modifiers, KeyRecord};

verus! {

/// The display form of a base key.
pub open spec fn spec_base_display(b: BaseKey) -> Seq<char> {
    match b {
        BaseKey::Char(c) => seq![upper(c)],
        BaseKey::Enter => "Enter"@,
        BaseKey::Esc => "Esc"@,
        BaseKey::Backspace => "Backspace"@,
        BaseKey::Delete => "Delete"@,
        BaseKey::Up => "↑"@,
        BaseKey::Down => "↓"@,
        BaseKey::Left => "←"@,
        BaseKey::Right => "→"@,
        BaseKey::Tab => "Tab"@,
        BaseKey::Home => "Home"@,
        BaseKey::End => "End"@,
        BaseKey::PageUp => "PageUp"@,
        BaseKey::PageDown => "PageDown"@,
        BaseKey::Insert => "Insert"@,
        BaseKey::F(n) => "F("@ + dec_digits(n as nat) + ")"@,
    }
}

/// The display prefix contributed by the modifiers, in canonical order.
pub open spec fn spec_mods_display(m: Modifiers) -> Seq<char> {
    (if m.ctrl {
        "Ctrl+"@
    } else {
        Seq::<char>::empty()
    }) + (if m.alt {
        "Alt+"@
    } else {
        Seq::<char>::empty()
    }) + (if m.shift {
        "Shift+"@
    } else {
        Seq::<char>::empty()
    }) + (if m.super_key {
        "Super+"@
    } else {
        Seq::<char>::empty()
    })
}

/// The full display form of a key.
pub open spec fn spec_display(k: KeyRecord) -> Seq<char> {
    spec_mods_display(k.mods) + spec_base_display(k.base)
}

/// Render a key combination for display, such as `"Ctrl+P"` or `"Enter"`.
pub fn format_key_for_display(key: &KeyRecord) -> (r: String)
    ensures
        r@ == spec_display(*key),
{
    let mut s = String::new();
    if key.mods.ctrl {
        s.append("Ctrl+");
    }
    if key.mods.alt {
        s.append("Alt+");
    }
    if key.mods.shift {
        s.append("Shift+");
    }
    if key.mods.super_key {
        s.append("Super+");
    }
    proof {
        assert(s@ =~= spec_mods_display(key.mods));
    }
    match key.base {
        BaseKey::Char(c) => {
            string_push(&mut s, upper_char(c));
            proof {
                assert(s@ =~= spec_display(*key));
            }
        },
        BaseKey::Enter => s.append("Enter"),
        BaseKey::Esc => s.append("Esc"),
        BaseKey::Backspace => s.append("Backspace"),
        BaseKey::Delete => s.append("Delete"),
        BaseKey::Up => s.append("↑"),
        BaseKey::Down => s.append("↓"),
        BaseKey::Left => s.append("←"),
        BaseKey::Right => s.append("→"),
        BaseKey::Tab => s.append("Tab"),
        BaseKey::Home => s.append("Home"),
        BaseKey::End => s.append("End"),
        BaseKey::PageUp => s.append("PageUp"),
        BaseKey::PageDown => s.append("PageDown"),
        BaseKey::Insert => s.append("Insert"),
        BaseKey::F(n) => {
            s.append("F(");
            push_decimal(&mut s, n as u32);
            s.append(")");
            proof {
                assert(s@ =~= spec_display(*key));
            }
        },
    }
    s
}

} // verus!
