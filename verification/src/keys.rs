//! The key data model: a base key plus a set of modifiers.

use vstd::prelude::*;

verus! {

/// The non-modifier identity of a keypress: a character or a named
/// special key.
#[derive(Clone, Copy, Debug, PartialEq, Eq, Structural)]
pub enum BaseKey {
    Char(char),
    Enter,
    Esc,
    Backspace,
    Delete,
    Up,
    Down,
    Left,
    Right,
    Tab,
    Home,
    End,
    PageUp,
    PageDown,
    Insert,
    F(u8),
}

/// The set of modifiers held with a base key.
#[derive(Clone, Copy, Debug, PartialEq, Eq, Structural)]
pub struct Modifiers {
    pub ctrl: bool,
    pub alt: bool,
    pub shift: bool,
    pub super_key: bool,
}

impl Modifiers {
    /// The empty modifier set.
    pub fn none() -> (r: Modifiers)
        ensures
            r == Modifiers::empty(),
    {
        Modifiers { ctrl: false, alt: false, shift: false, super_key: false }
    }

    pub open spec fn empty() -> Modifiers {
        Modifiers { ctrl: false, alt: false, shift: false, super_key: false }
    }

    pub open spec fn is_empty(self) -> bool {
        self == Modifiers::empty()
    }
}

/// A structured key: base key plus modifier set. Equality is structural.
#[derive(Clone, Copy, Debug, PartialEq, Eq, Structural)]
pub struct KeyRecord {
    pub base: BaseKey,
    pub mods: Modifiers,
}

/// A key without modifiers.
pub fn key_from_bare(base: BaseKey) -> (r: KeyRecord)
    ensures
        r == (KeyRecord { base, mods: Modifiers::empty() }),
{
    KeyRecord { base, mods: Modifiers::none() }
}

/// A character key with only the Ctrl modifier held.
pub fn key_with_ctrl(c: char) -> (r: KeyRecord)
    ensures
        r == (KeyRecord {
            base: BaseKey::Char(c),
            mods: Modifiers { ctrl: true, alt: false, shift: false, super_key: false },
        }),
{
    KeyRecord {
        base: BaseKey::Char(c),
        mods: Modifiers { ctrl: true, alt: false, shift: false, super_key: false },
    }
}

/// Structural key equality.
pub fn keys_equal(a: &KeyRecord, b: &KeyRecord) -> (r: bool)
    ensures
        r == (a == b),
{
    a.base == b.base && a.mods == b.mods
}

} // verus!
