//! The binding table: an ordered list of (key, action) pairs. Lookup is
//! first-match over that list; a bare character with no modifiers that
//! matches nothing falls back to `CharacterInput`. The keys bound to an
//! action are the grouping-by-action of the ordered list, in binding order.

use vstd::prelude::*;
use vstd::string::StringExecFns;
use crate::keys::{BaseKey, Modifiers, KeyRecord, keys_equal, key_from_bare, key_with_ctrl};
use crate::display::{spec_display, format_key_for_display};

verus! {

/// An abstract application action a key can be bound to.
#[derive(Clone, Copy, Debug, PartialEq, Eq, Structural)]
pub enum KeyAction {
    MoveUp,
    MoveDown,
    Select,
    DeleteSession,
    Exit,
    ClearSearch,
    Confirm,
    Cancel,
    LaunchFilepicker,
    ClearFolder,
    CorrectName,
    /// A bare character that no explicit binding claimed.
    CharacterInput(char),
    /// The raw backspace key.
    Backspace,
}

/// One table entry.
pub type Binding = (KeyRecord, KeyAction);

/// First-match lookup over the ordered binding list.
pub open spec fn spec_lookup(bs: Seq<Binding>, key: KeyRecord) -> Option<KeyAction>
    decreases bs.len(),
{
    if bs.len() == 0 {
        None
    } else if bs[0].0 == key {
        Some(bs[0].1)
    } else {
        spec_lookup(bs.drop_first(), key)
    }
}

/// The character-input fallback: a bare character with no modifiers, other
/// than newline, is its own input; anything else resolves to nothing.
pub open spec fn spec_fallback(key: KeyRecord) -> Option<KeyAction> {
    match key.base {
        BaseKey::Char(c) => if key.mods == Modifiers::empty() && c != '\n' {
            Some(KeyAction::CharacterInput(c))
        } else {
            None
        },
        _ => None,
    }
}

/// What a keypress resolves to: the explicit table first, the character
/// fallback second, in that fixed order.
pub open spec fn spec_get_action(bs: Seq<Binding>, key: KeyRecord) -> Option<KeyAction> {
    match spec_lookup(bs, key) {
        Some(a) => Some(a),
        None => spec_fallback(key),
    }
}

/// The binding list without any pair of the given action.
pub open spec fn spec_clear(bs: Seq<Binding>, action: KeyAction) -> Seq<Binding>
    decreases bs.len(),
{
    if bs.len() == 0 {
        Seq::empty()
    } else {
        let rest = spec_clear(bs.drop_first(), action);
        if bs[0].1 == action {
            rest
        } else {
            seq![bs[0]] + rest
        }
    }
}

/// The keys bound to an action, in binding order.
pub open spec fn spec_keys_for(bs: Seq<Binding>, action: KeyAction) -> Seq<KeyRecord>
    decreases bs.len(),
{
    if bs.len() == 0 {
        Seq::empty()
    } else {
        let rest = spec_keys_for(bs.drop_first(), action);
        if bs[0].1 == action {
            seq![bs[0].0] + rest
        } else {
            rest
        }
    }
}

/// The binding list after appending each key for the action, in order.
pub open spec fn spec_add_all(bs: Seq<Binding>, action: KeyAction, keys: Seq<KeyRecord>) -> Seq<
    Binding,
>
    decreases keys.len(),
{
    if keys.len() == 0 {
        bs
    } else {
        spec_add_all(bs.push((keys[0], action)), action, keys.drop_first())
    }
}

/// A full replace of an action's keys: clear, then add each.
pub open spec fn spec_with_keys(bs: Seq<Binding>, action: KeyAction, keys: Seq<KeyRecord>) -> Seq<
    Binding,
> {
    spec_add_all(spec_clear(bs, action), action, keys)
}

/// The fixed default binding set.
pub open spec fn spec_default_bindings() -> Seq<Binding> {
    seq![
        (KeyRecord { base: BaseKey::Up, mods: Modifiers::empty() }, KeyAction::MoveUp),
        (
            KeyRecord {
                base: BaseKey::Char('p'),
                mods: Modifiers { ctrl: true, alt: false, shift: false, super_key: false },
            },
            KeyAction::MoveUp,
        ),
        (KeyRecord { base: BaseKey::Down, mods: Modifiers::empty() }, KeyAction::MoveDown),
        (
            KeyRecord {
                base: BaseKey::Char('n'),
                mods: Modifiers { ctrl: true, alt: false, shift: false, super_key: false },
            },
            KeyAction::MoveDown,
        ),
        (KeyRecord { base: BaseKey::Enter, mods: Modifiers::empty() }, KeyAction::Select),
        (KeyRecord { base: BaseKey::Delete, mods: Modifiers::empty() }, KeyAction::DeleteSession),
        (KeyRecord { base: BaseKey::Esc, mods: Modifiers::empty() }, KeyAction::ClearSearch),
        (
            KeyRecord {
                base: BaseKey::Char('c'),
                mods: Modifiers { ctrl: true, alt: false, shift: false, super_key: false },
            },
            KeyAction::Exit,
        ),
        (KeyRecord { base: BaseKey::Backspace, mods: Modifiers::empty() }, KeyAction::Backspace),
        (KeyRecord { base: BaseKey::Enter, mods: Modifiers::empty() }, KeyAction::Confirm),
        (KeyRecord { base: BaseKey::Esc, mods: Modifiers::empty() }, KeyAction::Cancel),
        (
            KeyRecord {
                base: BaseKey::Char('f'),
                mods: Modifiers { ctrl: true, alt: false, shift: false, super_key: false },
            },
            KeyAction::LaunchFilepicker,
        ),
        (
            KeyRecord {
                base: BaseKey::Char('c'),
                mods: Modifiers { ctrl: true, alt: false, shift: false, super_key: false },
            },
            KeyAction::ClearFolder,
        ),
        (
            KeyRecord {
                base: BaseKey::Char('r'),
                mods: Modifiers { ctrl: true, alt: false, shift: false, super_key: false },
            },
            KeyAction::CorrectName,
        ),
    ]
}

/// The display form of a key list: each key's display joined with `'/'`,
/// or the literal `"None"` when the list is empty.
pub open spec fn spec_join_tail(keys: Seq<KeyRecord>) -> Seq<char>
    decreases keys.len(),
{
    if keys.len() == 0 {
        Seq::empty()
    } else {
        "/"@ + spec_display(keys[0]) + spec_join_tail(keys.drop_first())
    }
}

pub open spec fn spec_format_keys(keys: Seq<KeyRecord>) -> Seq<char> {
    if keys.len() == 0 {
        "None"@
    } else {
        spec_display(keys[0]) + spec_join_tail(keys.drop_first())
    }
}

/// Clearing an action leaves it with no keys.
proof fn lemma_keys_for_clear(bs: Seq<Binding>, action: KeyAction)
    ensures
        spec_keys_for(spec_clear(bs, action), action) == Seq::<KeyRecord>::empty(),
    decreases bs.len(),
{
    if bs.len() > 0 {
        lemma_keys_for_clear(bs.drop_first(), action);
        if bs[0].1 != action {
            let cleared = seq![bs[0]] + spec_clear(bs.drop_first(), action);
            assert(cleared.drop_first() =~= spec_clear(bs.drop_first(), action));
        }
    }
}

/// Clearing an action unbinds every key that was bound only to it.
proof fn lemma_lookup_clear_none(bs: Seq<Binding>, action: KeyAction, key: KeyRecord)
    requires
        forall|i: int| 0 <= i < bs.len() && (#[trigger] bs[i]).0 == key ==> bs[i].1 == action,
    ensures
        spec_lookup(spec_clear(bs, action), key) is None,
    decreases bs.len(),
{
    if bs.len() > 0 {
        let rest = bs.drop_first();
        assert(forall|i: int| 0 <= i < rest.len() ==> rest[i] == bs[i + 1]);
        lemma_lookup_clear_none(rest, action, key);
        if bs[0].1 != action {
            assert(bs[0].0 != key);
            let cleared = seq![bs[0]] + spec_clear(rest, action);
            assert(cleared.drop_first() =~= spec_clear(rest, action));
        }
    }
}

/// Replacing an action's keys by the empty list unbinds it wholly: the
/// action then resolves to no keys, and any key previously bound only to
/// that action falls through to the character-input fallback, or to
/// nothing.
pub proof fn lemma_set_keys_empty_unbinds(bs: Seq<Binding>, action: KeyAction, key: KeyRecord)
    requires
        forall|i: int| 0 <= i < bs.len() && (#[trigger] bs[i]).0 == key ==> bs[i].1 == action,
    ensures
        spec_keys_for(spec_with_keys(bs, action, Seq::empty()), action) == Seq::<
            KeyRecord,
        >::empty(),
        spec_get_action(spec_with_keys(bs, action, Seq::empty()), key) == spec_fallback(key),
{
    assert(spec_with_keys(bs, action, Seq::empty()) == spec_clear(bs, action));
    lemma_keys_for_clear(bs, action);
    lemma_lookup_clear_none(bs, action, key);
}

/// The binding table: the ordered (key, action) list. The keys of an action
/// are derived from it by `spec_keys_for`, so list and grouping can never
/// fall out of sync.
#[derive(Debug, Clone)]
pub struct KeybindManager {
    bindings: Vec<Binding>,
}

impl View for KeybindManager {
    type V = Seq<Binding>;

    closed spec fn view(&self) -> Seq<Binding> {
        self.bindings@
    }
}

impl KeybindManager {
    /// A table pre-populated with the fixed default binding set.
    pub fn new() -> (r: KeybindManager)
        ensures
            r@ == spec_default_bindings(),
    {
        let mut manager = KeybindManager { bindings: Vec::new() };
        manager.set_defaults();
        proof {
            assert(manager@ =~= spec_default_bindings());
        }
        manager
    }

    /// Append the default bindings.
    fn set_defaults(&mut self)
        ensures
            final(self)@ == old(self)@ + spec_default_bindings(),
    {
        self.add_binding(KeyAction::MoveUp, key_from_bare(BaseKey::Up));
        self.add_binding(KeyAction::MoveUp, key_with_ctrl('p'));
        self.add_binding(KeyAction::MoveDown, key_from_bare(BaseKey::Down));
        self.add_binding(KeyAction::MoveDown, key_with_ctrl('n'));
        self.add_binding(KeyAction::Select, key_from_bare(BaseKey::Enter));
        self.add_binding(KeyAction::DeleteSession, key_from_bare(BaseKey::Delete));
        self.add_binding(KeyAction::ClearSearch, key_from_bare(BaseKey::Esc));
        self.add_binding(KeyAction::Exit, key_with_ctrl('c'));
        self.add_binding(KeyAction::Backspace, key_from_bare(BaseKey::Backspace));
        self.add_binding(KeyAction::Confirm, key_from_bare(BaseKey::Enter));
        self.add_binding(KeyAction::Cancel, key_from_bare(BaseKey::Esc));
        self.add_binding(KeyAction::LaunchFilepicker, key_with_ctrl('f'));
        self.add_binding(KeyAction::ClearFolder, key_with_ctrl('c'));
        self.add_binding(KeyAction::CorrectName, key_with_ctrl('r'));
        proof {
            assert(self@ =~= old(self)@ + spec_default_bindings());
        }
    }

    /// Append one binding. Duplicates are permitted and kept.
    pub fn add_binding(&mut self, action: KeyAction, key: KeyRecord)
        ensures
            final(self)@ == old(self)@.push((key, action)),
    {
        self.bindings.push((key, action));
    }

    /// Remove every binding of the action.
    pub fn clear_action(&mut self, action: KeyAction)
        ensures
            final(self)@ == spec_clear(old(self)@, action),
    {
        let ghost bs0 = self.bindings@;
        let mut kept: Vec<Binding> = Vec::new();
        let mut i: usize = 0;
        proof {
            assert(bs0.subrange(0, bs0.len() as int) =~= bs0);
        }
        while i < self.bindings.len()
            invariant
                i <= self.bindings@.len(),
                self.bindings@ == bs0,
                spec_clear(bs0, action) == kept@ + spec_clear(
                    bs0.subrange(i as int, bs0.len() as int),
                    action,
                ),
            decreases self.bindings@.len() - i,
        {
            let ghost rem = bs0.subrange(i as int, bs0.len() as int);
            proof {
                assert(rem.drop_first() =~= bs0.subrange(i + 1 as int, bs0.len() as int));
            }
            let pair = self.bindings[i];
            if !(pair.1 == action) {
                proof {
                    assert(kept@ + (seq![rem[0]] + spec_clear(rem.drop_first(), action)) =~= kept@.push(
                        rem[0],
                    ) + spec_clear(rem.drop_first(), action));
                }
                kept.push(pair);
            }
            i = i + 1;
        }
        proof {
            assert(bs0.subrange(bs0.len() as int, bs0.len() as int)
                =~= Seq::<Binding>::empty());
            assert(kept@ + Seq::<Binding>::empty() =~= kept@);
        }
        self.bindings = kept;
    }

    /// Replace the action's bindings wholesale: clear, then add each key.
    pub fn set_action_keys(&mut self, action: KeyAction, keys: Vec<KeyRecord>)
        ensures
            final(self)@ == spec_with_keys(old(self)@, action, keys@),
    {
        self.clear_action(action);
        let mut i: usize = 0;
        proof {
            assert(keys@.subrange(0, keys@.len() as int) =~= keys@);
        }
        while i < keys.len()
            invariant
                i <= keys@.len(),
                spec_with_keys(old(self)@, action, keys@) == spec_add_all(
                    self@,
                    action,
                    keys@.subrange(i as int, keys@.len() as int),
                ),
            decreases keys@.len() - i,
        {
            let ghost rem = keys@.subrange(i as int, keys@.len() as int);
            proof {
                assert(rem.drop_first() =~= keys@.subrange(i + 1 as int, keys@.len() as int));
            }
            self.add_binding(action, keys[i]);
            i = i + 1;
        }
        proof {
            assert(keys@.subrange(keys@.len() as int, keys@.len() as int)
                =~= Seq::<KeyRecord>::empty());
        }
    }

    /// The explicit binding of a key, if any: first match in binding order,
    /// no character fallback.
    pub fn lookup_binding(&self, key: &KeyRecord) -> (r: Option<KeyAction>)
        ensures
            r == spec_lookup(self@, *key),
    {
        let ghost bs = self.bindings@;
        let mut i: usize = 0;
        proof {
            assert(bs.subrange(0, bs.len() as int) =~= bs);
        }
        while i < self.bindings.len()
            invariant
                i <= bs.len(),
                self.bindings@ == bs,
                spec_lookup(bs, *key) == spec_lookup(
                    bs.subrange(i as int, bs.len() as int),
                    *key,
                ),
            decreases bs.len() - i,
        {
            let ghost rem = bs.subrange(i as int, bs.len() as int);
            proof {
                assert(rem.drop_first() =~= bs.subrange(i + 1 as int, bs.len() as int));
            }
            let pair = self.bindings[i];
            if keys_equal(&pair.0, key) {
                return Some(pair.1);
            }
            i = i + 1;
        }
        proof {
            assert(bs.subrange(bs.len() as int, bs.len() as int) =~= Seq::<Binding>::empty());
        }
        None
    }

    /// Resolve a keypress: the explicit table first (first match wins), then
    /// the character-input fallback, then nothing.
    pub fn get_action(&self, key: &KeyRecord) -> (r: Option<KeyAction>)
        ensures
            r == spec_get_action(self@, *key),
    {
        match self.lookup_binding(key) {
            Some(a) => Some(a),
            None => {
                let k = *key;
                match k.base {
                    BaseKey::Char(c) => {
                        if k.mods.ctrl == false && k.mods.alt == false && k.mods.shift == false
                            && k.mods.super_key == false && c != '\n' {
                            Some(KeyAction::CharacterInput(c))
                        } else {
                            None
                        }
                    },
                    _ => None,
                }
            },
        }
    }

    /// The keys bound to an action, in binding order; empty if unbound.
    pub fn get_keys_for_action(&self, action: KeyAction) -> (r: Vec<KeyRecord>)
        ensures
            r@ == spec_keys_for(self@, action),
    {
        let ghost bs = self.bindings@;
        let mut out: Vec<KeyRecord> = Vec::new();
        let mut i: usize = 0;
        proof {
            assert(bs.subrange(0, bs.len() as int) =~= bs);
        }
        while i < self.bindings.len()
            invariant
                i <= bs.len(),
                self.bindings@ == bs,
                spec_keys_for(bs, action) == out@ + spec_keys_for(
                    bs.subrange(i as int, bs.len() as int),
                    action,
                ),
            decreases bs.len() - i,
        {
            let ghost rem = bs.subrange(i as int, bs.len() as int);
            proof {
                assert(rem.drop_first() =~= bs.subrange(i + 1 as int, bs.len() as int));
            }
            let pair = self.bindings[i];
            if pair.1 == action {
                proof {
                    assert(out@ + (seq![rem[0].0] + spec_keys_for(rem.drop_first(), action))
                        =~= out@.push(rem[0].0) + spec_keys_for(rem.drop_first(), action));
                }
                out.push(pair.0);
            }
            i = i + 1;
        }
        proof {
            assert(bs.subrange(bs.len() as int, bs.len() as int) =~= Seq::<Binding>::empty());
            assert(out@ + Seq::<KeyRecord>::empty() =~= out@);
        }
        out
    }

    /// Render the keys of an action for help text: displays joined with
    /// `'/'`, or `"None"` if the action is unbound.
    pub fn format_keys_for_action(&self, action: KeyAction) -> (r: String)
        ensures
            r@ == spec_format_keys(spec_keys_for(self@, action)),
    {
        let keys = self.get_keys_for_action(action);
        if keys.len() == 0 {
            let mut s = String::new();
            s.append("None");
            proof {
                assert(s@ =~= "None"@);
            }
            return s;
        }
        let mut s = format_key_for_display(&keys[0]);
        let mut i: usize = 1;
        proof {
            assert(keys@.subrange(1, keys@.len() as int) =~= keys@.drop_first());
        }
        while i < keys.len()
            invariant
                1 <= i <= keys@.len(),
                s@ + spec_join_tail(keys@.subrange(i as int, keys@.len() as int))
                    == spec_format_keys(keys@),
            decreases keys@.len() - i,
        {
            let ghost rem = keys@.subrange(i as int, keys@.len() as int);
            proof {
                assert(rem.drop_first() =~= keys@.subrange(i + 1 as int, keys@.len() as int));
            }
            s.append("/");
            let d = format_key_for_display(&keys[i]);
            s.append(d.as_str());
            proof {
                assert(s@ + spec_join_tail(rem.drop_first()) =~= spec_format_keys(keys@)) by {
                    assert(spec_join_tail(rem) == "/"@ + spec_display(rem[0]) + spec_join_tail(
                        rem.drop_first(),
                    ));
                }
            }
            i = i + 1;
        }
        proof {
            assert(keys@.subrange(keys@.len() as int, keys@.len() as int)
                =~= Seq::<KeyRecord>::empty());
            assert(s@ + Seq::<char>::empty() =~= s@);
        }
        s
    }
}

impl Default for KeybindManager {
    /// The default table is the default binding set.
    fn default() -> (r: KeybindManager)
        ensures
            r@ == spec_default_bindings(),
    {
        KeybindManager::new()
    }
}

} // verus!
