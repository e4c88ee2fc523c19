//! The configuration resolver: walks the fixed, ordered list of recognized
//! keybind entries in a string-keyed configuration, parses each value as a
//! key sequence, reports conflicts against the table built so far, applies
//! validated overrides wholesale, and collects non-fatal diagnostics.
//! Construction is total: a usable (possibly degraded) configuration always
//! comes out.

use vstd::prelude::*;
use vstd::string::StringExecFns;
use crate::chars::{str_to_chars, chars_eq};
use crate::keys::KeyRecord;
use crate::parse::{ParseError, SpecParseError, parse_key_strings, spec_parse_sequence};
use crate::display::{spec_display, format_key_for_display};
use crate::keybinds::{KeyAction, KeybindManager, Binding, spec_lookup, spec_with_keys,
    spec_keys_for, spec_default_bindings};

verus! {

/// A non-fatal finding of configuration resolution, over character
/// sequences.
pub enum SpecDiagnostic {
    /// An entry's value failed to parse; carries the entry name and why.
    InvalidKeybind(Seq<char>, SpecParseError),
    /// An entry parsed to no keys at all; carries the entry name.
    NoKeysForAction(Seq<char>),
    /// A key was already bound to a different action; carries the key's
    /// display form, the existing action and the incoming action.
    KeyConflict(Seq<char>, KeyAction, KeyAction),
    /// An essential action ended up with no binding; carries its name.
    EssentialActionMissing(Seq<char>),
}

/// A non-fatal finding of configuration resolution. None of these aborts
/// construction.
#[derive(Debug)]
pub enum Diagnostic {
    /// An entry's value failed to parse; carries the entry name and why.
    InvalidKeybind(String, ParseError),
    /// An entry parsed to no keys at all; carries the entry name.
    NoKeysForAction(String),
    /// A key was already bound to a different action; carries the key's
    /// display form, the existing action and the incoming action.
    KeyConflict(String, KeyAction, KeyAction),
    /// An essential action ended up with no binding; carries its name.
    EssentialActionMissing(String),
}

impl View for Diagnostic {
    type V = SpecDiagnostic;

    open spec fn view(&self) -> SpecDiagnostic {
        match self {
            Diagnostic::InvalidKeybind(k, e) => SpecDiagnostic::InvalidKeybind(k@, e@),
            Diagnostic::NoKeysForAction(k) => SpecDiagnostic::NoKeysForAction(k@),
            Diagnostic::KeyConflict(d, a, b) => SpecDiagnostic::KeyConflict(d@, *a, *b),
            Diagnostic::EssentialActionMissing(k) => SpecDiagnostic::EssentialActionMissing(k@),
        }
    }
}

/// The views of a diagnostic list, in order.
pub open spec fn diags_view(ds: Seq<Diagnostic>) -> Seq<SpecDiagnostic>
    decreases ds.len(),
{
    if ds.len() == 0 {
        Seq::empty()
    } else {
        seq![ds[0]@] + diags_view(ds.drop_first())
    }
}

proof fn lemma_diags_view_push(ds: Seq<Diagnostic>, d: Diagnostic)
    ensures
        diags_view(ds.push(d)) == diags_view(ds).push(d@),
    decreases ds.len(),
{
    if ds.len() == 0 {
        let pushed = ds.push(d);
        assert(pushed.drop_first() =~= Seq::<Diagnostic>::empty());
        assert(diags_view(pushed) == seq![pushed[0]@] + diags_view(pushed.drop_first()));
        assert(pushed[0] == d);
        assert(diags_view(ds) == Seq::<SpecDiagnostic>::empty());
        assert(seq![d@] + Seq::<SpecDiagnostic>::empty() =~= diags_view(ds).push(d@));
    } else {
        assert(ds.push(d).drop_first() =~= ds.drop_first().push(d));
        lemma_diags_view_push(ds.drop_first(), d);
        assert(diags_view(ds.push(d)) =~= diags_view(ds).push(d@));
    }
}

/// The value stored under a configuration key: first match in entry order.
pub open spec fn spec_get_value(entries: Seq<(String, String)>, key: Seq<char>) -> Option<
    Seq<char>,
>
    decreases entries.len(),
{
    if entries.len() == 0 {
        None
    } else if entries[0].0@ == key {
        Some(entries[0].1@)
    } else {
        spec_get_value(entries.drop_first(), key)
    }
}

/// The conflict diagnostics for binding `keys` to `action` against the
/// table `bs`: one per key already explicitly bound to a different action,
/// in key order. The conflict is reported, never rejected.
pub open spec fn spec_conflicts(bs: Seq<Binding>, keys: Seq<KeyRecord>, action: KeyAction) -> Seq<
    SpecDiagnostic,
>
    decreases keys.len(),
{
    if keys.len() == 0 {
        Seq::empty()
    } else {
        let rest = spec_conflicts(bs, keys.drop_first(), action);
        match spec_lookup(bs, keys[0]) {
            Some(a) => if a != action {
                seq![SpecDiagnostic::KeyConflict(spec_display(keys[0]), a, action)] + rest
            } else {
                rest
            },
            None => rest,
        }
    }
}

/// What resolving one recognized entry does to the table, and which
/// diagnostics it adds: an absent entry changes nothing; a value that fails
/// to parse is skipped with `InvalidKeybind`; a parsed value replaces the
/// action's keys wholesale, after reporting conflicts.
pub open spec fn spec_apply_entry(
    bs: Seq<Binding>,
    key_name: Seq<char>,
    action: KeyAction,
    entries: Seq<(String, String)>,
) -> (Seq<Binding>, Seq<SpecDiagnostic>) {
    match spec_get_value(entries, key_name) {
        None => (bs, Seq::empty()),
        Some(raw) => match spec_parse_sequence(raw) {
            Err(e) => (bs, seq![SpecDiagnostic::InvalidKeybind(key_name, e)]),
            Ok(keys) => (spec_with_keys(bs, action, keys), spec_conflicts(bs, keys, action)),
        },
    }
}

/// The fixed, ordered list of recognized configuration entries and the
/// action each one configures.
pub open spec fn spec_action_mappings() -> Seq<(Seq<char>, KeyAction)> {
    seq![
        ("move_up"@, KeyAction::MoveUp),
        ("move_down"@, KeyAction::MoveDown),
        ("select"@, KeyAction::Select),
        ("delete_session"@, KeyAction::DeleteSession),
        ("exit"@, KeyAction::Exit),
        ("clear_search"@, KeyAction::ClearSearch),
        ("confirm"@, KeyAction::Confirm),
        ("cancel"@, KeyAction::Cancel),
        ("launch_filepicker"@, KeyAction::LaunchFilepicker),
        ("clear_folder"@, KeyAction::ClearFolder),
        ("correct_name"@, KeyAction::CorrectName),
    ]
}

/// Resolution of the mappings left to process, from a table and the
/// diagnostics collected so far.
pub open spec fn spec_apply_mappings(
    bs: Seq<Binding>,
    ds: Seq<SpecDiagnostic>,
    entries: Seq<(String, String)>,
    maps: Seq<(Seq<char>, KeyAction)>,
) -> (Seq<Binding>, Seq<SpecDiagnostic>)
    decreases maps.len(),
{
    if maps.len() == 0 {
        (bs, ds)
    } else {
        let next = spec_apply_entry(bs, maps[0].0, maps[0].1, entries);
        spec_apply_mappings(next.0, ds + next.1, entries, maps.drop_first())
    }
}

/// The table and diagnostics that resolving a raw configuration yields:
/// the defaults, then every recognized entry in the fixed order.
pub open spec fn spec_resolved(entries: Seq<(String, String)>) -> (
    Seq<Binding>,
    Seq<SpecDiagnostic>,
) {
    spec_apply_mappings(spec_default_bindings(), Seq::empty(), entries, spec_action_mappings())
}

/// One step of `spec_apply_mappings`: processing entry `k` advances the
/// fold from position `k` to position `k + 1`.
proof fn lemma_apply_step(
    bs: Seq<Binding>,
    ds: Seq<SpecDiagnostic>,
    entries: Seq<(String, String)>,
    maps: Seq<(Seq<char>, KeyAction)>,
    k: int,
    bs2: Seq<Binding>,
    ds2: Seq<SpecDiagnostic>,
)
    requires
        0 <= k < maps.len(),
        ({
            let next = spec_apply_entry(bs, maps[k].0, maps[k].1, entries);
            bs2 == next.0 && ds2 == ds + next.1
        }),
    ensures
        spec_apply_mappings(bs, ds, entries, maps.subrange(k, maps.len() as int))
            == spec_apply_mappings(bs2, ds2, entries, maps.subrange(k + 1, maps.len() as int)),
{
    let rem = maps.subrange(k, maps.len() as int);
    assert(rem[0] == maps[k]);
    assert(rem.drop_first() =~= maps.subrange(k + 1, maps.len() as int));
}

/// The validation findings on a finished table: Select and Exit must each
/// still resolve to at least one key.
pub open spec fn spec_validation(bs: Seq<Binding>) -> Seq<SpecDiagnostic> {
    (if spec_keys_for(bs, KeyAction::Select).len() == 0 {
        seq![SpecDiagnostic::EssentialActionMissing("select"@)]
    } else {
        Seq::<SpecDiagnostic>::empty()
    }) + (if spec_keys_for(bs, KeyAction::Exit).len() == 0 {
        seq![SpecDiagnostic::EssentialActionMissing("exit"@)]
    } else {
        Seq::<SpecDiagnostic>::empty()
    })
}

/// The configuration: an optional default layout, the session-name
/// separator, and the keybind table. Built once; immutable thereafter.
#[derive(Debug, Clone)]
pub struct Config {
    /// Default layout for session creation, if configured.
    pub default_layout: Option<String>,
    /// Separator used in disambiguated session names.
    pub session_separator: String,
    /// The resolved keybind table.
    pub keybinds: KeybindManager,
}

impl Default for Config {
    /// A configuration with no layout, the `"."` separator, and the
    /// default binding set.
    fn default() -> (r: Config)
        ensures
            r.default_layout is None,
            r.session_separator@ == "."@,
            r.keybinds@ == spec_default_bindings(),
    {
        let mut sep = String::new();
        sep.append(".");
        proof {
            assert(sep@ =~= "."@);
        }
        Config { default_layout: None, session_separator: sep, keybinds: KeybindManager::new() }
    }
}

/// The value stored under a configuration key, if present.
fn get_value(entries: &Vec<(String, String)>, key: &str) -> (r: Option<String>)
    ensures
        match r {
            Some(v) => spec_get_value(entries@, key@) == Some(v@),
            None => spec_get_value(entries@, key@) is None,
        },
{
    let target = str_to_chars(key);
    let ghost es = entries@;
    let mut i: usize = 0;
    proof {
        assert(es.subrange(0, es.len() as int) =~= es);
    }
    while i < entries.len()
        invariant
            i <= es.len(),
            entries@ == es,
            target@ == key@,
            spec_get_value(es, key@) == spec_get_value(
                es.subrange(i as int, es.len() as int),
                key@,
            ),
        decreases es.len() - i,
    {
        let ghost rem = es.subrange(i as int, es.len() as int);
        proof {
            assert(rem.drop_first() =~= es.subrange(i + 1 as int, es.len() as int));
        }
        let cs = str_to_chars(entries[i].0.as_str());
        if chars_eq(&cs, &target) {
            proof {
                assert(rem[0] == es[i as int]);
            }
            return Some(entries[i].1.clone());
        }
        i = i + 1;
    }
    proof {
        assert(es.subrange(es.len() as int, es.len() as int)
            =~= Seq::<(String, String)>::empty());
    }
    None
}

/// Resolve one recognized entry against the table, appending its
/// diagnostics.
fn apply_entry(
    keybinds: &mut KeybindManager,
    diags: &mut Vec<Diagnostic>,
    entries: &Vec<(String, String)>,
    key_name: &str,
    action: KeyAction,
)
    ensures
        ({
            let next = spec_apply_entry(old(keybinds)@, key_name@, action, entries@);
            final(keybinds)@ == next.0 && diags_view(final(diags)@) == diags_view(old(diags)@)
                + next.1
        }),
{
    let raw = match get_value(entries, key_name) {
        None => {
            proof {
                assert(diags_view(diags@) =~= diags_view(diags@) + Seq::<SpecDiagnostic>::empty());
            }
            return ;
        },
        Some(raw) => raw,
    };
    let keys = match parse_key_strings(raw.as_str()) {
        Err(e) => {
            let ghost ev = e@;
            let mut name = String::new();
            name.append(key_name);
            proof {
                assert(name@ =~= key_name@);
            }
            let d = Diagnostic::InvalidKeybind(name, e);
            let ghost ds0 = diags@;
            proof {
                lemma_diags_view_push(diags@, d);
            }
            diags.push(d);
            proof {
                assert(diags_view(diags@) =~= diags_view(ds0) + seq![
                    SpecDiagnostic::InvalidKeybind(key_name@, ev),
                ]);
            }
            return ;
        },
        Ok(keys) => keys,
    };
    if keys.len() == 0 {
        // `parse_key_strings` never yields an empty list; kept defensively,
        // as the resolver must stay total whatever the parser does.
        let mut name = String::new();
        name.append(key_name);
        proof {
            assert(name@ =~= key_name@);
            lemma_diags_view_push(diags@, Diagnostic::NoKeysForAction(name));
        }
        diags.push(Diagnostic::NoKeysForAction(name));
        return ;
    }
    let ghost bs0 = keybinds@;
    let ghost ds0 = diags@;
    let mut i: usize = 0;
    proof {
        assert(keys@.subrange(0, keys@.len() as int) =~= keys@);
        assert(diags_view(ds0) + Seq::<SpecDiagnostic>::empty() =~= diags_view(ds0));
    }
    while i < keys.len()
        invariant
            i <= keys@.len(),
            keybinds@ == bs0,
            diags_view(diags@) + spec_conflicts(
                bs0,
                keys@.subrange(i as int, keys@.len() as int),
                action,
            ) == diags_view(ds0) + spec_conflicts(bs0, keys@, action),
        decreases keys@.len() - i,
    {
        let ghost rem = keys@.subrange(i as int, keys@.len() as int);
        proof {
            assert(rem.drop_first() =~= keys@.subrange(i + 1 as int, keys@.len() as int));
            assert(rem[0] == keys@[i as int]);
        }
        let key = keys[i];
        match keybinds.lookup_binding(&key) {
            Some(existing) => {
                if !(existing == action) {
                    let display = format_key_for_display(&key);
                    let ghost ds1 = diags@;
                    proof {
                        lemma_diags_view_push(
                            diags@,
                            Diagnostic::KeyConflict(display, existing, action),
                        );
                    }
                    diags.push(Diagnostic::KeyConflict(display, existing, action));
                    proof {
                        assert(diags_view(diags@) + spec_conflicts(bs0, rem.drop_first(), action)
                            =~= diags_view(ds1) + spec_conflicts(bs0, rem, action));
                    }
                }
            },
            None => {},
        }
        i = i + 1;
    }
    proof {
        assert(keys@.subrange(keys@.len() as int, keys@.len() as int)
            =~= Seq::<KeyRecord>::empty());
        assert(diags_view(diags@) + Seq::<SpecDiagnostic>::empty() =~= diags_view(diags@));
    }
    keybinds.set_action_keys(action, keys);
}

/// Validate that the essential actions still resolve to at least one key.
pub fn validate_keybind_config(keybinds: &KeybindManager) -> (r: Vec<Diagnostic>)
    ensures
        diags_view(r@) == spec_validation(keybinds@),
{
    let mut out: Vec<Diagnostic> = Vec::new();
    if keybinds.get_keys_for_action(KeyAction::Select).len() == 0 {
        let mut name = String::new();
        name.append("select");
        proof {
            assert(name@ =~= "select"@);
            lemma_diags_view_push(out@, Diagnostic::EssentialActionMissing(name));
        }
        out.push(Diagnostic::EssentialActionMissing(name));
    }
    if keybinds.get_keys_for_action(KeyAction::Exit).len() == 0 {
        let mut name = String::new();
        name.append("exit");
        proof {
            assert(name@ =~= "exit"@);
            lemma_diags_view_push(out@, Diagnostic::EssentialActionMissing(name));
        }
        out.push(Diagnostic::EssentialActionMissing(name));
    }
    proof {
        assert(diags_view(out@) =~= spec_validation(keybinds@));
    }
    out
}

impl Config {
    /// Build a configuration from a raw string-keyed mapping, as handed over
    /// by the host: the default table, then every recognized override, then
    /// validation. Total: diagnostics are returned, never thrown; the
    /// configuration is usable even when degraded.
    pub fn from_zellij_config(config: &Vec<(String, String)>) -> (r: (Config, Vec<Diagnostic>))
        ensures
            ({
                let resolved = spec_resolved(config@);
                &&& r.0.keybinds@ == resolved.0
                &&& diags_view(r.1@) == resolved.1 + spec_validation(resolved.0)
                &&& match spec_get_value(config@, "default_layout"@) {
                    Some(v) => r.0.default_layout matches Some(l) && l@ == v,
                    None => r.0.default_layout is None,
                }
                &&& match spec_get_value(config@, "session_separator"@) {
                    Some(v) => r.0.session_separator@ == v,
                    None => r.0.session_separator@ == "."@,
                }
            }),
    {
        let mut keybinds = KeybindManager::new();
        let mut diags: Vec<Diagnostic> = Vec::new();
        let ghost maps = spec_action_mappings();
        proof {
            assert(diags_view(diags@) =~= Seq::<SpecDiagnostic>::empty());
            assert(maps.subrange(0, maps.len() as int) =~= maps);
        }
        let ghost bs0 = keybinds@;
        let ghost dv0 = diags_view(diags@);
        apply_entry(&mut keybinds, &mut diags, config, "move_up", KeyAction::MoveUp);
        proof {
            lemma_apply_step(bs0, dv0, config@, maps, 0, keybinds@, diags_view(diags@));
        }
        let ghost bs1 = keybinds@;
        let ghost dv1 = diags_view(diags@);
        apply_entry(&mut keybinds, &mut diags, config, "move_down", KeyAction::MoveDown);
        proof {
            lemma_apply_step(bs1, dv1, config@, maps, 1, keybinds@, diags_view(diags@));
        }
        let ghost bs2 = keybinds@;
        let ghost dv2 = diags_view(diags@);
        apply_entry(&mut keybinds, &mut diags, config, "select", KeyAction::Select);
        proof {
            lemma_apply_step(bs2, dv2, config@, maps, 2, keybinds@, diags_view(diags@));
        }
        let ghost bs3 = keybinds@;
        let ghost dv3 = diags_view(diags@);
        apply_entry(&mut keybinds, &mut diags, config, "delete_session", KeyAction::DeleteSession);
        proof {
            lemma_apply_step(bs3, dv3, config@, maps, 3, keybinds@, diags_view(diags@));
        }
        let ghost bs4 = keybinds@;
        let ghost dv4 = diags_view(diags@);
        apply_entry(&mut keybinds, &mut diags, config, "exit", KeyAction::Exit);
        proof {
            lemma_apply_step(bs4, dv4, config@, maps, 4, keybinds@, diags_view(diags@));
        }
        let ghost bs5 = keybinds@;
        let ghost dv5 = diags_view(diags@);
        apply_entry(&mut keybinds, &mut diags, config, "clear_search", KeyAction::ClearSearch);
        proof {
            lemma_apply_step(bs5, dv5, config@, maps, 5, keybinds@, diags_view(diags@));
        }
        let ghost bs6 = keybinds@;
        let ghost dv6 = diags_view(diags@);
        apply_entry(&mut keybinds, &mut diags, config, "confirm", KeyAction::Confirm);
        proof {
            lemma_apply_step(bs6, dv6, config@, maps, 6, keybinds@, diags_view(diags@));
        }
        let ghost bs7 = keybinds@;
        let ghost dv7 = diags_view(diags@);
        apply_entry(&mut keybinds, &mut diags, config, "cancel", KeyAction::Cancel);
        proof {
            lemma_apply_step(bs7, dv7, config@, maps, 7, keybinds@, diags_view(diags@));
        }
        let ghost bs8 = keybinds@;
        let ghost dv8 = diags_view(diags@);
        apply_entry(&mut keybinds, &mut diags, config, "launch_filepicker", KeyAction::LaunchFilepicker);
        proof {
            lemma_apply_step(bs8, dv8, config@, maps, 8, keybinds@, diags_view(diags@));
        }
        let ghost bs9 = keybinds@;
        let ghost dv9 = diags_view(diags@);
        apply_entry(&mut keybinds, &mut diags, config, "clear_folder", KeyAction::ClearFolder);
        proof {
            lemma_apply_step(bs9, dv9, config@, maps, 9, keybinds@, diags_view(diags@));
        }
        let ghost bs10 = keybinds@;
        let ghost dv10 = diags_view(diags@);
        apply_entry(&mut keybinds, &mut diags, config, "correct_name", KeyAction::CorrectName);
        proof {
            lemma_apply_step(bs10, dv10, config@, maps, 10, keybinds@, diags_view(diags@));
        }
        proof {
            assert(maps.subrange(11, 11) =~= Seq::<(Seq<char>, KeyAction)>::empty());
            assert(spec_resolved(config@) == (keybinds@, diags_view(diags@)));
        }
        let mut validation = validate_keybind_config(&keybinds);
        let ghost ds_before = diags@;
        let mut v: usize = 0;
        proof {
            assert(validation@.subrange(0, validation@.len() as int) =~= validation@);
            assert(diags_view(ds_before) + Seq::<SpecDiagnostic>::empty() =~= diags_view(
                ds_before,
            ));
        }
        while v < validation.len()
            invariant
                v <= validation@.len(),
                diags_view(diags@) == diags_view(ds_before) + diags_view(
                    validation@.subrange(0, v as int),
                ),
            decreases validation@.len() - v,
        {
            let ghost dv = diags@;
            let d = validation[v].clone_diag();
            proof {
                lemma_diags_view_push(diags@, d);
                lemma_diags_view_prefix_push(validation@, v as int);
            }
            diags.push(d);
            v = v + 1;
        }
        proof {
            assert(validation@.subrange(0, validation@.len() as int) =~= validation@);
        }
        let default_layout = get_value(config, "default_layout");
        let session_separator = match get_value(config, "session_separator") {
            Some(sep) => sep,
            None => {
                let mut sep = String::new();
                sep.append(".");
                proof {
                    assert(sep@ =~= "."@);
                }
                sep
            },
        };
        (Config { default_layout, session_separator, keybinds }, diags)
    }
}

/// Extending a prefix of a diagnostic list by its next element.
proof fn lemma_diags_view_prefix_push(ds: Seq<Diagnostic>, i: int)
    requires
        0 <= i < ds.len(),
    ensures
        diags_view(ds.subrange(0, i + 1)) == diags_view(ds.subrange(0, i)).push(ds[i]@),
{
    assert(ds.subrange(0, i + 1) =~= ds.subrange(0, i).push(ds[i]));
    lemma_diags_view_push(ds.subrange(0, i), ds[i]);
}

impl Diagnostic {
    /// A structural copy.
    fn clone_diag(&self) -> (r: Diagnostic)
        ensures
            r@ == self@,
    {
        match self {
            Diagnostic::InvalidKeybind(k, e) => Diagnostic::InvalidKeybind(k.clone(), e.clone_err()),
            Diagnostic::NoKeysForAction(k) => Diagnostic::NoKeysForAction(k.clone()),
            Diagnostic::KeyConflict(d, a, b) => Diagnostic::KeyConflict(d.clone(), *a, *b),
            Diagnostic::EssentialActionMissing(k) => Diagnostic::EssentialActionMissing(k.clone()),
        }
    }
}

} // verus!
