//! Session identity resolution: whether a desired base name is free among
//! the existing session names, and if not, the first free `base<sep>N`
//! disambiguation for N in 2..=1000, with a random suffix as a last resort.
//! Also the deletion-confirmation state and the session commands the core
//! decides on; performing a command is the host's business.

use vstd::prelude::*;
use vstd::string::StrSliceExecFns;
use vstd::string::StringExecFns;
use crate::chars::{str_to_chars, dec_digits, push_decimal, chars_eq};

verus! {

/// A host-facing session command: switch to a session, or kill one.
#[derive(Debug)]
pub enum SessionAction {
    Switch(String),
    Kill(String),
}

/// Whether one of the names is exactly `name`.
pub open spec fn spec_contains_name(names: Seq<String>, name: Seq<char>) -> bool {
    exists|i: int| 0 <= i < names.len() && names[i]@ == name
}

/// Whether every character is a decimal digit.
pub open spec fn all_digits(s: Seq<char>) -> bool {
    forall|i: int| 0 <= i < s.len() ==> '0' <= s[i] && s[i] <= '9'
}

/// Whether `name` is an incremented variant of `base`: strictly `base`,
/// then `sep`, then a non-empty all-digit suffix — no partial-numeric
/// suffixes, no sign, no extra characters, no bound on its magnitude.
pub open spec fn spec_is_incremented(name: Seq<char>, base: Seq<char>, sep: Seq<char>) -> bool {
    if name.len() <= base.len() || name.subrange(0, base.len() as int) != base {
        false
    } else {
        let rem = name.subrange(base.len() as int, name.len() as int);
        if rem.len() < sep.len() || rem.subrange(0, sep.len() as int) != sep {
            false
        } else {
            let num = rem.subrange(sep.len() as int, rem.len() as int);
            num.len() > 0 && all_digits(num)
        }
    }
}

/// The first name that is an incremented variant of `base`, in list order.
pub open spec fn spec_find_incremented(names: Seq<String>, base: Seq<char>, sep: Seq<char>) -> Option<
    Seq<char>,
>
    decreases names.len(),
{
    if names.len() == 0 {
        None
    } else if spec_is_incremented(names[0]@, base, sep) {
        Some(names[0]@)
    } else {
        spec_find_incremented(names.drop_first(), base, sep)
    }
}

/// What "does a session already represent this base name" resolves to:
/// an exact match wins immediately, else the first incremented variant.
pub open spec fn spec_find_existing(names: Seq<String>, base: Seq<char>, sep: Seq<char>) -> Option<
    Seq<char>,
> {
    if spec_contains_name(names, base) {
        Some(base)
    } else {
        spec_find_incremented(names, base, sep)
    }
}

/// The disambiguated candidate name for one counter value.
pub open spec fn spec_candidate(base: Seq<char>, sep: Seq<char>, c: nat) -> Seq<char> {
    base + sep + dec_digits(c)
}

/// The first counter in `c..=1000` whose candidate name is free.
pub open spec fn spec_free_counter(names: Seq<String>, base: Seq<char>, sep: Seq<char>, c: int) -> Option<
    int,
>
    decreases 1001 - c,
{
    if c > 1000 || c < 0 {
        None
    } else if !spec_contains_name(names, spec_candidate(base, sep, c as nat)) {
        Some(c)
    } else {
        spec_free_counter(names, base, sep, c + 1)
    }
}

/// What name resolution yields for a base name against the existing names:
/// the base itself when free; else the first free `base<sep>N` for N in
/// 2..=1000; else `base<sep>` and an 8-character random suffix. The last
/// resort is probabilistic uniqueness only, not guaranteed.
pub open spec fn resolved_name_ok(
    names: Seq<String>,
    base: Seq<char>,
    sep: Seq<char>,
    r: Seq<char>,
) -> bool {
    if !spec_contains_name(names, base) {
        r == base
    } else {
        match spec_free_counter(names, base, sep, 2) {
            Some(c) => r == spec_candidate(base, sep, c as nat),
            None => r.len() == base.len() + sep.len() + 8 && r.subrange(
                0,
                (base.len() + sep.len()) as int,
            ) == base + sep,
        }
    }
}

// ---------------------------------------------------------------------------
// Executable helpers
// ---------------------------------------------------------------------------

/// Whether the list holds exactly the given name.
fn contains_name(names: &Vec<String>, target: &Vec<char>) -> (r: bool)
    ensures
        r == spec_contains_name(names@, target@),
{
    let mut i: usize = 0;
    while i < names.len()
        invariant
            i <= names@.len(),
            forall|k: int| 0 <= k < i ==> names@[k]@ != target@,
        decreases names@.len() - i,
    {
        let cs = str_to_chars(names[i].as_str());
        if chars_eq(&cs, target) {
            return true;
        }
        i = i + 1;
    }
    false
}

/// Whether `cs[lo..hi]` is a non-empty run of decimal digits.
fn digits_run(cs: &Vec<char>, lo: usize, hi: usize) -> (r: bool)
    requires
        lo <= hi <= cs@.len(),
    ensures
        r == (lo < hi && all_digits(cs@.subrange(lo as int, hi as int))),
{
    let ghost num = cs@.subrange(lo as int, hi as int);
    if lo == hi {
        return false;
    }
    let mut i: usize = lo;
    while i < hi
        invariant
            lo <= i <= hi <= cs@.len(),
            num == cs@.subrange(lo as int, hi as int),
            all_digits(num.subrange(0, i - lo)),
        decreases hi - i,
    {
        let c = cs[i];
        if !('0' <= c && c <= '9') {
            proof {
                assert(num[i - lo] == c);
                assert(!all_digits(num));
            }
            return false;
        }
        proof {
            assert(num.subrange(0, i - lo + 1).drop_last() =~= num.subrange(0, i - lo));
            assert(num.subrange(0, i - lo + 1).last() == c);
        }
        i = i + 1;
    }
    proof {
        assert(num.subrange(0, hi - lo) =~= num);
    }
    true
}

/// Whether `name` is an incremented variant of `base<sep>`, executably.
fn is_incremented_chars(name: &Vec<char>, base: &Vec<char>, sep: &Vec<char>) -> (r: bool)
    ensures
        r == spec_is_incremented(name@, base@, sep@),
{
    if name.len() <= base.len() {
        return false;
    }
    let mut i: usize = 0;
    while i < base.len()
        invariant
            name@.len() > base@.len(),
            i <= base@.len(),
            forall|k: int| 0 <= k < i ==> name@[k] == base@[k],
        decreases base@.len() - i,
    {
        if name[i] != base[i] {
            proof {
                assert(name@.subrange(0, base@.len() as int)[i as int] != base@[i as int]);
            }
            return false;
        }
        i = i + 1;
    }
    proof {
        assert(name@.subrange(0, base@.len() as int) =~= base@);
    }
    let ghost rem = name@.subrange(base@.len() as int, name@.len() as int);
    if name.len() - base.len() < sep.len() {
        return false;
    }
    let mut j: usize = 0;
    while j < sep.len()
        invariant
            name@.len() <= usize::MAX,
            name@.len() - base@.len() >= sep@.len(),
            name@.len() > base@.len(),
            name@.subrange(0, base@.len() as int) == base@,
            rem == name@.subrange(base@.len() as int, name@.len() as int),
            j <= sep@.len(),
            forall|k: int| 0 <= k < j ==> name@[base@.len() + k] == sep@[k],
        decreases sep@.len() - j,
    {
        proof {
            assert(base@.len() + j < name@.len());
        }
        if name[base.len() + j] != sep[j] {
            proof {
                assert(rem.subrange(0, sep@.len() as int)[j as int] == name@[base@.len() + j]);
            }
            return false;
        }
        j = j + 1;
    }
    proof {
        assert(rem.subrange(0, sep@.len() as int) =~= sep@);
    }
    let lo = base.len() + sep.len();
    let hi = name.len();
    proof {
        assert(name@.subrange(lo as int, hi as int) =~= rem.subrange(
            sep@.len() as int,
            rem.len() as int,
        ));
    }
    digits_run(name, lo, hi)
}

/// Relies on `uuid::Uuid::new_v4` and the `Display` form of `uuid::Uuid`:
/// the hyphenated rendering is always 36 ASCII characters, so its first 8
/// characters are well-defined. Nothing is assumed of the value beyond the
/// length of the taken prefix.
#[verifier::external_body]
fn random_suffix() -> (r: String)
    ensures
        r@.len() == 8,
{
    let id = uuid::Uuid::new_v4().to_string();
    id[..8].to_string()
}

/// If every counter in `[lo, hi)` is taken, the first free counter from
/// `lo` is the first free counter from `hi`.
proof fn lemma_free_counter_skip(
    names: Seq<String>,
    base: Seq<char>,
    sep: Seq<char>,
    lo: int,
    hi: int,
)
    requires
        0 <= lo <= hi,
        forall|c: int|
            lo <= c < hi ==> spec_contains_name(names, #[trigger] spec_candidate(base, sep, c as nat)),
    ensures
        spec_free_counter(names, base, sep, lo) == spec_free_counter(names, base, sep, hi),
    decreases hi - lo,
{
    if lo < hi {
        if lo > 1000 {
            lemma_free_counter_over(names, base, sep, lo);
            lemma_free_counter_over(names, base, sep, hi);
        } else {
            lemma_free_counter_skip(names, base, sep, lo + 1, hi);
        }
    }
}

/// Past the last counter there is no free counter.
proof fn lemma_free_counter_over(names: Seq<String>, base: Seq<char>, sep: Seq<char>, c: int)
    requires
        c > 1000,
    ensures
        spec_free_counter(names, base, sep, c) is None,
{
}

// ---------------------------------------------------------------------------
// The session manager
// ---------------------------------------------------------------------------

/// Session state the core owns: the known session names, and the name
/// awaiting a deletion confirmation, if any.
#[derive(Debug)]
pub struct SessionManager {
    sessions: Vec<String>,
    pending_deletion: Option<String>,
}

impl SessionManager {
    /// The known session names.
    pub closed spec fn sessions_view(&self) -> Seq<String> {
        self.sessions@
    }

    /// The name awaiting deletion confirmation.
    pub closed spec fn pending_view(&self) -> Option<String> {
        self.pending_deletion
    }

    /// An empty manager: no sessions known, nothing pending.
    pub fn new() -> (r: SessionManager)
        ensures
            r.sessions_view() == Seq::<String>::empty(),
            r.pending_view() is None,
    {
        SessionManager { sessions: Vec::new(), pending_deletion: None }
    }

    /// Replace the known session names.
    pub fn update_sessions(&mut self, sessions: Vec<String>)
        ensures
            final(self).sessions_view() == sessions@,
            final(self).pending_view() == old(self).pending_view(),
    {
        self.sessions = sessions;
    }

    /// The known session names.
    pub fn sessions(&self) -> (r: &Vec<String>)
        ensures
            r@ == self.sessions_view(),
    {
        &self.sessions
    }

    /// Remember a session name whose deletion awaits confirmation.
    pub fn start_deletion(&mut self, session_name: String)
        ensures
            final(self).pending_view() == Some(session_name),
            final(self).sessions_view() == old(self).sessions_view(),
    {
        self.pending_deletion = Some(session_name);
    }

    /// Confirm the pending deletion: clears it and yields the kill command
    /// the host must perform, if one was pending.
    pub fn confirm_deletion(&mut self) -> (r: Option<SessionAction>)
        ensures
            final(self).pending_view() is None,
            final(self).sessions_view() == old(self).sessions_view(),
            match old(self).pending_view() {
                Some(name) => r == Some(SessionAction::Kill(name)),
                None => r is None,
            },
    {
        let pending = self.pending_deletion.take();
        match pending {
            Some(name) => Some(SessionAction::Kill(name)),
            None => None,
        }
    }

    /// Drop the pending deletion without acting on it.
    pub fn cancel_deletion(&mut self)
        ensures
            final(self).pending_view() is None,
            final(self).sessions_view() == old(self).sessions_view(),
    {
        self.pending_deletion = None;
    }

    /// The session name pending deletion, if any.
    pub fn pending_deletion(&self) -> (r: Option<&String>)
        ensures
            match (r, self.pending_view()) {
                (Some(a), Some(b)) => *a == b,
                (None, None) => true,
                _ => false,
            },
    {
        self.pending_deletion.as_ref()
    }

    /// The session, if any, that already represents `base_name`: an exact
    /// match wins immediately, else the first incremented variant
    /// `base<sep>N` in list order.
    pub fn find_existing_session_for_directory(&self, base_name: &str, separator: &str) -> (r:
        Option<String>)
        ensures
            match r {
                Some(name) => spec_find_existing(self.sessions_view(), base_name@, separator@)
                    == Some(name@),
                None => spec_find_existing(self.sessions_view(), base_name@, separator@) is None,
            },
    {
        let base = str_to_chars(base_name);
        let sep = str_to_chars(separator);
        if contains_name(&self.sessions, &base) {
            let mut r = String::new();
            r.append(base_name);
            proof {
                assert(r@ =~= base_name@);
            }
            return Some(r);
        }
        let ghost names = self.sessions@;
        let mut i: usize = 0;
        proof {
            assert(names.subrange(0, names.len() as int) =~= names);
        }
        while i < self.sessions.len()
            invariant
                i <= names.len(),
                self.sessions@ == names,
                base@ == base_name@,
                sep@ == separator@,
                !spec_contains_name(names, base_name@),
                spec_find_incremented(names, base@, sep@) == spec_find_incremented(
                    names.subrange(i as int, names.len() as int),
                    base@,
                    sep@,
                ),
            decreases names.len() - i,
        {
            let ghost rem = names.subrange(i as int, names.len() as int);
            proof {
                assert(rem.drop_first() =~= names.subrange(i + 1 as int, names.len() as int));
            }
            let cs = str_to_chars(self.sessions[i].as_str());
            if is_incremented_chars(&cs, &base, &sep) {
                proof {
                    assert(rem[0] == names[i as int]);
                }
                return Some(self.sessions[i].clone());
            }
            i = i + 1;
        }
        proof {
            assert(names.subrange(names.len() as int, names.len() as int)
                =~= Seq::<String>::empty());
        }
        None
    }

    /// A free name for `base_name`: the base itself when no session has it;
    /// else the first free `base<sep>N` for N in 2..=1000; else the base,
    /// the separator and a random 8-character suffix (probabilistic
    /// uniqueness only — the suffix is random, not checked against the
    /// existing names beyond its freshness odds).
    pub fn generate_incremented_name(&self, base_name: &str, separator: &str) -> (r: String)
        ensures
            resolved_name_ok(self.sessions_view(), base_name@, separator@, r@),
    {
        let base = str_to_chars(base_name);
        if !contains_name(&self.sessions, &base) {
            let mut r = String::new();
            r.append(base_name);
            proof {
                assert(r@ =~= base_name@);
            }
            return r;
        }
        let ghost names = self.sessions@;
        let mut counter: u32 = 2;
        while counter <= 1000
            invariant
                2 <= counter <= 1001,
                self.sessions@ == names,
                base@ == base_name@,
                spec_contains_name(names, base_name@),
                spec_free_counter(names, base_name@, separator@, 2) == spec_free_counter(
                    names,
                    base_name@,
                    separator@,
                    counter as int,
                ),
            decreases 1001 - counter,
        {
            let mut candidate = String::new();
            candidate.append(base_name);
            candidate.append(separator);
            push_decimal(&mut candidate, counter);
            proof {
                assert(candidate@ =~= spec_candidate(base_name@, separator@, counter as nat));
            }
            let cand_chars = str_to_chars(candidate.as_str());
            if !contains_name(&self.sessions, &cand_chars) {
                return candidate;
            }
            proof {
                lemma_free_counter_skip(
                    names,
                    base_name@,
                    separator@,
                    counter as int,
                    counter + 1 as int,
                );
            }
            counter = counter + 1;
        }
        let mut r = String::new();
        r.append(base_name);
        r.append(separator);
        let suffix = random_suffix();
        r.append(suffix.as_str());
        proof {
            assert(r@.len() == base_name@.len() + separator@.len() + 8);
            assert(r@.subrange(0, (base_name@.len() + separator@.len()) as int) =~= base_name@
                + separator@);
        }
        r
    }
}

impl Default for SessionManager {
    /// An empty manager: no sessions known, nothing pending.
    fn default() -> (r: SessionManager)
        ensures
            r.sessions_view() == Seq::<String>::empty(),
            r.pending_view() is None,
    {
        SessionManager::new()
    }
}

} // verus!
