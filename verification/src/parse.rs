//! The key-spec grammar: a single token such as `"Ctrl+Alt+p"` is split on
//! `'+'`; every part but the last names a modifier, the last names the base
//! key; matching is ASCII-case-insensitive. A sequence is whitespace-separated
//! tokens. The grammar is defined here as specification functions over
//! character sequences; the executable parser is proved to compute exactly
//! them.

use vstd::prelude::*;
use crate::chars::{lower, is_space, is_ascii_char, lower_char, is_space_char, is_ascii_exec, str_to_chars, string_push};
use crate::keys::{BaseKey, Modifiers, KeyRecord};

verus! {

/// Why a key specification failed to parse, over character sequences.
pub enum SpecParseError {
    /// The (trimmed) input was empty.
    EmptySpec,
    /// A part before a `'+'` named no recognized modifier.
    UnknownModifier(Seq<char>),
    /// The base-key part named no recognized key and was not one character.
    UnknownKey(Seq<char>),
    /// A single-character base key outside ASCII.
    UnsupportedChar(char),
    /// A whitespace-separated sequence held no token at all.
    NoKeysSpecified,
}

/// Why a key specification failed to parse.
#[derive(Debug)]
pub enum ParseError {
    /// The (trimmed) input was empty.
    EmptySpec,
    /// A part before a `'+'` named no recognized modifier; carries that part.
    UnknownModifier(String),
    /// The base-key part named no recognized key; carries that part.
    UnknownKey(String),
    /// A single-character base key outside ASCII; carries that character.
    UnsupportedChar(char),
    /// A whitespace-separated sequence held no token at all.
    NoKeysSpecified,
}

impl View for ParseError {
    type V = SpecParseError;

    open spec fn view(&self) -> SpecParseError {
        match self {
            ParseError::EmptySpec => SpecParseError::EmptySpec,
            ParseError::UnknownModifier(s) => SpecParseError::UnknownModifier(s@),
            ParseError::UnknownKey(s) => SpecParseError::UnknownKey(s@),
            ParseError::UnsupportedChar(c) => SpecParseError::UnsupportedChar(*c),
            ParseError::NoKeysSpecified => SpecParseError::NoKeysSpecified,
        }
    }
}

impl ParseError {
    /// A structural copy.
    pub fn clone_err(&self) -> (r: ParseError)
        ensures
            r@ == self@,
    {
        match self {
            ParseError::EmptySpec => ParseError::EmptySpec,
            ParseError::UnknownModifier(s) => ParseError::UnknownModifier(s.clone()),
            ParseError::UnknownKey(s) => ParseError::UnknownKey(s.clone()),
            ParseError::UnsupportedChar(c) => ParseError::UnsupportedChar(*c),
            ParseError::NoKeysSpecified => ParseError::NoKeysSpecified,
        }
    }
}

/// A parse outcome, with the error abstracted to its view.
pub open spec fn one_result_view(r: Result<KeyRecord, ParseError>) -> Result<
    KeyRecord,
    SpecParseError,
> {
    match r {
        Ok(k) => Ok(k),
        Err(e) => Err(e@),
    }
}

/// A sequence-parse outcome, with both sides abstracted to views.
pub open spec fn seq_result_view(r: Result<Vec<KeyRecord>, ParseError>) -> Result<
    Seq<KeyRecord>,
    SpecParseError,
> {
    match r {
        Ok(ks) => Ok(ks@),
        Err(e) => Err(e@),
    }
}

// ---------------------------------------------------------------------------
// Generic sequence searching
// ---------------------------------------------------------------------------

/// Whether a character is the `'+'` separator.
pub open spec fn is_plus(c: char) -> bool {
    c == '+'
}

/// Index of the first `'+'`, or `-1` if none.
pub open spec fn find_plus_idx(s: Seq<char>) -> int
    decreases s.len(),
{
    if s.len() == 0 {
        -1
    } else if is_plus(s[0]) {
        0
    } else {
        let r = find_plus_idx(s.drop_first());
        if r < 0 {
            -1
        } else {
            r + 1
        }
    }
}

/// Index of the first whitespace character, or `-1` if none.
pub open spec fn find_space_idx(s: Seq<char>) -> int
    decreases s.len(),
{
    if s.len() == 0 {
        -1
    } else if is_space(s[0]) {
        0
    } else {
        let r = find_space_idx(s.drop_first());
        if r < 0 {
            -1
        } else {
            r + 1
        }
    }
}

pub proof fn lemma_find_plus_bounds(s: Seq<char>)
    ensures
        -1 <= find_plus_idx(s) < s.len(),
    decreases s.len(),
{
    if s.len() > 0 && !is_plus(s[0]) {
        lemma_find_plus_bounds(s.drop_first());
    }
}

pub proof fn lemma_find_plus_none(s: Seq<char>)
    requires
        forall|i: int| 0 <= i < s.len() ==> !is_plus(s[i]),
    ensures
        find_plus_idx(s) == -1,
    decreases s.len(),
{
    if s.len() > 0 {
        assert(forall|i: int| 0 <= i < s.drop_first().len() ==> s.drop_first()[i] == s[i + 1]);
        lemma_find_plus_none(s.drop_first());
    }
}

pub proof fn lemma_find_plus_at(s: Seq<char>, j: int)
    requires
        0 <= j < s.len(),
        is_plus(s[j]),
        forall|i: int| 0 <= i < j ==> !is_plus(s[i]),
    ensures
        find_plus_idx(s) == j,
    decreases j,
{
    if j > 0 {
        assert(forall|i: int| 0 <= i < s.drop_first().len() ==> s.drop_first()[i] == s[i + 1]);
        lemma_find_plus_at(s.drop_first(), j - 1);
    }
}

pub proof fn lemma_find_space_bounds(s: Seq<char>)
    ensures
        -1 <= find_space_idx(s) < s.len(),
    decreases s.len(),
{
    if s.len() > 0 && !is_space(s[0]) {
        lemma_find_space_bounds(s.drop_first());
    }
}

pub proof fn lemma_find_space_none(s: Seq<char>)
    requires
        forall|i: int| 0 <= i < s.len() ==> !is_space(s[i]),
    ensures
        find_space_idx(s) == -1,
    decreases s.len(),
{
    if s.len() > 0 {
        assert(forall|i: int| 0 <= i < s.drop_first().len() ==> s.drop_first()[i] == s[i + 1]);
        lemma_find_space_none(s.drop_first());
    }
}

pub proof fn lemma_find_space_at(s: Seq<char>, j: int)
    requires
        0 <= j < s.len(),
        is_space(s[j]),
        forall|i: int| 0 <= i < j ==> !is_space(s[i]),
    ensures
        find_space_idx(s) == j,
    decreases j,
{
    if j > 0 {
        assert(forall|i: int| 0 <= i < s.drop_first().len() ==> s.drop_first()[i] == s[i + 1]);
        lemma_find_space_at(s.drop_first(), j - 1);
    }
}

// ---------------------------------------------------------------------------
// Trimming
// ---------------------------------------------------------------------------

pub open spec fn trim_front(s: Seq<char>) -> Seq<char>
    decreases s.len(),
{
    if s.len() > 0 && is_space(s[0]) {
        trim_front(s.drop_first())
    } else {
        s
    }
}

pub open spec fn trim_back(s: Seq<char>) -> Seq<char>
    decreases s.len(),
{
    if s.len() > 0 && is_space(s.last()) {
        trim_back(s.drop_last())
    } else {
        s
    }
}

/// The input with leading and trailing whitespace removed.
pub open spec fn trim_of(s: Seq<char>) -> Seq<char> {
    trim_back(trim_front(s))
}

pub proof fn lemma_trim_front_range(s: Seq<char>, lo: int)
    requires
        0 <= lo <= s.len(),
        forall|i: int| 0 <= i < lo ==> is_space(s[i]),
        lo == s.len() || !is_space(s[lo]),
    ensures
        trim_front(s) == s.subrange(lo, s.len() as int),
    decreases lo,
{
    if lo == 0 {
        assert(trim_front(s) =~= s.subrange(0, s.len() as int)) by {
            if s.len() > 0 {
                assert(!is_space(s[0]));
            }
            assert(s =~= s.subrange(0, s.len() as int));
        }
    } else {
        assert(is_space(s[0]));
        let t = s.drop_first();
        assert(forall|i: int| 0 <= i < t.len() ==> t[i] == s[i + 1]);
        lemma_trim_front_range(t, lo - 1);
        assert(t.subrange(lo - 1, t.len() as int) =~= s.subrange(lo, s.len() as int));
    }
}

pub proof fn lemma_trim_back_range(s: Seq<char>, hi: int)
    requires
        0 <= hi <= s.len(),
        forall|i: int| hi <= i < s.len() ==> is_space(s[i]),
        hi == 0 || !is_space(s[hi - 1]),
    ensures
        trim_back(s) == s.subrange(0, hi),
    decreases s.len() - hi,
{
    if hi == s.len() {
        assert(trim_back(s) =~= s.subrange(0, hi)) by {
            if s.len() > 0 {
                assert(!is_space(s.last()));
            }
            assert(s =~= s.subrange(0, s.len() as int));
        }
    } else {
        assert(is_space(s.last()));
        let t = s.drop_last();
        lemma_trim_back_range(t, hi);
        assert(t.subrange(0, hi) =~= s.subrange(0, hi));
    }
}

// ---------------------------------------------------------------------------
// Case-insensitive word matching
// ---------------------------------------------------------------------------

/// Character sequences equal up to ASCII case.
pub open spec fn eq_ci(a: Seq<char>, b: Seq<char>) -> bool {
    a.len() == b.len() && forall|i: int| 0 <= i < a.len() ==> lower(a[i]) == lower(b[i])
}

// ---------------------------------------------------------------------------
// The grammar
// ---------------------------------------------------------------------------

/// The modifier named by one part of a token, if any. `super` is
/// representable in the data model but deliberately not part of this
/// textual grammar.
pub open spec fn spec_mod_of(t: Seq<char>) -> Option<spec_fn(Modifiers) -> Modifiers> {
    if eq_ci(t, "ctrl"@) {
        Some(|m: Modifiers| Modifiers { ctrl: true, ..m })
    } else if eq_ci(t, "alt"@) {
        Some(|m: Modifiers| Modifiers { alt: true, ..m })
    } else if eq_ci(t, "shift"@) {
        Some(|m: Modifiers| Modifiers { shift: true, ..m })
    } else {
        None
    }
}

/// The base key named by the last part of a token: a fixed vocabulary of
/// named keys, or a single ASCII character folded to lowercase.
pub open spec fn spec_base_of(t: Seq<char>) -> Result<BaseKey, SpecParseError> {
    if eq_ci(t, "enter"@) {
        Ok(BaseKey::Enter)
    } else if eq_ci(t, "esc"@) || eq_ci(t, "escape"@) {
        Ok(BaseKey::Esc)
    } else if eq_ci(t, "backspace"@) {
        Ok(BaseKey::Backspace)
    } else if eq_ci(t, "delete"@) || eq_ci(t, "del"@) {
        Ok(BaseKey::Delete)
    } else if eq_ci(t, "up"@) {
        Ok(BaseKey::Up)
    } else if eq_ci(t, "down"@) {
        Ok(BaseKey::Down)
    } else if eq_ci(t, "left"@) {
        Ok(BaseKey::Left)
    } else if eq_ci(t, "right"@) {
        Ok(BaseKey::Right)
    } else if eq_ci(t, "tab"@) {
        Ok(BaseKey::Tab)
    } else if eq_ci(t, "space"@) {
        Ok(BaseKey::Char(' '))
    } else if eq_ci(t, "home"@) {
        Ok(BaseKey::Home)
    } else if eq_ci(t, "end"@) {
        Ok(BaseKey::End)
    } else if eq_ci(t, "pageup"@) {
        Ok(BaseKey::PageUp)
    } else if eq_ci(t, "pagedown"@) {
        Ok(BaseKey::PageDown)
    } else if eq_ci(t, "insert"@) {
        Ok(BaseKey::Insert)
    } else if eq_ci(t, "f1"@) {
        Ok(BaseKey::F(1))
    } else if eq_ci(t, "f2"@) {
        Ok(BaseKey::F(2))
    } else if eq_ci(t, "f3"@) {
        Ok(BaseKey::F(3))
    } else if eq_ci(t, "f4"@) {
        Ok(BaseKey::F(4))
    } else if eq_ci(t, "f5"@) {
        Ok(BaseKey::F(5))
    } else if eq_ci(t, "f6"@) {
        Ok(BaseKey::F(6))
    } else if eq_ci(t, "f7"@) {
        Ok(BaseKey::F(7))
    } else if eq_ci(t, "f8"@) {
        Ok(BaseKey::F(8))
    } else if eq_ci(t, "f9"@) {
        Ok(BaseKey::F(9))
    } else if eq_ci(t, "f10"@) {
        Ok(BaseKey::F(10))
    } else if eq_ci(t, "f11"@) {
        Ok(BaseKey::F(11))
    } else if eq_ci(t, "f12"@) {
        Ok(BaseKey::F(12))
    } else if t.len() == 1 {
        if is_ascii_char(t[0]) {
            Ok(BaseKey::Char(lower(t[0])))
        } else {
            Err(SpecParseError::UnsupportedChar(t[0]))
        }
    } else {
        Err(SpecParseError::UnknownKey(t))
    }
}

/// Parsing of one (already trimmed, non-empty handled by the caller) token,
/// with the modifiers accumulated so far: each part before a `'+'` must be a
/// modifier, the remainder is the base key.
pub open spec fn spec_parse_token(t: Seq<char>, m: Modifiers) -> Result<KeyRecord, SpecParseError>
    decreases t.len(),
    via spec_parse_token_decreases
{
    let j = find_plus_idx(t);
    if j < 0 {
        match spec_base_of(t) {
            Ok(b) => Ok(KeyRecord { base: b, mods: m }),
            Err(e) => Err(e),
        }
    } else {
        let part = t.subrange(0, j);
        match spec_mod_of(part) {
            Some(f) => spec_parse_token(t.subrange(j + 1, t.len() as int), f(m)),
            None => Err(SpecParseError::UnknownModifier(part)),
        }
    }
}

#[via_fn]
proof fn spec_parse_token_decreases(t: Seq<char>, m: Modifiers) {
    lemma_find_plus_bounds(t);
}

/// What parsing a single key specification yields: the trimmed input is
/// empty (`EmptySpec`) or one token.
pub open spec fn spec_parse_one(s: Seq<char>) -> Result<KeyRecord, SpecParseError> {
    let t = trim_of(s);
    if t.len() == 0 {
        Err(SpecParseError::EmptySpec)
    } else {
        spec_parse_token(t, Modifiers::empty())
    }
}

/// Parsing of a whitespace-separated token list: every token must parse;
/// the first failure is the result.
pub open spec fn spec_parse_list(s: Seq<char>) -> Result<Seq<KeyRecord>, SpecParseError>
    decreases s.len(),
    via spec_parse_list_decreases
{
    if s.len() == 0 {
        Ok(Seq::empty())
    } else if is_space(s[0]) {
        spec_parse_list(s.drop_first())
    } else {
        let j = find_space_idx(s);
        let end = if j < 0 {
            s.len() as int
        } else {
            j
        };
        match spec_parse_token(s.subrange(0, end), Modifiers::empty()) {
            Err(e) => Err(e),
            Ok(k) => match spec_parse_list(s.subrange(end, s.len() as int)) {
                Err(e) => Err(e),
                Ok(rest) => Ok(seq![k] + rest),
            },
        }
    }
}

#[via_fn]
proof fn spec_parse_list_decreases(s: Seq<char>) {
    if s.len() > 0 && !is_space(s[0]) {
        lemma_find_space_bounds(s);
    }
}

/// What parsing a key-sequence specification yields: all tokens, in order;
/// an input with no token at all is `NoKeysSpecified`.
pub open spec fn spec_parse_sequence(s: Seq<char>) -> Result<Seq<KeyRecord>, SpecParseError> {
    match spec_parse_list(s) {
        Err(e) => Err(e),
        Ok(ks) => if ks.len() == 0 {
            Err(SpecParseError::NoKeysSpecified)
        } else {
            Ok(ks)
        },
    }
}

// ---------------------------------------------------------------------------
// The executable parser
// ---------------------------------------------------------------------------

/// A base-key outcome, with the error abstracted to its view.
pub open spec fn base_result_view(r: Result<BaseKey, ParseError>) -> Result<
    BaseKey,
    SpecParseError,
> {
    match r {
        Ok(b) => Ok(b),
        Err(e) => Err(e@),
    }
}

/// The characters `cs[lo..hi]`, as a string.
fn range_to_string(cs: &Vec<char>, lo: usize, hi: usize) -> (r: String)
    requires
        lo <= hi <= cs@.len(),
    ensures
        r@ == cs@.subrange(lo as int, hi as int),
{
    let mut r = String::new();
    let mut i: usize = lo;
    while i < hi
        invariant
            lo <= i <= hi <= cs@.len(),
            r@ == cs@.subrange(lo as int, i as int),
        decreases hi - i,
    {
        string_push(&mut r, cs[i]);
        proof {
            assert(r@ =~= cs@.subrange(lo as int, i + 1 as int));
        }
        i = i + 1;
    }
    r
}

/// Whether `cs[lo..hi]` equals the word `w` up to ASCII case.
fn range_eq_ci(cs: &Vec<char>, lo: usize, hi: usize, w: &str) -> (r: bool)
    requires
        lo <= hi <= cs@.len(),
    ensures
        r == eq_ci(cs@.subrange(lo as int, hi as int), w@),
{
    let ghost sub = cs@.subrange(lo as int, hi as int);
    let n = w.unicode_len();
    if hi - lo != n {
        return false;
    }
    let mut i: usize = 0;
    while i < n
        invariant
            hi - lo == n == w@.len(),
            lo <= hi <= cs@.len(),
            i <= n,
            sub == cs@.subrange(lo as int, hi as int),
            forall|k: int| 0 <= k < i ==> lower(sub[k]) == lower(w@[k]),
        decreases n - i,
    {
        if lower_char(cs[lo + i]) != lower_char(w.get_char(i)) {
            return false;
        }
        i = i + 1;
    }
    true
}

/// The base key named by `cs[lo..hi]`, per `spec_base_of`.
#[verifier::rlimit(30)]
fn base_of_range(cs: &Vec<char>, lo: usize, hi: usize) -> (r: Result<BaseKey, ParseError>)
    requires
        lo <= hi <= cs@.len(),
    ensures
        base_result_view(r) == spec_base_of(cs@.subrange(lo as int, hi as int)),
{
    let ghost t = cs@.subrange(lo as int, hi as int);
    if range_eq_ci(cs, lo, hi, "enter") {
        Ok(BaseKey::Enter)
    } else if range_eq_ci(cs, lo, hi, "esc") || range_eq_ci(cs, lo, hi, "escape") {
        Ok(BaseKey::Esc)
    } else if range_eq_ci(cs, lo, hi, "backspace") {
        Ok(BaseKey::Backspace)
    } else if range_eq_ci(cs, lo, hi, "delete") || range_eq_ci(cs, lo, hi, "del") {
        Ok(BaseKey::Delete)
    } else if range_eq_ci(cs, lo, hi, "up") {
        Ok(BaseKey::Up)
    } else if range_eq_ci(cs, lo, hi, "down") {
        Ok(BaseKey::Down)
    } else if range_eq_ci(cs, lo, hi, "left") {
        Ok(BaseKey::Left)
    } else if range_eq_ci(cs, lo, hi, "right") {
        Ok(BaseKey::Right)
    } else if range_eq_ci(cs, lo, hi, "tab") {
        Ok(BaseKey::Tab)
    } else if range_eq_ci(cs, lo, hi, "space") {
        Ok(BaseKey::Char(' '))
    } else if range_eq_ci(cs, lo, hi, "home") {
        Ok(BaseKey::Home)
    } else if range_eq_ci(cs, lo, hi, "end") {
        Ok(BaseKey::End)
    } else if range_eq_ci(cs, lo, hi, "pageup") {
        Ok(BaseKey::PageUp)
    } else if range_eq_ci(cs, lo, hi, "pagedown") {
        Ok(BaseKey::PageDown)
    } else if range_eq_ci(cs, lo, hi, "insert") {
        Ok(BaseKey::Insert)
    } else if range_eq_ci(cs, lo, hi, "f1") {
        Ok(BaseKey::F(1))
    } else if range_eq_ci(cs, lo, hi, "f2") {
        Ok(BaseKey::F(2))
    } else if range_eq_ci(cs, lo, hi, "f3") {
        Ok(BaseKey::F(3))
    } else if range_eq_ci(cs, lo, hi, "f4") {
        Ok(BaseKey::F(4))
    } else if range_eq_ci(cs, lo, hi, "f5") {
        Ok(BaseKey::F(5))
    } else if range_eq_ci(cs, lo, hi, "f6") {
        Ok(BaseKey::F(6))
    } else if range_eq_ci(cs, lo, hi, "f7") {
        Ok(BaseKey::F(7))
    } else if range_eq_ci(cs, lo, hi, "f8") {
        Ok(BaseKey::F(8))
    } else if range_eq_ci(cs, lo, hi, "f9") {
        Ok(BaseKey::F(9))
    } else if range_eq_ci(cs, lo, hi, "f10") {
        Ok(BaseKey::F(10))
    } else if range_eq_ci(cs, lo, hi, "f11") {
        Ok(BaseKey::F(11))
    } else if range_eq_ci(cs, lo, hi, "f12") {
        Ok(BaseKey::F(12))
    } else if hi - lo == 1 {
        let c = cs[lo];
        assert(c == t[0]);
        if is_ascii_exec(c) {
            Ok(BaseKey::Char(lower_char(c)))
        } else {
            Err(ParseError::UnsupportedChar(c))
        }
    } else {
        Err(ParseError::UnknownKey(range_to_string(cs, lo, hi)))
    }
}

/// Parse the single token `cs[lo..hi]`, per `spec_parse_token`.
fn parse_token_range(cs: &Vec<char>, lo: usize, hi: usize) -> (r: Result<KeyRecord, ParseError>)
    requires
        lo <= hi <= cs@.len(),
    ensures
        one_result_view(r) == spec_parse_token(
            cs@.subrange(lo as int, hi as int),
            Modifiers::empty(),
        ),
{
    let ghost t0 = cs@.subrange(lo as int, hi as int);
    let mut pos: usize = lo;
    let mut m = Modifiers::none();
    loop
        invariant
            lo <= pos <= hi <= cs@.len(),
            t0 == cs@.subrange(lo as int, hi as int),
            spec_parse_token(t0, Modifiers::empty()) == spec_parse_token(
                cs@.subrange(pos as int, hi as int),
                m,
            ),
        decreases hi - pos,
    {
        let ghost t = cs@.subrange(pos as int, hi as int);
        let mut j: usize = pos;
        while j < hi && cs[j] != '+'
            invariant
                pos <= j <= hi <= cs@.len(),
                forall|i: int| pos <= i < j ==> cs@[i] != '+',
            decreases hi - j,
        {
            j = j + 1;
        }
        if j == hi {
            proof {
                assert(forall|i: int| 0 <= i < t.len() ==> !(is_plus(t[i])));
                lemma_find_plus_none(t);
            }
            match base_of_range(cs, pos, hi) {
                Ok(b) => {
                    return Ok(KeyRecord { base: b, mods: m });
                },
                Err(e) => {
                    return Err(e);
                },
            }
        } else {
            proof {
                assert(is_plus(t[j - pos]));
                lemma_find_plus_at(t, j - pos);
                assert(t.subrange(0, j - pos) =~= cs@.subrange(pos as int, j as int));
            }
            let is_c = range_eq_ci(cs, pos, j, "ctrl");
            let is_a = range_eq_ci(cs, pos, j, "alt");
            let is_s = range_eq_ci(cs, pos, j, "shift");
            if is_c {
                m = Modifiers { ctrl: true, alt: m.alt, shift: m.shift, super_key: m.super_key };
            } else if is_a {
                m = Modifiers { ctrl: m.ctrl, alt: true, shift: m.shift, super_key: m.super_key };
            } else if is_s {
                m = Modifiers { ctrl: m.ctrl, alt: m.alt, shift: true, super_key: m.super_key };
            } else {
                return Err(ParseError::UnknownModifier(range_to_string(cs, pos, j)));
            }
            proof {
                assert(t.subrange(j - pos + 1, t.len() as int) =~= cs@.subrange(
                    j + 1 as int,
                    hi as int,
                ));
            }
            pos = j + 1;
        }
    }
}

/// Parse one key specification such as `"Ctrl+p"`, `"Enter"` or `"a"`.
/// The input is trimmed; matching is ASCII-case-insensitive.
pub fn parse_key_string(key_str: &str) -> (r: Result<KeyRecord, ParseError>)
    ensures
        one_result_view(r) == spec_parse_one(key_str@),
{
    let cs = str_to_chars(key_str);
    let n = cs.len();
    let mut lo: usize = 0;
    while lo < n && is_space_char(cs[lo])
        invariant
            lo <= n == cs@.len(),
            cs@ == key_str@,
            forall|i: int| 0 <= i < lo ==> is_space(cs@[i]),
        decreases n - lo,
    {
        lo = lo + 1;
    }
    let mut hi: usize = n;
    while hi > lo && is_space_char(cs[hi - 1])
        invariant
            lo <= hi <= n == cs@.len(),
            cs@ == key_str@,
            forall|i: int| hi <= i < n ==> is_space(cs@[i]),
        decreases hi,
    {
        hi = hi - 1;
    }
    proof {
        lemma_trim_front_range(cs@, lo as int);
        let f = cs@.subrange(lo as int, n as int);
        lemma_trim_back_range(f, hi - lo);
        assert(f.subrange(0, hi - lo) =~= cs@.subrange(lo as int, hi as int));
        assert(trim_of(key_str@) == cs@.subrange(lo as int, hi as int));
    }
    if lo == hi {
        Err(ParseError::EmptySpec)
    } else {
        parse_token_range(&cs, lo, hi)
    }
}

/// A partial sequence-parse result extended on the left by already-parsed
/// records.
pub open spec fn prepend_parsed(
    pre: Seq<KeyRecord>,
    r: Result<Seq<KeyRecord>, SpecParseError>,
) -> Result<Seq<KeyRecord>, SpecParseError> {
    match r {
        Ok(ks) => Ok(pre + ks),
        Err(e) => Err(e),
    }
}

/// Parse a whitespace-separated sequence of key specifications, such as
/// `"Up Ctrl+p"`. Fails on the first bad token, and on an input with no
/// token at all.
pub fn parse_key_strings(keys_str: &str) -> (r: Result<Vec<KeyRecord>, ParseError>)
    ensures
        seq_result_view(r) == spec_parse_sequence(keys_str@),
{
    let cs = str_to_chars(keys_str);
    let n = cs.len();
    let mut keys: Vec<KeyRecord> = Vec::new();
    let mut pos: usize = 0;
    proof {
        assert(cs@.subrange(0, n as int) =~= cs@);
        assert(forall|ks: Seq<KeyRecord>| (Seq::<KeyRecord>::empty() + ks) =~= ks);
    }
    while pos < n
        invariant
            pos <= n == cs@.len(),
            cs@ == keys_str@,
            spec_parse_list(cs@) == prepend_parsed(
                keys@,
                spec_parse_list(cs@.subrange(pos as int, n as int)),
            ),
        decreases n - pos,
    {
        let ghost rem = cs@.subrange(pos as int, n as int);
        if is_space_char(cs[pos]) {
            proof {
                assert(rem.drop_first() =~= cs@.subrange(pos + 1 as int, n as int));
            }
            pos = pos + 1;
        } else {
            let mut j: usize = pos;
            while j < n && !is_space_char(cs[j])
                invariant
                    pos <= j <= n == cs@.len(),
                    forall|i: int| pos <= i < j ==> !is_space(cs@[i]),
                decreases n - j,
            {
                j = j + 1;
            }
            proof {
                if j == n {
                    assert(forall|i: int| 0 <= i < rem.len() ==> !(is_space(rem[i])));
                    lemma_find_space_none(rem);
                } else {
                    assert(is_space(rem[j - pos]));
                    lemma_find_space_at(rem, j - pos);
                }
                assert(rem.subrange(0, j - pos) =~= cs@.subrange(pos as int, j as int));
            }
            match parse_token_range(&cs, pos, j) {
                Err(e) => {
                    return Err(e);
                },
                Ok(k) => {
                    proof {
                        let ghost rem2 = cs@.subrange(j as int, n as int);
                        assert(rem.subrange(j - pos, rem.len() as int) =~= rem2);
                        if spec_parse_list(rem2) is Ok {
                            let rest = spec_parse_list(rem2)->Ok_0;
                            assert(keys@ + (seq![k] + rest) =~= keys@.push(k) + rest);
                        }
                    }
                    keys.push(k);
                    pos = j;
                },
            }
        }
    }
    proof {
        assert(cs@.subrange(n as int, n as int) =~= Seq::<char>::empty());
        assert(keys@ + Seq::<KeyRecord>::empty() =~= keys@);
    }
    if keys.len() == 0 {
        Err(ParseError::NoKeysSpecified)
    } else {
        Ok(keys)
    }
}

} // verus!
