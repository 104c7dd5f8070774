//! The grammar of each flag's argument.
//!
//! Every decoder takes the argument of its flag and gives the flag, or
//! nothing where the argument does not fit the flag's grammar. Beside each
//! decoder stands the function that says what it recognizes.

use vstd::prelude::*;
use vstd::slice::slice_to_vec;
use vstd::utf8::*;

use crate::parse::RepeatKind;
use crate::string::{
    find_byte, lemma_boundary_at_ascii, lemma_find_byte, lemma_find_byte_is, lemma_split_text,
    lemma_text_split_at_ascii, split_at_byte, text, EnvStr,
};
use crate::{
    opt_flag_view, string_bytes, Color, CrateType, Emit, ErrorFormat, Flag, FlagView, LibraryKind,
    LinkKind, LinkModifier, LinkModifierPrefix, LintLevel,
};

verus! {

pub const EQUALS: u8 = 0x3D;

pub const COLON: u8 = 0x3A;

pub const COMMA: u8 = 0x2C;

pub const QUOTE: u8 = 0x22;

pub const PLUS: u8 = 0x2B;

pub const MINUS: u8 = 0x2D;

/// Copies a part that is valid text into a string.
fn owned_text(part: &EnvStr) -> (s: String)
    requires
        valid_utf8(part@),
    ensures
        string_bytes(s) == part@,
{
    match part.to_str() {
        Some(s) => s.to_owned(),
        None => vstd::pervasive::unreached(),
    }
}

/// Copies a part into a vector of bytes.
fn owned_bytes(part: &EnvStr) -> (v: Vec<u8>)
    ensures
        v@ == part@,
{
    slice_to_vec(part.as_bytes())
}

/// True when `value` is wrapped in one pair of double quotes, with no other
/// double quote in it.
pub open spec fn is_quoted(value: Seq<u8>) -> bool {
    value.len() >= 2 && value[0] == QUOTE && find_byte(value, QUOTE, 1) == value.len() - 1
}

/// `NAME` or `NAME="VALUE"`, as text.
pub open spec fn spec_cfg(arg: Seq<u8>) -> Option<FlagView> {
    if !valid_utf8(arg) {
        None
    } else {
        match split_at_byte(arg, EQUALS) {
            None => Some(FlagView::Cfg { name: arg, value: None }),
            Some((name, value)) => if is_quoted(value) {
                Some(FlagView::Cfg { name, value: Some(value.subrange(1, value.len() - 1)) })
            } else {
                None
            },
        }
    }
}

pub fn cfg(arg: &EnvStr) -> (flag: Option<Flag>)
    ensures
        opt_flag_view(flag) == spec_cfg(arg@),
{
    if arg.to_str().is_none() {
        return None;
    }
    match arg.split_once('=') {
        Some((name, value)) => {
            proof {
                lemma_split_text(arg@, EQUALS);
            }
            let len = value.len();
            if len >= 2 && value.starts_with('"') {
                proof {
                    lemma_boundary_at_ascii(value@, 0);
                    lemma_text_split_at_ascii(value@, 0);
                }
                let inner = value.index_from(1);
                let closing = inner.find('"');
                proof {
                    let at: int = match closing {
                        Some(i) => i as int,
                        None => inner@.len() as int,
                    };
                    lemma_find_byte(inner@, QUOTE, 0);
                    assert forall|j: int| 1 <= j < at + 1 implies value@[j] != QUOTE by {
                        assert(inner@[j - 1] == value@[j]);
                    }
                    if at < inner@.len() {
                        assert(inner@[at] == value@[at + 1]);
                    }
                    lemma_find_byte_is(value@, QUOTE, 1, at + 1);
                }
                match closing {
                    Some(i) => {
                        if i == len - 2 {
                            proof {
                                lemma_boundary_at_ascii(value@, len - 1);
                                lemma_text_split_at_ascii(inner@, i as int);
                                assert(value@.subrange(1, len - 1) =~= inner@.subrange(0, i as int));
                            }
                            let quoted = value.index(1, len - 1);
                            Some(
                                Flag::Cfg {
                                    name: owned_text(&name),
                                    value: Some(owned_text(&quoted)),
                                },
                            )
                        } else {
                            None
                        }
                    },
                    None => None,
                }
            } else {
                None
            }
        },
        None => Some(Flag::Cfg { name: owned_text(arg), value: None }),
    }
}

/// `[KIND=]PATH`, the kind being one of the library kinds.
pub open spec fn spec_library_search_path(arg: Seq<u8>) -> Option<FlagView> {
    match split_at_byte(arg, EQUALS) {
        None => Some(FlagView::LibrarySearchPath { kind: LibraryKind::All, path: arg }),
        Some((kind, path)) => match LibraryKind::spec_from_name(kind) {
            Some(kind) => Some(FlagView::LibrarySearchPath { kind, path }),
            None => None,
        },
    }
}

pub fn library_search_path(arg: &EnvStr) -> (flag: Option<Flag>)
    ensures
        opt_flag_view(flag) == spec_library_search_path(arg@),
{
    match arg.split_once('=') {
        Some((kind, path)) => {
            match LibraryKind::from_name(&kind) {
                Some(kind) => Some(Flag::LibrarySearchPath { kind, path: owned_bytes(&path) }),
                None => None,
            }
        },
        None => Some(Flag::LibrarySearchPath { kind: LibraryKind::All, path: owned_bytes(arg) }),
    }
}

/// One modifier: `+` or `-`, then the modifier's name.
pub open spec fn spec_modifier(word: Seq<u8>) -> Option<(LinkModifierPrefix, LinkModifier)> {
    if word.len() == 0 {
        None
    } else {
        let modifier = LinkModifier::spec_from_name(word.subrange(1, word.len() as int));
        if modifier is None {
            None
        } else if word[0] == PLUS {
            Some((LinkModifierPrefix::Enable, modifier.unwrap()))
        } else if word[0] == MINUS {
            Some((LinkModifierPrefix::Disable, modifier.unwrap()))
        } else {
            None
        }
    }
}

/// The modifier that `word` stands for, as a sequence of one or no item.
pub open spec fn spec_modifier_seq(word: Seq<u8>) -> Seq<(LinkModifierPrefix, LinkModifier)> {
    match spec_modifier(word) {
        Some(modifier) => seq![modifier],
        None => Seq::empty(),
    }
}

/// The modifiers in a comma separated list, in order. A word of the list
/// that is no modifier is passed over.
pub open spec fn spec_modifiers(list: Seq<u8>) -> Seq<(LinkModifierPrefix, LinkModifier)>
    decreases list.len(),
{
    match split_at_byte(list, COMMA) {
        Some((word, rest)) => spec_modifier_seq(word) + spec_modifiers(rest),
        None => spec_modifier_seq(list),
    }
}

/// `[KIND[:MODIFIERS]=]NAME[:RENAME]`, as text.
pub open spec fn spec_link(arg: Seq<u8>) -> Option<FlagView> {
    if !valid_utf8(arg) {
        None
    } else {
        let (kind, modifiers, name) = match split_at_byte(arg, EQUALS) {
            Some((kind, name)) => match split_at_byte(kind, COLON) {
                Some((kind, modifiers)) => (
                    LinkKind::spec_from_name(kind),
                    spec_modifiers(modifiers),
                    name,
                ),
                None => (LinkKind::spec_from_name(kind), Seq::empty(), name),
            },
            None => (Some(LinkKind::Dylib), Seq::empty(), arg),
        };
        let (name, rename) = match split_at_byte(name, COLON) {
            Some((name, rename)) => (name, Some(rename)),
            None => (name, None),
        };
        match kind {
            Some(kind) => Some(FlagView::Link { kind, modifiers, name, rename }),
            None => None,
        }
    }
}

/// Reads one word of a list of modifiers.
fn modifier(word: &EnvStr) -> (modifier: Option<(LinkModifierPrefix, LinkModifier)>)
    ensures
        modifier == spec_modifier(word@),
{
    let prefix = if word.starts_with('+') {
        LinkModifierPrefix::Enable
    } else if word.starts_with('-') {
        LinkModifierPrefix::Disable
    } else {
        return None;
    };
    proof {
        lemma_boundary_at_ascii(word@, 0);
    }
    match LinkModifier::from_name(&word.index_from(1)) {
        Some(modifier) => Some((prefix, modifier)),
        None => None,
    }
}

/// Reads a comma separated list of modifiers.
fn modifiers(list: &EnvStr) -> (modifiers: Vec<(LinkModifierPrefix, LinkModifier)>)
    ensures
        modifiers@ == spec_modifiers(list@),
{
    let mut modifiers = Vec::new();
    let mut list = *list;
    let ghost whole = list@;
    loop
        invariant_except_break
            modifiers@ + spec_modifiers(list@) == spec_modifiers(whole),
        ensures
            modifiers@ == spec_modifiers(whole),
        decreases list@.len(),
    {
        let ghost before = modifiers@;
        match list.split_once(',') {
            Some((word, rest)) => {
                if let Some(modifier) = modifier(&word) {
                    modifiers.push(modifier);
                }
                assert(modifiers@ + spec_modifiers(rest@) =~= before + (spec_modifier_seq(word@)
                    + spec_modifiers(rest@)));
                proof {
                    lemma_find_byte(list@, COMMA, 0);
                }
                list = rest;
            },
            None => {
                if let Some(modifier) = modifier(&list) {
                    modifiers.push(modifier);
                }
                assert(modifiers@ =~= before + spec_modifier_seq(list@));
                break ;
            },
        }
    }
    modifiers
}

pub fn link(arg: &EnvStr) -> (flag: Option<Flag>)
    ensures
        opt_flag_view(flag) == spec_link(arg@),
{
    if arg.to_str().is_none() {
        return None;
    }
    let (kind, modifiers, name) = match arg.split_once('=') {
        Some((kind, name)) => {
            proof {
                lemma_split_text(arg@, EQUALS);
            }
            let (kind, modifiers) = match kind.split_once(':') {
                Some((kind, list)) => (kind, modifiers(&list)),
                None => (kind, Vec::new()),
            };
            let kind = match LinkKind::from_name(&kind) {
                Some(kind) => kind,
                None => {
                    return None;
                },
            };
            (kind, modifiers, name)
        },
        None => (LinkKind::Dylib, Vec::new(), *arg),
    };
    let ghost whole_name = name@;
    let (name, rename) = match name.split_once(':') {
        Some((name, rename)) => {
            proof {
                lemma_split_text(whole_name, COLON);
            }
            (name, Some(owned_text(&rename)))
        },
        None => (name, None),
    };
    let name = owned_text(&name);
    Some(Flag::Link { kind, modifiers, name, rename })
}

/// The flag that one word of a list stands for.
#[verifier::opaque]
pub open spec fn spec_listed(kind: RepeatKind, word: Seq<u8>) -> Option<FlagView> {
    match kind {
        RepeatKind::CrateType => match CrateType::spec_from_name(word) {
            Some(crate_type) => Some(FlagView::CrateType(crate_type)),
            None => None,
        },
        RepeatKind::Emit => match Emit::spec_from_name(word) {
            Some(emit) => Some(FlagView::Emit(emit)),
            None => None,
        },
    }
}

/// The first word of a comma separated list, and what follows its comma.
pub open spec fn spec_first_word(list: Seq<u8>) -> (Seq<u8>, Seq<u8>) {
    match split_at_byte(list, COMMA) {
        Some((word, rest)) => (word, rest),
        None => (list, Seq::empty()),
    }
}

/// The flag of the first word in a comma separated list that stands for
/// one, with the number of bytes that follow that word's comma.
pub open spec fn spec_first_listed(kind: RepeatKind, list: Seq<u8>) -> Option<(FlagView, nat)>
    decreases list.len(),
{
    if list.len() == 0 {
        None
    } else {
        let (word, rest) = spec_first_word(list);
        match spec_listed(kind, word) {
            Some(flag) => Some((flag, rest.len())),
            None => if rest.len() < list.len() {
                spec_first_listed(kind, rest)
            } else {
                None
            },
        }
    }
}

/// The flags of all the words in a comma separated list, in order. A word
/// that stands for no flag is passed over.
pub open spec fn spec_all_listed(kind: RepeatKind, list: Seq<u8>) -> Seq<FlagView>
    decreases list.len(),
{
    if list.len() == 0 {
        Seq::empty()
    } else {
        let (word, rest) = spec_first_word(list);
        let first = match spec_listed(kind, word) {
            Some(flag) => seq![flag],
            None => Seq::empty(),
        };
        if rest.len() < list.len() {
            first + spec_all_listed(kind, rest)
        } else {
            first
        }
    }
}

/// The rest of a non-empty list is shorter than the list, is its tail, and
/// follows a comma where it is not empty.
pub proof fn lemma_first_word(list: Seq<u8>)
    requires
        list.len() > 0,
    ensures
        spec_first_word(list).1.len() < list.len(),
        spec_first_word(list).1 == list.subrange(
            list.len() - spec_first_word(list).1.len(),
            list.len() as int,
        ),
        spec_first_word(list).1.len() > 0 ==> list[list.len() - spec_first_word(list).1.len() - 1]
            == COMMA,
        spec_first_word(list).0 == list.subrange(0, spec_first_word(list).0.len() as int),
        forall|j: int| 0 <= j < spec_first_word(list).0.len() ==> list[j] != COMMA,
{
    lemma_find_byte(list, COMMA, 0);
    let (word, rest) = spec_first_word(list);
    assert(rest =~= list.subrange(list.len() - rest.len(), list.len() as int));
}

/// What [`spec_first_listed`] finds is the first of [`spec_all_listed`], and
/// the bytes it leaves over hold the others.
pub proof fn lemma_first_listed(kind: RepeatKind, list: Seq<u8>)
    ensures
        match spec_first_listed(kind, list) {
            None => spec_all_listed(kind, list) == Seq::<FlagView>::empty(),
            Some((flag, rest)) => {
                &&& rest < list.len()
                &&& rest > 0 ==> list[list.len() - rest - 1] == COMMA
                &&& spec_all_listed(kind, list) == seq![flag] + spec_all_listed(
                    kind,
                    list.subrange(list.len() - rest, list.len() as int),
                )
            },
        },
    decreases list.len(),
{
    if list.len() > 0 {
        lemma_first_word(list);
        let (word, rest) = spec_first_word(list);
        if spec_listed(kind, word) is None {
            lemma_first_listed(kind, rest);
            match spec_first_listed(kind, rest) {
                None => {},
                Some((flag, left)) => {
                    assert(rest.subrange(rest.len() - left, rest.len() as int) =~= list.subrange(
                        list.len() - left,
                        list.len() as int,
                    ));
                },
            }
        } else {
            assert(spec_all_listed(kind, Seq::<u8>::empty()) == Seq::<FlagView>::empty());
        }
    }
}

/// Splits the first word off a non-empty list.
fn first_word<'a>(list: &EnvStr<'a>) -> (parts: (EnvStr<'a>, EnvStr<'a>))
    requires
        list@.len() > 0,
    ensures
        (parts.0@, parts.1@) == spec_first_word(list@),
{
    match list.split_once(',') {
        Some((word, rest)) => (word, rest),
        None => {
            let len = list.len();
            let rest = list.index(len, len);
            assert(rest@ =~= Seq::<u8>::empty());
            (*list, rest)
        },
    }
}

pub fn crate_type(arg: &EnvStr) -> (found: Option<(Flag, usize)>)
    ensures
        match found {
            Some((flag, rest)) => spec_first_listed(RepeatKind::CrateType, arg@) == Some(
                (flag@, rest as nat),
            ),
            None => spec_first_listed(RepeatKind::CrateType, arg@) is None,
        },
{
    let mut list = *arg;
    while !list.is_empty()
        invariant
            spec_first_listed(RepeatKind::CrateType, list@) == spec_first_listed(
                RepeatKind::CrateType,
                arg@,
            ),
        decreases list@.len(),
    {
        proof {
            lemma_first_word(list@);
            reveal(spec_listed);
        }
        let (first, rest) = first_word(&list);
        list = rest;
        if let Some(crate_type) = CrateType::from_name(&first) {
            return Some((Flag::CrateType(crate_type), list.len()));
        }
    }
    None
}

pub fn emit(arg: &EnvStr) -> (found: Option<(Flag, usize)>)
    ensures
        match found {
            Some((flag, rest)) => spec_first_listed(RepeatKind::Emit, arg@) == Some(
                (flag@, rest as nat),
            ),
            None => spec_first_listed(RepeatKind::Emit, arg@) is None,
        },
{
    let mut list = *arg;
    while !list.is_empty()
        invariant
            spec_first_listed(RepeatKind::Emit, list@) == spec_first_listed(
                RepeatKind::Emit,
                arg@,
            ),
        decreases list@.len(),
    {
        proof {
            lemma_first_word(list@);
            reveal(spec_listed);
        }
        let (first, rest) = first_word(&list);
        list = rest;
        if let Some(emit) = Emit::from_name(&first) {
            return Some((Flag::Emit(emit), list.len()));
        }
    }
    None
}

/// True for the ASCII digits.
pub open spec fn is_digit(b: u8) -> bool {
    0x30 <= b <= 0x39
}

/// The number that a sequence of ASCII digits writes in base ten.
pub open spec fn spec_decimal_value(digits: Seq<u8>) -> nat
    decreases digits.len(),
{
    if digits.len() == 0 {
        0
    } else {
        spec_decimal_value(digits.drop_last()) * 10 + (digits.last() - 0x30) as nat
    }
}

/// True when every byte of `digits` is an ASCII digit.
pub open spec fn all_digits(digits: Seq<u8>) -> bool {
    forall|i: int| 0 <= i < digits.len() ==> is_digit(#[trigger] digits[i])
}

/// `s` without the `+` that it may begin with.
pub open spec fn spec_unsigned(s: Seq<u8>) -> Seq<u8> {
    if s.len() > 0 && s[0] == PLUS {
        s.subrange(1, s.len() as int)
    } else {
        s
    }
}

/// The number that `s` writes: an optional `+`, then one digit or more,
/// which give a number that fits.
pub open spec fn spec_parse_u16(s: Seq<u8>) -> Option<u16> {
    let digits = spec_unsigned(s);
    if digits.len() > 0 && all_digits(digits) && spec_decimal_value(digits) <= u16::MAX {
        Some(spec_decimal_value(digits) as u16)
    } else {
        None
    }
}

/// With digits, a longer number is no smaller than its beginning.
pub proof fn lemma_decimal_value_grows(digits: Seq<u8>, n: int)
    requires
        0 <= n <= digits.len(),
        all_digits(digits),
    ensures
        spec_decimal_value(digits.subrange(0, n)) <= spec_decimal_value(digits),
    decreases digits.len() - n,
{
    if n < digits.len() {
        lemma_decimal_value_grows(digits, n + 1);
        assert(digits.subrange(0, n + 1).drop_last() =~= digits.subrange(0, n));
    } else {
        assert(digits.subrange(0, n) =~= digits);
    }
}

/// Reads a number in base ten.
fn parse_u16(s: &EnvStr) -> (value: Option<u16>)
    ensures
        value == spec_parse_u16(s@),
{
    let bytes = s.as_bytes();
    let start: usize = if bytes.len() > 0 && bytes[0] == PLUS {
        1
    } else {
        0
    };
    let ghost digits = spec_unsigned(s@);
    if start == bytes.len() {
        return None;
    }
    let mut value: u32 = 0;
    let mut i: usize = start;
    while i < bytes.len()
        invariant
            start <= i <= bytes@.len(),
            digits == spec_unsigned(s@),
            digits.len() == bytes@.len() - start,
            forall|j: int| 0 <= j < digits.len() ==> digits[j] == bytes@[start + j],
            all_digits(digits.subrange(0, i - start)),
            value == spec_decimal_value(digits.subrange(0, i - start)),
            value <= u16::MAX,
        decreases bytes@.len() - i,
    {
        let b = bytes[i];
        if b < 0x30 || b > 0x39 {
            assert(!is_digit(digits[i - start]));
            return None;
        }
        proof {
            let longer = digits.subrange(0, i + 1 - start);
            assert(longer.drop_last() =~= digits.subrange(0, i - start));
            assert forall|j: int| 0 <= j < longer.len() implies is_digit(#[trigger] longer[j]) by {
                if j < i - start {
                    assert(is_digit(digits.subrange(0, i - start)[j]));
                }
            }
        }
        value = value * 10 + (b - 0x30) as u32;
        i += 1;
        if value > 0xFFFF {
            proof {
                if all_digits(digits) {
                    lemma_decimal_value_grows(digits, i - start);
                }
            }
            return None;
        }
    }
    assert(digits.subrange(0, i - start) =~= digits);
    Some(value as u16)
}

/// A number in base ten.
pub open spec fn spec_edition(arg: Seq<u8>) -> Option<FlagView> {
    match spec_parse_u16(arg) {
        Some(edition) => Some(FlagView::Edition(edition)),
        None => None,
    }
}

pub fn edition(arg: &EnvStr) -> (flag: Option<Flag>)
    ensures
        opt_flag_view(flag) == spec_edition(arg@),
{
    match parse_u16(arg) {
        Some(edition) => Some(Flag::Edition(edition)),
        None => None,
    }
}

/// Any text.
pub open spec fn spec_crate_name(arg: Seq<u8>) -> Option<FlagView> {
    if valid_utf8(arg) {
        Some(FlagView::CrateName(arg))
    } else {
        None
    }
}

pub fn crate_name(arg: &EnvStr) -> (flag: Option<Flag>)
    ensures
        opt_flag_view(flag) == spec_crate_name(arg@),
{
    match arg.to_str() {
        Some(arg) => Some(Flag::CrateName(arg.to_owned())),
        None => None,
    }
}

/// Any text.
pub open spec fn spec_print(arg: Seq<u8>) -> Option<FlagView> {
    if valid_utf8(arg) {
        Some(FlagView::Print(arg))
    } else {
        None
    }
}

pub fn print(arg: &EnvStr) -> (flag: Option<Flag>)
    ensures
        opt_flag_view(flag) == spec_print(arg@),
{
    match arg.to_str() {
        Some(arg) => Some(Flag::Print(arg.to_owned())),
        None => None,
    }
}

/// Any text.
pub open spec fn spec_explain(arg: Seq<u8>) -> Option<FlagView> {
    if valid_utf8(arg) {
        Some(FlagView::Explain(arg))
    } else {
        None
    }
}

pub fn explain(arg: &EnvStr) -> (flag: Option<Flag>)
    ensures
        opt_flag_view(flag) == spec_explain(arg@),
{
    match arg.to_str() {
        Some(arg) => Some(Flag::Explain(arg.to_owned())),
        None => None,
    }
}

/// Any text.
pub open spec fn spec_target(arg: Seq<u8>) -> Option<FlagView> {
    if valid_utf8(arg) {
        Some(FlagView::Target(arg))
    } else {
        None
    }
}

pub fn target(arg: &EnvStr) -> (flag: Option<Flag>)
    ensures
        opt_flag_view(flag) == spec_target(arg@),
{
    match arg.to_str() {
        Some(arg) => Some(Flag::Target(arg.to_owned())),
        None => None,
    }
}

/// Any text.
pub open spec fn spec_allow(arg: Seq<u8>) -> Option<FlagView> {
    if valid_utf8(arg) {
        Some(FlagView::Allow(arg))
    } else {
        None
    }
}

pub fn allow(arg: &EnvStr) -> (flag: Option<Flag>)
    ensures
        opt_flag_view(flag) == spec_allow(arg@),
{
    match arg.to_str() {
        Some(arg) => Some(Flag::Allow(arg.to_owned())),
        None => None,
    }
}

/// Any text.
pub open spec fn spec_warn(arg: Seq<u8>) -> Option<FlagView> {
    if valid_utf8(arg) {
        Some(FlagView::Warn(arg))
    } else {
        None
    }
}

pub fn warn(arg: &EnvStr) -> (flag: Option<Flag>)
    ensures
        opt_flag_view(flag) == spec_warn(arg@),
{
    match arg.to_str() {
        Some(arg) => Some(Flag::Warn(arg.to_owned())),
        None => None,
    }
}

/// Any text.
pub open spec fn spec_force_warn(arg: Seq<u8>) -> Option<FlagView> {
    if valid_utf8(arg) {
        Some(FlagView::ForceWarn(arg))
    } else {
        None
    }
}

pub fn force_warn(arg: &EnvStr) -> (flag: Option<Flag>)
    ensures
        opt_flag_view(flag) == spec_force_warn(arg@),
{
    match arg.to_str() {
        Some(arg) => Some(Flag::ForceWarn(arg.to_owned())),
        None => None,
    }
}

/// Any text.
pub open spec fn spec_deny(arg: Seq<u8>) -> Option<FlagView> {
    if valid_utf8(arg) {
        Some(FlagView::Deny(arg))
    } else {
        None
    }
}

pub fn deny(arg: &EnvStr) -> (flag: Option<Flag>)
    ensures
        opt_flag_view(flag) == spec_deny(arg@),
{
    match arg.to_str() {
        Some(arg) => Some(Flag::Deny(arg.to_owned())),
        None => None,
    }
}

/// Any text.
pub open spec fn spec_forbid(arg: Seq<u8>) -> Option<FlagView> {
    if valid_utf8(arg) {
        Some(FlagView::Forbid(arg))
    } else {
        None
    }
}

pub fn forbid(arg: &EnvStr) -> (flag: Option<Flag>)
    ensures
        opt_flag_view(flag) == spec_forbid(arg@),
{
    match arg.to_str() {
        Some(arg) => Some(Flag::Forbid(arg.to_owned())),
        None => None,
    }
}

/// Any text.
pub open spec fn spec_z(arg: Seq<u8>) -> Option<FlagView> {
    if valid_utf8(arg) {
        Some(FlagView::Z(arg))
    } else {
        None
    }
}

pub fn z(arg: &EnvStr) -> (flag: Option<Flag>)
    ensures
        opt_flag_view(flag) == spec_z(arg@),
{
    match arg.to_str() {
        Some(arg) => Some(Flag::Z(arg.to_owned())),
        None => None,
    }
}

/// Any text.
pub open spec fn spec_json(arg: Seq<u8>) -> Option<FlagView> {
    if valid_utf8(arg) {
        Some(FlagView::Json(arg))
    } else {
        None
    }
}

pub fn json(arg: &EnvStr) -> (flag: Option<Flag>)
    ensures
        opt_flag_view(flag) == spec_json(arg@),
{
    match arg.to_str() {
        Some(arg) => Some(Flag::Json(arg.to_owned())),
        None => None,
    }
}

/// Any bytes.
pub open spec fn spec_out(arg: Seq<u8>) -> Option<FlagView> {
    Some(FlagView::Out(arg))
}

pub fn out(arg: &EnvStr) -> (flag: Option<Flag>)
    ensures
        opt_flag_view(flag) == spec_out(arg@),
{
    Some(Flag::Out(owned_bytes(arg)))
}

/// Any bytes.
pub open spec fn spec_out_dir(arg: Seq<u8>) -> Option<FlagView> {
    Some(FlagView::OutDir(arg))
}

pub fn out_dir(arg: &EnvStr) -> (flag: Option<Flag>)
    ensures
        opt_flag_view(flag) == spec_out_dir(arg@),
{
    Some(Flag::OutDir(owned_bytes(arg)))
}

/// Any bytes.
pub open spec fn spec_sysroot(arg: Seq<u8>) -> Option<FlagView> {
    Some(FlagView::Sysroot(arg))
}

pub fn sysroot(arg: &EnvStr) -> (flag: Option<Flag>)
    ensures
        opt_flag_view(flag) == spec_sysroot(arg@),
{
    Some(Flag::Sysroot(owned_bytes(arg)))
}

/// One of the words of [`LintLevel`].
pub open spec fn spec_cap_lints(arg: Seq<u8>) -> Option<FlagView> {
    match LintLevel::spec_from_name(arg) {
        Some(level) => Some(FlagView::CapLints(level)),
        None => None,
    }
}

pub fn cap_lints(arg: &EnvStr) -> (flag: Option<Flag>)
    ensures
        opt_flag_view(flag) == spec_cap_lints(arg@),
{
    match LintLevel::from_name(arg) {
        Some(level) => Some(Flag::CapLints(level)),
        None => None,
    }
}

/// One of the words of [`ErrorFormat`].
pub open spec fn spec_error_format(arg: Seq<u8>) -> Option<FlagView> {
    match ErrorFormat::spec_from_name(arg) {
        Some(format) => Some(FlagView::ErrorFormat(format)),
        None => None,
    }
}

pub fn error_format(arg: &EnvStr) -> (flag: Option<Flag>)
    ensures
        opt_flag_view(flag) == spec_error_format(arg@),
{
    match ErrorFormat::from_name(arg) {
        Some(format) => Some(Flag::ErrorFormat(format)),
        None => None,
    }
}

/// One of the words of [`Color`].
pub open spec fn spec_color(arg: Seq<u8>) -> Option<FlagView> {
    match Color::spec_from_name(arg) {
        Some(color) => Some(FlagView::Color(color)),
        None => None,
    }
}

pub fn color(arg: &EnvStr) -> (flag: Option<Flag>)
    ensures
        opt_flag_view(flag) == spec_color(arg@),
{
    match Color::from_name(arg) {
        Some(color) => Some(Flag::Color(color)),
        None => None,
    }
}

/// `OPT` or `OPT=VALUE`, as text.
pub open spec fn spec_codegen(arg: Seq<u8>) -> Option<FlagView> {
    if !valid_utf8(arg) {
        None
    } else {
        match split_at_byte(arg, EQUALS) {
            Some((opt, value)) => Some(FlagView::Codegen { opt, value: Some(value) }),
            None => Some(FlagView::Codegen { opt: arg, value: None }),
        }
    }
}

pub fn codegen(arg: &EnvStr) -> (flag: Option<Flag>)
    ensures
        opt_flag_view(flag) == spec_codegen(arg@),
{
    if arg.to_str().is_none() {
        return None;
    }
    match arg.split_once('=') {
        Some((opt, value)) => {
            proof {
                lemma_split_text(arg@, EQUALS);
            }
            Some(Flag::Codegen { opt: owned_text(&opt), value: Some(owned_text(&value)) })
        },
        None => Some(Flag::Codegen { opt: owned_text(arg), value: None }),
    }
}

/// `NAME` or `NAME=PATH`, the name being text.
pub open spec fn spec_extern(arg: Seq<u8>) -> Option<FlagView> {
    let (name, path) = match split_at_byte(arg, EQUALS) {
        Some((name, path)) => (name, Some(path)),
        None => (arg, None),
    };
    if valid_utf8(name) {
        Some(FlagView::Extern { name, path })
    } else {
        None
    }
}

pub fn extern_(arg: &EnvStr) -> (flag: Option<Flag>)
    ensures
        opt_flag_view(flag) == spec_extern(arg@),
{
    let (name, path) = match arg.split_once('=') {
        Some((name, path)) => (name, Some(owned_bytes(&path))),
        None => (*arg, None),
    };
    match name.to_str() {
        Some(name) => Some(Flag::Extern { name: name.to_owned(), path }),
        None => None,
    }
}

/// `NAME=LOCATION`, the name being text.
pub open spec fn spec_extern_location(arg: Seq<u8>) -> Option<FlagView> {
    match split_at_byte(arg, EQUALS) {
        Some((name, location)) => if valid_utf8(name) {
            Some(FlagView::ExternLocation { name, location })
        } else {
            None
        },
        None => None,
    }
}

pub fn extern_location(arg: &EnvStr) -> (flag: Option<Flag>)
    ensures
        opt_flag_view(flag) == spec_extern_location(arg@),
{
    match arg.split_once('=') {
        Some((name, location)) => match name.to_str() {
            Some(name) => Some(
                Flag::ExternLocation { name: name.to_owned(), location: owned_bytes(&location) },
            ),
            None => None,
        },
        None => None,
    }
}

/// `FROM=TO`.
pub open spec fn spec_remap_path_prefix(arg: Seq<u8>) -> Option<FlagView> {
    match split_at_byte(arg, EQUALS) {
        Some((from, to)) => Some(FlagView::RemapPathPrefix { from, to }),
        None => None,
    }
}

pub fn remap_path_prefix(arg: &EnvStr) -> (flag: Option<Flag>)
    ensures
        opt_flag_view(flag) == spec_remap_path_prefix(arg@),
{
    match arg.split_once('=') {
        Some((from, to)) => Some(
            Flag::RemapPathPrefix { from: owned_bytes(&from), to: owned_bytes(&to) },
        ),
        None => None,
    }
}

} // verus!
