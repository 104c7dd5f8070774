//! What holds of decoding and rendering together.
//!
//! A flag is canonical when each of its fields can be told apart again in
//! the argument that the flag is written as. The laws at the end of this file
//! say that a canonical flag, rendered and decoded, is the same flag again,
//! alone and in a sequence.

use vstd::prelude::*;
use vstd::utf8::*;

use crate::parse::opt::{
    all_digits, is_digit, is_quoted, spec_all_listed, spec_cfg, spec_decimal_value,
    spec_first_word, spec_library_search_path, spec_link, spec_listed, spec_modifier,
    spec_modifier_seq, spec_modifiers, spec_parse_u16, spec_unsigned, COLON, COMMA, EQUALS, MINUS,
    PLUS, QUOTE,
};
use crate::parse::{
    decode, lemma_remaining, lemma_step_advances, next_token, opt_seq, remaining, spec_construct,
    spec_debuginfo, spec_lookup_long, spec_lookup_short, spec_opt, spec_opt_level, step,
    step_argument, step_long, token_end, ConstructorFn, ConstructorView, OptKind, RepeatKind, Step,
};
use crate::render::{
    spec_argument, spec_decimal, spec_head, spec_join_modifiers, spec_kv, spec_long, spec_render,
    spec_render_cfg_value, spec_render_link_kind, spec_render_link_name, spec_render_modifier,
    spec_short, spec_spelling, Spelling,
};
use crate::string::{
    find_byte, lemma_ascii_is_text, lemma_find_byte, lemma_find_byte_is, lemma_first_scalar_ascii,
    lemma_first_scalar_window, lemma_split_text, lemma_text_split_at_ascii, split_at_byte, text,
};
use crate::words::{
    is_word, is_word_byte, lemma_color_names, lemma_crate_type_names, lemma_emit_names,
    lemma_error_format_names, lemma_library_kind_names, lemma_link_kind_names,
    lemma_link_modifier_names, lemma_lint_level_names, lemma_long_names,
};
use crate::{FlagView, LibraryKind, LinkKind, LinkModifier, LinkModifierPrefix, SEPARATOR};

verus! {

/// True when `s` can stand in one argument: it holds no separator.
pub open spec fn is_token(s: Seq<u8>) -> bool {
    !s.contains(SEPARATOR)
}

/// True when `s` can stand before a `=`: it is a token and holds no `=`.
pub open spec fn is_key(s: Seq<u8>) -> bool {
    is_token(s) && !s.contains(EQUALS)
}

/// True when `s` is text that can stand in one argument.
pub open spec fn is_text_token(s: Seq<u8>) -> bool {
    valid_utf8(s) && is_token(s)
}

/// True when `flag` holds text where text belongs, and each of its fields
/// can be told apart again in the argument that `flag` is written as:
///
/// - no field holds a separator;
/// - what is written before a `=` holds no `=`, and what is written before
///   a `:` holds no `:`;
/// - what is written between double quotes holds no double quote.
pub open spec fn is_clean(flag: FlagView) -> bool {
    match flag {
        FlagView::Help | FlagView::Test | FlagView::Version | FlagView::Verbose => true,
        FlagView::Cfg { name, value } => {
            &&& is_text_token(name)
            &&& !name.contains(EQUALS)
            &&& match value {
                Some(value) => is_text_token(value) && !value.contains(QUOTE),
                None => true,
            }
        },
        FlagView::LibrarySearchPath { kind, path } => is_token(path),
        FlagView::Link { kind, modifiers, name, rename } => {
            &&& is_text_token(name)
            &&& !name.contains(COLON)
            &&& match rename {
                Some(rename) => is_text_token(rename),
                None => true,
            }
        },
        FlagView::CrateType(_) | FlagView::Emit(_) | FlagView::Edition(_) | FlagView::CapLints(_)
        | FlagView::ErrorFormat(_) | FlagView::Color(_) => true,
        FlagView::CrateName(s) | FlagView::Print(s) | FlagView::Explain(s) | FlagView::Target(s)
        | FlagView::Allow(s) | FlagView::Warn(s) | FlagView::ForceWarn(s) | FlagView::Deny(s)
        | FlagView::Forbid(s) | FlagView::Z(s) | FlagView::Json(s) => is_text_token(s),
        FlagView::Out(path) | FlagView::OutDir(path) | FlagView::Sysroot(path) => is_token(path),
        FlagView::Codegen { opt, value } => {
            &&& is_text_token(opt)
            &&& !opt.contains(EQUALS)
            &&& match value {
                Some(value) => is_text_token(value),
                None => true,
            }
        },
        FlagView::Extern { name, path } => {
            &&& is_text_token(name)
            &&& !name.contains(EQUALS)
            &&& match path {
                Some(path) => is_token(path),
                None => true,
            }
        },
        FlagView::ExternLocation { name, location } => {
            &&& is_text_token(name)
            &&& !name.contains(EQUALS)
            &&& is_token(location)
        },
        FlagView::RemapPathPrefix { from, to } => is_key(from) && is_token(to),
    }
}

/// True when `flag` is written without its kind, which is the default, and
/// what is written in its place holds a `=`: what stands before that `=` is
/// then read as a kind.
pub open spec fn is_ambiguous(flag: FlagView) -> bool {
    match flag {
        FlagView::LibrarySearchPath { kind, path } => kind == LibraryKind::All && path.contains(
            EQUALS,
        ),
        FlagView::Link { kind, modifiers, name, rename } => kind == LinkKind::Dylib
            && modifiers.len() == 0 && spec_render_link_name(name, rename).contains(EQUALS),
        _ => false,
    }
}

/// True when `flag` is clean and not ambiguous. These are the flags that can
/// be read back from what they are written as.
pub open spec fn is_canonical(flag: FlagView) -> bool {
    is_clean(flag) && !is_ambiguous(flag)
}

/// What the name of `flag` must stand for, if the flag is to be read back.
pub open spec fn constructor_of(flag: FlagView) -> ConstructorView {
    match flag {
        FlagView::Help | FlagView::Test | FlagView::Version | FlagView::Verbose => {
            ConstructorView::Flag(flag)
        },
        FlagView::Cfg { .. } => ConstructorView::Opt(OptKind::Cfg),
        FlagView::LibrarySearchPath { .. } => ConstructorView::Opt(OptKind::LibrarySearchPath),
        FlagView::Link { .. } => ConstructorView::Opt(OptKind::Link),
        FlagView::CrateType(_) => ConstructorView::Repeated(RepeatKind::CrateType),
        FlagView::CrateName(_) => ConstructorView::Opt(OptKind::CrateName),
        FlagView::Edition(_) => ConstructorView::Opt(OptKind::Edition),
        FlagView::Emit(_) => ConstructorView::Repeated(RepeatKind::Emit),
        FlagView::Print(_) => ConstructorView::Opt(OptKind::Print),
        FlagView::Out(_) => ConstructorView::Opt(OptKind::Out),
        FlagView::OutDir(_) => ConstructorView::Opt(OptKind::OutDir),
        FlagView::Explain(_) => ConstructorView::Opt(OptKind::Explain),
        FlagView::Target(_) => ConstructorView::Opt(OptKind::Target),
        FlagView::Allow(_) => ConstructorView::Opt(OptKind::Allow),
        FlagView::Warn(_) => ConstructorView::Opt(OptKind::Warn),
        FlagView::ForceWarn(_) => ConstructorView::Opt(OptKind::ForceWarn),
        FlagView::Deny(_) => ConstructorView::Opt(OptKind::Deny),
        FlagView::Forbid(_) => ConstructorView::Opt(OptKind::Forbid),
        FlagView::CapLints(_) => ConstructorView::Opt(OptKind::CapLints),
        FlagView::Codegen { .. } => ConstructorView::Opt(OptKind::Codegen),
        FlagView::Extern { .. } => ConstructorView::Opt(OptKind::Extern),
        FlagView::ExternLocation { .. } => ConstructorView::Opt(OptKind::ExternLocation),
        FlagView::Sysroot(_) => ConstructorView::Opt(OptKind::Sysroot),
        FlagView::Z(_) => ConstructorView::Opt(OptKind::Z),
        FlagView::ErrorFormat(_) => ConstructorView::Opt(OptKind::ErrorFormat),
        FlagView::Json(_) => ConstructorView::Opt(OptKind::Json),
        FlagView::Color(_) => ConstructorView::Opt(OptKind::Color),
        FlagView::RemapPathPrefix { .. } => ConstructorView::Opt(OptKind::RemapPathPrefix),
    }
}

/// The flags that a constructor reads from an argument: for one that takes
/// no argument, nothing.
pub open spec fn spec_constructed(constructor: ConstructorView, arg: Seq<u8>) -> Seq<FlagView> {
    match constructor {
        ConstructorView::Opt(kind) => spec_construct(ConstructorFn::Opt(kind), arg),
        ConstructorView::Repeated(kind) => spec_construct(ConstructorFn::Repeated(kind), arg),
        _ => Seq::empty(),
    }
}

/// The flags that are read from what `flag` is written as, where its
/// argument fits in one argument: what the decoder of `flag` reads from
/// the argument of `flag`, and `flag` itself where it takes no argument.
pub open spec fn spec_read_back(flag: FlagView) -> Seq<FlagView> {
    match spec_argument(flag) {
        Some(arg) => spec_constructed(constructor_of(flag), arg),
        None => seq![flag],
    }
}

/// The name of every flag stands for that flag. A long name is a word, and
/// a letter is an ASCII letter.
proof fn lemma_spelling(flag: FlagView)
    ensures
        match spec_spelling(flag) {
            Spelling::Long(name) => is_word(text(name)) && spec_lookup_long(text(name))
                == constructor_of(flag),
            Spelling::Short(letter) => {
                &&& 0x41 <= letter as u32 <= 0x7A
                &&& spec_lookup_short(letter) == constructor_of(flag)
                &&& spec_argument(flag) is Some
            },
        },
        spec_argument(flag) is None <==> constructor_of(flag) is Flag,
        constructor_of(flag) !is Unrecognized,
{
    lemma_long_names();
    reveal(spec_lookup_short);
}

/// A sequence that does not hold `b` is searched for it in vain.
proof fn lemma_find_absent(s: Seq<u8>, b: u8)
    requires
        !s.contains(b),
    ensures
        find_byte(s, b, 0) == s.len(),
        split_at_byte(s, b) is None,
{
    lemma_find_byte(s, b, 0);
}

/// `k`, then `b`, then `v` is split at `b` into `k` and `v` when `k` does not
/// hold `b`.
proof fn lemma_split_joined(k: Seq<u8>, b: u8, v: Seq<u8>)
    requires
        !k.contains(b),
    ensures
        split_at_byte(k + seq![b] + v, b) == Some((k, v)),
{
    let s = k + seq![b] + v;
    assert forall|j: int| 0 <= j < k.len() implies s[j] != b by {
        assert(s[j] == k[j]);
    }
    lemma_find_byte_is(s, b, 0, k.len() as int);
    assert(s.subrange(0, k.len() as int) =~= k);
    assert(s.subrange(k.len() as int + 1, s.len() as int) =~= v);
}

/// A word holds no byte but small letters and `-`.
proof fn lemma_word_lacks(word: Seq<u8>, b: u8)
    requires
        is_word(word),
        !is_word_byte(b),
    ensures
        !word.contains(b),
{
}

/// What is put together from parts without `b` holds no `b`.
proof fn lemma_concat_lacks(x: Seq<u8>, y: Seq<u8>, b: u8)
    requires
        !x.contains(b),
        !y.contains(b),
    ensures
        !(x + y).contains(b),
{
    assert forall|i: int| 0 <= i < (x + y).len() implies (x + y)[i] != b by {
        if i < x.len() {
            assert((x + y)[i] == x[i]);
        } else {
            assert((x + y)[i] == y[i - x.len()]);
        }
    }
}

/// The digits of a number are digits, and write that number.
proof fn lemma_decimal(n: nat)
    ensures
        spec_decimal(n).len() > 0,
        all_digits(spec_decimal(n)),
        spec_decimal_value(spec_decimal(n)) == n,
    decreases n,
{
    let digits = spec_decimal(n);
    if n < 10 {
        assert(digits.drop_last() =~= Seq::<u8>::empty());
        assert(spec_decimal_value(digits.drop_last()) == 0);
    } else {
        lemma_decimal(n / 10);
        assert(digits.drop_last() =~= spec_decimal(n / 10));
        assert forall|i: int| 0 <= i < digits.len() implies is_digit(#[trigger] digits[i]) by {
            if i < digits.len() - 1 {
                assert(digits[i] == spec_decimal(n / 10)[i]);
            }
        }
    }
}

/// A number that is written in base ten is read back.
proof fn lemma_edition_round_trip(edition: u16)
    ensures
        spec_parse_u16(spec_decimal(edition as nat)) == Some(edition),
        is_token(spec_decimal(edition as nat)),
{
    let digits = spec_decimal(edition as nat);
    lemma_decimal(edition as nat);
    assert(is_digit(digits[0]));
    assert(spec_unsigned(digits) == digits);
    assert forall|i: int| 0 <= i < digits.len() implies digits[i] != SEPARATOR by {
        assert(is_digit(digits[i]));
    }
}

/// The two prefixes are written `+` and `-`.
proof fn lemma_prefix_names()
    ensures
        text(LinkModifierPrefix::Enable.name()) == seq![PLUS],
        text(LinkModifierPrefix::Disable.name()) == seq![MINUS],
{
    reveal_strlit("+");
    reveal_strlit("-");
    is_ascii_chars_encode_utf8("+"@);
    is_ascii_chars_encode_utf8("-"@);
    assert(text("+") =~= seq![PLUS]);
    assert(text("-") =~= seq![MINUS]);
}

/// True for the bytes that a list of modifiers is made of.
pub open spec fn is_list_byte(b: u8) -> bool {
    is_word_byte(b) || b == PLUS || b == COMMA
}

/// True when `s` holds nothing but the bytes of a list of modifiers.
pub open spec fn is_list(s: Seq<u8>) -> bool {
    forall|i: int| 0 <= i < s.len() ==> is_list_byte(#[trigger] s[i])
}

/// A modifier that is written is read back, and is written without a comma.
proof fn lemma_modifier_round_trip(modifier: (LinkModifierPrefix, LinkModifier))
    ensures
        spec_modifier(spec_render_modifier(modifier)) == Some(modifier),
        !spec_render_modifier(modifier).contains(COMMA),
        is_list(spec_render_modifier(modifier)),
        valid_utf8(spec_render_modifier(modifier)),
{
    lemma_prefix_names();
    lemma_link_modifier_names();
    let prefix = text(modifier.0.name());
    let name = text(modifier.1.name());
    let word = spec_render_modifier(modifier);
    assert(is_word(name));
    assert(word.subrange(1, word.len() as int) =~= name);
    assert(word[0] == prefix[0]);
    assert forall|i: int| 0 <= i < word.len() implies is_list_byte(#[trigger] word[i])
        && word[i] != COMMA by {
        if i >= 1 {
            assert(word[i] == name[i - 1]);
        }
    }
    encode_utf8_valid_utf8(modifier.0.name()@);
    encode_utf8_valid_utf8(modifier.1.name()@);
    valid_utf8_concat(prefix, name);
}

/// Modifiers that are written as a list are read back from it.
proof fn lemma_modifiers_round_trip(modifiers: Seq<(LinkModifierPrefix, LinkModifier)>)
    requires
        modifiers.len() > 0,
    ensures
        spec_modifiers(spec_join_modifiers(modifiers)) == modifiers,
        is_list(spec_join_modifiers(modifiers)),
        valid_utf8(spec_join_modifiers(modifiers)),
    decreases modifiers.len(),
{
    let first = spec_render_modifier(modifiers[0]);
    lemma_modifier_round_trip(modifiers[0]);
    if modifiers.len() == 1 {
        lemma_find_absent(first, COMMA);
        assert(spec_modifier_seq(first) =~= modifiers);
    } else {
        let tail = modifiers.drop_first();
        let rest = spec_join_modifiers(tail);
        let list = spec_join_modifiers(modifiers);
        lemma_modifiers_round_trip(tail);
        lemma_split_joined(first, COMMA, rest);
        assert(spec_modifier_seq(first) + tail =~= modifiers);
        assert forall|i: int| 0 <= i < list.len() implies is_list_byte(#[trigger] list[i]) by {
            if i < first.len() {
                assert(list[i] == first[i]);
            } else if i > first.len() {
                assert(list[i] == rest[i - first.len() - 1]);
            }
        }
        lemma_ascii_is_text(COMMA);
        valid_utf8_concat(first, seq![COMMA]);
        valid_utf8_concat(first + seq![COMMA], rest);
    }
}

/// A byte between two sequences stands in what they make together, and so
/// does nothing but what stands in a part.
proof fn lemma_joined_lacks(k: Seq<u8>, b: u8, v: Seq<u8>, lacking: u8)
    requires
        !k.contains(lacking),
        !v.contains(lacking),
        b != lacking,
    ensures
        !(k + seq![b] + v).contains(lacking),
{
    lemma_concat_lacks(k, seq![b], lacking);
    lemma_concat_lacks(k + seq![b], v, lacking);
}

/// Two texts with an ASCII byte between them are one text.
proof fn lemma_joined_text(k: Seq<u8>, b: u8, v: Seq<u8>)
    requires
        valid_utf8(k),
        valid_utf8(v),
        b < 0x80,
    ensures
        valid_utf8(k + seq![b] + v),
{
    lemma_ascii_is_text(b);
    valid_utf8_concat(k, seq![b]);
    valid_utf8_concat(k + seq![b], v);
}

/// A configuration value that is written is read back.
proof fn lemma_cfg_round_trip(name: Seq<u8>, value: Option<Seq<u8>>)
    requires
        is_canonical(FlagView::Cfg { name, value }),
    ensures
        spec_cfg(spec_argument(FlagView::Cfg { name, value }).unwrap()) == Some(
            FlagView::Cfg { name, value },
        ),
        is_token(spec_argument(FlagView::Cfg { name, value }).unwrap()),
{
    match value {
        None => {
            lemma_find_absent(name, EQUALS);
        },
        Some(value) => {
            let arg = spec_render_cfg_value(name, value);
            let quoted = seq![QUOTE] + value + seq![QUOTE];
            assert(arg =~= name + seq![EQUALS] + quoted);
            lemma_split_joined(name, EQUALS, quoted);
            assert forall|j: int| 1 <= j < quoted.len() - 1 implies quoted[j] != QUOTE by {
                assert(quoted[j] == value[j - 1]);
            }
            lemma_find_byte_is(quoted, QUOTE, 1, quoted.len() - 1);
            assert(is_quoted(quoted));
            assert(quoted.subrange(1, quoted.len() - 1) =~= value);
            lemma_ascii_is_text(QUOTE);
            valid_utf8_concat(seq![QUOTE], value);
            valid_utf8_concat(seq![QUOTE] + value, seq![QUOTE]);
            lemma_joined_text(name, EQUALS, quoted);
            lemma_concat_lacks(seq![QUOTE], value, SEPARATOR);
            lemma_concat_lacks(seq![QUOTE] + value, seq![QUOTE], SEPARATOR);
            lemma_joined_lacks(name, EQUALS, quoted, SEPARATOR);
        },
    }
}

/// A library search path that is written is read back.
proof fn lemma_library_search_path_round_trip(kind: LibraryKind, path: Seq<u8>)
    requires
        is_canonical(FlagView::LibrarySearchPath { kind, path }),
    ensures
        spec_library_search_path(
            spec_argument(FlagView::LibrarySearchPath { kind, path }).unwrap(),
        ) == Some(FlagView::LibrarySearchPath { kind, path }),
        is_token(spec_argument(FlagView::LibrarySearchPath { kind, path }).unwrap()),
{
    if kind == LibraryKind::All {
        lemma_find_absent(path, EQUALS);
    } else {
        let word = text(kind.name());
        lemma_library_kind_names();
        assert(is_word(word));
        lemma_word_lacks(word, EQUALS);
        lemma_word_lacks(word, SEPARATOR);
        lemma_split_joined(word, EQUALS, path);
        lemma_joined_lacks(word, EQUALS, path, SEPARATOR);
    }
}

/// A key and a value that are written with `=` between them are read back,
/// where the key holds no `=`.
proof fn lemma_kv_round_trip(k: Seq<u8>, v: Seq<u8>)
    requires
        is_key(k),
        is_token(v),
    ensures
        split_at_byte(spec_kv(k, v), EQUALS) == Some((k, v)),
        is_token(spec_kv(k, v)),
        valid_utf8(k) && valid_utf8(v) ==> valid_utf8(spec_kv(k, v)),
{
    lemma_split_joined(k, EQUALS, v);
    lemma_joined_lacks(k, EQUALS, v, SEPARATOR);
    if valid_utf8(k) && valid_utf8(v) {
        lemma_joined_text(k, EQUALS, v);
    }
}

/// The name of a library, with the name that it may be given, is read back.
proof fn lemma_link_name_round_trip(name: Seq<u8>, rename: Option<Seq<u8>>)
    requires
        is_text_token(name),
        !name.contains(COLON),
        rename is Some ==> is_text_token(rename.unwrap()),
    ensures
        match split_at_byte(spec_render_link_name(name, rename), COLON) {
            Some((before, after)) => before == name && rename == Some(after),
            None => rename is None,
        },
        is_text_token(spec_render_link_name(name, rename)),
{
    match rename {
        Some(rename) => {
            lemma_split_joined(name, COLON, rename);
            lemma_joined_lacks(name, COLON, rename, SEPARATOR);
            lemma_joined_text(name, COLON, rename);
        },
        None => {
            lemma_find_absent(name, COLON);
        },
    }
}

/// The kind of linking, with its modifiers, is read back.
proof fn lemma_link_kind_round_trip(
    kind: LinkKind,
    modifiers: Seq<(LinkModifierPrefix, LinkModifier)>,
    rest: Seq<u8>,
)
    requires
        is_text_token(rest),
        kind == LinkKind::Dylib && modifiers.len() == 0 ==> !rest.contains(EQUALS),
    ensures
        is_text_token(spec_render_link_kind(kind, modifiers) + rest),
        match split_at_byte(spec_render_link_kind(kind, modifiers) + rest, EQUALS) {
            Some((before, after)) => {
                &&& after == rest
                &&& match split_at_byte(before, COLON) {
                    Some((word, list)) => LinkKind::spec_from_name(word) == Some(kind)
                        && spec_modifiers(list) == modifiers,
                    None => LinkKind::spec_from_name(before) == Some(kind) && modifiers.len() == 0,
                }
            },
            None => kind == LinkKind::Dylib && modifiers.len() == 0,
        },
{
    let word = text(kind.name());
    lemma_link_kind_names();
    assert(is_word(word));
    lemma_word_lacks(word, EQUALS);
    lemma_word_lacks(word, COLON);
    lemma_word_lacks(word, SEPARATOR);
    encode_utf8_valid_utf8(kind.name()@);
    if modifiers.len() > 0 {
        let list = spec_join_modifiers(modifiers);
        lemma_modifiers_round_trip(modifiers);
        assert forall|i: int| 0 <= i < list.len() implies list[i] != EQUALS && list[i]
            != SEPARATOR by {
            assert(is_list_byte(list[i]));
        }
        let before = word + seq![COLON] + list;
        lemma_joined_lacks(word, COLON, list, EQUALS);
        lemma_joined_lacks(word, COLON, list, SEPARATOR);
        lemma_joined_text(word, COLON, list);
        lemma_split_joined(word, COLON, list);
        assert(spec_render_link_kind(kind, modifiers) + rest =~= before + seq![EQUALS] + rest);
        lemma_split_joined(before, EQUALS, rest);
        lemma_joined_lacks(before, EQUALS, rest, SEPARATOR);
        lemma_joined_text(before, EQUALS, rest);
    } else if kind != LinkKind::Dylib {
        assert(spec_render_link_kind(kind, modifiers) + rest =~= word + seq![EQUALS] + rest);
        lemma_split_joined(word, EQUALS, rest);
        lemma_find_absent(word, COLON);
        lemma_joined_lacks(word, EQUALS, rest, SEPARATOR);
        lemma_joined_text(word, EQUALS, rest);
    } else {
        assert(spec_render_link_kind(kind, modifiers) + rest =~= rest);
        lemma_find_absent(rest, EQUALS);
    }
}

/// A library to link that is written is read back.
proof fn lemma_link_round_trip(
    kind: LinkKind,
    modifiers: Seq<(LinkModifierPrefix, LinkModifier)>,
    name: Seq<u8>,
    rename: Option<Seq<u8>>,
)
    requires
        is_canonical(FlagView::Link { kind, modifiers, name, rename }),
    ensures
        spec_link(
            spec_argument(FlagView::Link { kind, modifiers, name, rename }).unwrap(),
        ) == Some(FlagView::Link { kind, modifiers, name, rename }),
        is_token(spec_argument(FlagView::Link { kind, modifiers, name, rename }).unwrap()),
{
    let rest = spec_render_link_name(name, rename);
    lemma_link_name_round_trip(name, rename);
    lemma_link_kind_round_trip(kind, modifiers, rest);
    if modifiers.len() == 0 {
        assert(modifiers =~= Seq::empty());
    }
}

/// One word of a vocabulary, taken as a list, is the flag that it stands
/// for and nothing else.
proof fn lemma_listed_round_trip(kind: RepeatKind, word: Seq<u8>, flag: FlagView)
    requires
        is_word(word),
        spec_listed(kind, word) == Some(flag),
    ensures
        spec_all_listed(kind, word) == seq![flag],
        is_token(word),
{
    lemma_word_lacks(word, COMMA);
    lemma_word_lacks(word, SEPARATOR);
    lemma_find_absent(word, COMMA);
    assert(spec_first_word(word) == (word, Seq::<u8>::empty()));
    assert(spec_all_listed(kind, Seq::<u8>::empty()) == Seq::<FlagView>::empty());
    assert(seq![flag] + Seq::<FlagView>::empty() =~= seq![flag]);
}

/// The argument of a canonical flag fits in one argument, and the decoder
/// that the name of the flag stands for reads the flag from it and nothing
/// else.
pub proof fn lemma_argument_round_trip(flag: FlagView)
    requires
        is_canonical(flag),
        spec_argument(flag) is Some,
    ensures
        is_token(spec_argument(flag).unwrap()),
        spec_constructed(constructor_of(flag), spec_argument(flag).unwrap()) == seq![flag],
{
    reveal(spec_opt);
    match flag {
        FlagView::Cfg { name, value } => {
            lemma_cfg_round_trip(name, value);
        },
        FlagView::LibrarySearchPath { kind, path } => {
            lemma_library_search_path_round_trip(kind, path);
        },
        FlagView::Link { kind, modifiers, name, rename } => {
            lemma_link_round_trip(kind, modifiers, name, rename);
        },
        FlagView::CrateType(crate_type) => {
            reveal(spec_listed);
            lemma_crate_type_names();
            lemma_listed_round_trip(RepeatKind::CrateType, text(crate_type.name()), flag);
        },
        FlagView::Emit(emit) => {
            reveal(spec_listed);
            lemma_emit_names();
            lemma_listed_round_trip(RepeatKind::Emit, text(emit.name()), flag);
        },
        FlagView::Edition(edition) => {
            lemma_edition_round_trip(edition);
        },
        FlagView::CapLints(level) => {
            lemma_lint_level_names();
            lemma_word_lacks(text(level.name()), SEPARATOR);
        },
        FlagView::ErrorFormat(format) => {
            lemma_error_format_names();
            lemma_word_lacks(text(format.name()), SEPARATOR);
        },
        FlagView::Color(color) => {
            lemma_color_names();
            lemma_word_lacks(text(color.name()), SEPARATOR);
        },
        FlagView::Codegen { opt, value } => {
            match value {
                Some(value) => {
                    lemma_kv_round_trip(opt, value);
                },
                None => {
                    lemma_find_absent(opt, EQUALS);
                },
            }
        },
        FlagView::Extern { name, path } => {
            match path {
                Some(path) => {
                    lemma_kv_round_trip(name, path);
                },
                None => {
                    lemma_find_absent(name, EQUALS);
                },
            }
        },
        FlagView::ExternLocation { name, location } => {
            lemma_kv_round_trip(name, location);
        },
        FlagView::RemapPathPrefix { from, to } => {
            lemma_kv_round_trip(from, to);
        },
        _ => {},
    }
}

/// The arguments in `tokens` as one encoded string: with a separator
/// between each two.
pub open spec fn spec_join(tokens: Seq<Seq<u8>>) -> Seq<u8>
    decreases tokens.len(),
{
    if tokens.len() == 0 {
        Seq::empty()
    } else if tokens.len() == 1 {
        tokens[0]
    } else {
        tokens[0] + seq![SEPARATOR] + spec_join(tokens.drop_first())
    }
}

/// The arguments that the flags in `flags` are written as, one flag after
/// the other.
pub open spec fn spec_render_all(flags: Seq<FlagView>) -> Seq<Seq<u8>>
    decreases flags.len(),
{
    if flags.len() == 0 {
        Seq::empty()
    } else {
        spec_render(flags[0]) + spec_render_all(flags.drop_first())
    }
}

/// Where decoding goes on behind an argument that ends at `end`.
pub open spec fn spec_after(buf: Seq<u8>, end: int) -> int {
    if end < buf.len() {
        end + 1
    } else {
        buf.len() as int
    }
}

/// True when `token` stands in `buf` at `from` as a whole argument or as the
/// end of one: a separator or the end of `buf` follows it.
pub open spec fn ends_token_at(buf: Seq<u8>, from: int, token: Seq<u8>) -> bool {
    &&& 0 <= from
    &&& from + token.len() <= buf.len()
    &&& buf.subrange(from, from + token.len()) == token
    &&& from + token.len() < buf.len() ==> buf[from + token.len()] == SEPARATOR
}

/// Joining arguments is joining the first of them, then a separator, then
/// joining the others.
proof fn lemma_join_concat(first: Seq<Seq<u8>>, others: Seq<Seq<u8>>)
    requires
        first.len() > 0,
    ensures
        spec_join(first + others) == if others.len() == 0 {
            spec_join(first)
        } else {
            spec_join(first) + seq![SEPARATOR] + spec_join(others)
        },
    decreases first.len(),
{
    let all = first + others;
    if others.len() == 0 {
        assert(all =~= first);
    } else if first.len() == 1 {
        assert(all.drop_first() =~= others);
    } else {
        lemma_join_concat(first.drop_first(), others);
        assert(all.drop_first() =~= first.drop_first() + others);
        assert(spec_join(all) =~= spec_join(first) + seq![SEPARATOR] + spec_join(others));
    }
}

/// What a flag is written as, joined: its name, and where it takes an
/// argument a separator and the argument.
proof fn lemma_join_rendered(flag: FlagView)
    ensures
        spec_join(spec_render(flag)) == match spec_argument(flag) {
            Some(arg) => spec_head(flag) + seq![SEPARATOR] + arg,
            None => spec_head(flag),
        },
{
    reveal_with_fuel(spec_join, 3);
    match spec_argument(flag) {
        Some(arg) => {
            assert(spec_render(flag).drop_first() =~= seq![arg]);
        },
        None => {},
    }
}

/// An argument ends where the token that stands in it ends.
proof fn lemma_token_at(buf: Seq<u8>, from: int, token: Seq<u8>)
    requires
        ends_token_at(buf, from, token),
        is_token(token),
    ensures
        token_end(buf, from) == from + token.len(),
        next_token(buf, from) == spec_after(buf, from + token.len()),
{
    assert forall|j: int| from <= j < from + token.len() implies buf[j] != SEPARATOR by {
        assert(buf.subrange(from, from + token.len())[j - from] == buf[j]);
    }
    lemma_find_byte_is(buf, SEPARATOR, from, from + token.len());
}

/// What stands in `buf` at `from` as `x`, then `b`, then `y`, stands there
/// as `x`, and behind `b` as `y`.
proof fn lemma_ends_token_parts(buf: Seq<u8>, from: int, x: Seq<u8>, y: Seq<u8>)
    requires
        ends_token_at(buf, from, x + seq![SEPARATOR] + y),
    ensures
        ends_token_at(buf, from, x),
        ends_token_at(buf, from + x.len() + 1, y),
{
    let whole = x + seq![SEPARATOR] + y;
    let part = buf.subrange(from, from + whole.len());
    assert(buf.subrange(from, from + x.len()) =~= x) by {
        assert forall|j: int| 0 <= j < x.len() implies buf[from + j] == x[j] by {
            assert(part[j] == whole[j]);
        }
    }
    assert(buf[from + x.len()] == SEPARATOR) by {
        assert(part[x.len() as int] == whole[x.len() as int]);
    }
    assert(buf.subrange(from + x.len() + 1, from + x.len() + 1 + y.len()) =~= y) by {
        assert forall|j: int| 0 <= j < y.len() implies buf[from + x.len() + 1 + j] == y[j] by {
            assert(part[x.len() + 1 + j] == whole[x.len() + 1 + j]);
        }
    }
}

/// The flags that are read from the argument at `from` are those that the
/// decoder reads from the token that stands there.
proof fn lemma_step_argument(
    buf: Seq<u8>,
    constructor: ConstructorFn,
    from: int,
    arg: Seq<u8>,
)
    requires
        is_token(arg),
        ends_token_at(buf, from, arg),
    ensures
        step_argument(buf, constructor, from).flags == spec_construct(constructor, arg),
        step_argument(buf, constructor, from).pos == spec_after(buf, from + arg.len()),
{
    lemma_token_at(buf, from, arg);
}

/// Decoding where a flag is written by its long name gives what is read
/// back from it, and goes on behind what the flag is written as.
proof fn lemma_step_long_rendered(buf: Seq<u8>, pos: int, flag: FlagView)
    requires
        spec_spelling(flag) is Long,
        spec_argument(flag) is Some ==> is_token(spec_argument(flag).unwrap()),
        ends_token_at(buf, pos, spec_join(spec_render(flag))),
    ensures
        remaining(buf, pos, false) == spec_read_back(flag) + remaining(
            buf,
            spec_after(buf, pos + spec_join(spec_render(flag)).len()),
            false,
        ),
{
    let name = spec_spelling(flag)->Long_0;
    let word = text(name);
    let head = spec_long(name);
    let whole = spec_join(spec_render(flag));
    let start = pos + 2;
    let end = start + word.len();
    lemma_spelling(flag);
    lemma_word_lacks(word, SEPARATOR);
    lemma_word_lacks(word, EQUALS);
    lemma_find_absent(word, EQUALS);
    assert(head[0] == MINUS && head[1] == MINUS);
    assert(head.subrange(2, head.len() as int) =~= word);
    lemma_join_rendered(flag);
    match spec_argument(flag) {
        Some(arg) => {
            lemma_ends_token_parts(buf, pos, head, arg);
        },
        None => {},
    }
    assert(ends_token_at(buf, pos, head));
    assert(buf.subrange(pos, pos + head.len())[0] == buf[pos]);
    assert(buf.subrange(pos, pos + head.len())[1] == buf[pos + 1]);
    assert(buf.subrange(start, end) =~= word) by {
        assert forall|j: int| 0 <= j < word.len() implies buf[start + j] == word[j] by {
            assert(buf.subrange(pos, pos + head.len())[j + 2] == head[j + 2]);
        }
    }
    assert(ends_token_at(buf, start, word));
    lemma_token_at(buf, start, word);
    lemma_remaining(buf, pos, false);
    let next = step(buf, pos, false);
    assert(next == step_long(buf, pos));
    match constructor_of(flag) {
        ConstructorView::Opt(kind) => {
            lemma_step_argument(buf, ConstructorFn::Opt(kind), end + 1, spec_argument(flag).unwrap());
        },
        ConstructorView::Repeated(kind) => {
            lemma_step_argument(
                buf,
                ConstructorFn::Repeated(kind),
                end + 1,
                spec_argument(flag).unwrap(),
            );
        },
        _ => {},
    }
    assert(next.flags == spec_read_back(flag));
    assert(next.pos == spec_after(buf, pos + whole.len()));
}

/// Decoding where a flag is written by its letter gives what is read back
/// from it, and goes on behind what the flag is written as.
proof fn lemma_step_short_rendered(buf: Seq<u8>, pos: int, flag: FlagView)
    requires
        spec_spelling(flag) is Short,
        spec_argument(flag) is Some ==> is_token(spec_argument(flag).unwrap()),
        ends_token_at(buf, pos, spec_join(spec_render(flag))),
    ensures
        remaining(buf, pos, false) == spec_read_back(flag) + remaining(
            buf,
            spec_after(buf, pos + spec_join(spec_render(flag)).len()),
            false,
        ),
{
    let letter = spec_spelling(flag)->Short_0;
    let head = spec_short(letter);
    let arg = spec_argument(flag).unwrap();
    let whole = spec_join(spec_render(flag));
    lemma_spelling(flag);
    lemma_join_rendered(flag);
    lemma_ends_token_parts(buf, pos, head, arg);
    assert(buf.subrange(pos, pos + 2)[0] == buf[pos]);
    assert(buf.subrange(pos, pos + 2)[1] == buf[pos + 1]);
    assert(buf[pos] == MINUS);
    assert(buf[pos + 1] == letter as u8);
    lemma_remaining(buf, pos, false);
    assert(step(buf, pos, false) == Step {
        flags: Seq::empty(),
        pos: pos + 1,
        short: true,
    });
    lemma_remaining(buf, pos + 1, true);
    let rest = buf.subrange(pos + 1, buf.len() as int);
    assert(rest[0] == buf[pos + 1]);
    lemma_first_scalar_ascii(rest);
    assert(decode_first_scalar(rest) as char == letter);
    let next = step(buf, pos + 1, true);
    match constructor_of(flag) {
        ConstructorView::Opt(kind) => {
            lemma_step_argument(buf, ConstructorFn::Opt(kind), pos + 3, arg);
            assert(next == step_argument(buf, ConstructorFn::Opt(kind), pos + 3));
        },
        ConstructorView::Repeated(kind) => {
            lemma_step_argument(buf, ConstructorFn::Repeated(kind), pos + 3, arg);
            assert(next == step_argument(buf, ConstructorFn::Repeated(kind), pos + 3));
        },
        _ => {},
    }
    assert(next.flags == spec_read_back(flag));
    assert(Seq::<FlagView>::empty() + (spec_read_back(flag) + remaining(buf, next.pos, false))
        =~= spec_read_back(flag) + remaining(buf, next.pos, false));
}

/// Decoding where a flag is written gives what is read back from it, and
/// goes on behind what the flag is written as.
proof fn lemma_step_rendered(buf: Seq<u8>, pos: int, flag: FlagView)
    requires
        spec_argument(flag) is Some ==> is_token(spec_argument(flag).unwrap()),
        ends_token_at(buf, pos, spec_join(spec_render(flag))),
    ensures
        remaining(buf, pos, false) == spec_read_back(flag) + remaining(
            buf,
            spec_after(buf, pos + spec_join(spec_render(flag)).len()),
            false,
        ),
{
    if spec_spelling(flag) is Long {
        lemma_step_long_rendered(buf, pos, flag);
    } else {
        lemma_step_short_rendered(buf, pos, flag);
    }
}

/// What a flag is written as, alone, is decoded to what is read back from
/// the flag.
pub proof fn lemma_decode_rendered(flag: FlagView)
    requires
        spec_argument(flag) is Some ==> is_token(spec_argument(flag).unwrap()),
    ensures
        decode(spec_join(spec_render(flag))) == spec_read_back(flag),
{
    let buf = spec_join(spec_render(flag));
    assert(buf.subrange(0, buf.len() as int) =~= buf);
    lemma_step_rendered(buf, 0, flag);
    lemma_remaining(buf, buf.len() as int, false);
    assert(spec_read_back(flag) + Seq::<FlagView>::empty() =~= spec_read_back(flag));
}

/// A part of what holds no `b` holds no `b`.
proof fn lemma_subrange_lacks(s: Seq<u8>, from: int, to: int, b: u8)
    requires
        0 <= from <= to <= s.len(),
        !s.contains(b),
    ensures
        !s.subrange(from, to).contains(b),
{
    assert forall|i: int| 0 <= i < to - from implies s.subrange(from, to)[i] != b by {
        assert(s.subrange(from, to)[i] == s[from + i]);
    }
}

/// What `s` is split into at `b`: a part without `b`, and parts that are
/// tokens where `s` is one, and text where `s` is text.
proof fn lemma_split_parts(s: Seq<u8>, b: u8)
    requires
        split_at_byte(s, b) is Some,
    ensures
        !split_at_byte(s, b).unwrap().0.contains(b),
        split_at_byte(s, b).unwrap().0.len() + 1 + split_at_byte(s, b).unwrap().1.len() == s.len(),
        s == split_at_byte(s, b).unwrap().0 + seq![b] + split_at_byte(s, b).unwrap().1,
        is_token(s) ==> is_token(split_at_byte(s, b).unwrap().0) && is_token(
            split_at_byte(s, b).unwrap().1,
        ),
        valid_utf8(s) && b < 0x80 ==> valid_utf8(split_at_byte(s, b).unwrap().0) && valid_utf8(
            split_at_byte(s, b).unwrap().1,
        ),
{
    let (x, y) = split_at_byte(s, b).unwrap();
    let i = find_byte(s, b, 0);
    lemma_find_byte(s, b, 0);
    assert forall|j: int| 0 <= j < x.len() implies x[j] != b by {
        assert(x[j] == s[j]);
    }
    assert(s =~= x + seq![b] + y);
    if is_token(s) {
        lemma_subrange_lacks(s, 0, i, SEPARATOR);
        lemma_subrange_lacks(s, i + 1, s.len() as int, SEPARATOR);
    }
    if valid_utf8(s) && b < 0x80 {
        lemma_split_text(s, b);
    }
}

/// The flags that `-g` and `-O` stand for are clean.
proof fn lemma_shorthands_clean()
    ensures
        is_clean(spec_debuginfo()),
        is_clean(spec_opt_level()),
{
    reveal_strlit("debuginfo");
    reveal_strlit("opt-level");
    reveal_strlit("2");
    is_ascii_chars_encode_utf8("debuginfo"@);
    is_ascii_chars_encode_utf8("opt-level"@);
    is_ascii_chars_encode_utf8("2"@);
    encode_utf8_valid_utf8("debuginfo"@);
    encode_utf8_valid_utf8("opt-level"@);
    encode_utf8_valid_utf8("2"@);
    assert(is_word(text("debuginfo")));
    assert(is_word(text("opt-level")));
    lemma_word_lacks(text("debuginfo"), SEPARATOR);
    lemma_word_lacks(text("debuginfo"), EQUALS);
    lemma_word_lacks(text("opt-level"), SEPARATOR);
    lemma_word_lacks(text("opt-level"), EQUALS);
}

/// What is read as a configuration value is clean.
proof fn lemma_cfg_reads_clean(arg: Seq<u8>)
    requires
        is_token(arg),
        spec_cfg(arg) is Some,
    ensures
        is_clean(spec_cfg(arg).unwrap()),
{
    match split_at_byte(arg, EQUALS) {
        None => {
            lemma_find_byte(arg, EQUALS, 0);
        },
        Some((name, quoted)) => {
            lemma_split_parts(arg, EQUALS);
            let n = quoted.len() as int;
            let value = quoted.subrange(1, n - 1);
            let inner = quoted.subrange(1, n);
            lemma_find_byte(quoted, QUOTE, 1);
            lemma_text_split_at_ascii(quoted, 0);
            assert(inner[n - 2] == quoted[n - 1]);
            lemma_text_split_at_ascii(inner, n - 2);
            assert(inner.subrange(0, n - 2) =~= value);
            lemma_subrange_lacks(quoted, 1, n - 1, SEPARATOR);
            assert forall|j: int| 0 <= j < value.len() implies value[j] != QUOTE by {
                assert(value[j] == quoted[j + 1]);
            }
        },
    }
}

/// What is read as a library to link is clean.
proof fn lemma_link_reads_clean(arg: Seq<u8>)
    requires
        is_token(arg),
        spec_link(arg) is Some,
    ensures
        is_clean(spec_link(arg).unwrap()),
        match split_at_byte(arg, EQUALS) {
            Some((kind, rest)) => spec_render_link_name(
                spec_link(arg).unwrap()->Link_name,
                spec_link(arg).unwrap()->Link_rename,
            ) == rest,
            None => true,
        },
{
    let whole = match split_at_byte(arg, EQUALS) {
        Some((kind, whole)) => {
            lemma_split_parts(arg, EQUALS);
            whole
        },
        None => arg,
    };
    match split_at_byte(whole, COLON) {
        Some((name, rename)) => {
            lemma_split_parts(whole, COLON);
        },
        None => {
            lemma_find_byte(whole, COLON, 0);
        },
    }
}

/// What a decoder reads from a token is clean.
proof fn lemma_opt_reads_clean(kind: OptKind, arg: Seq<u8>)
    requires
        is_token(arg),
        spec_opt(kind, arg) is Some,
    ensures
        is_clean(spec_opt(kind, arg).unwrap()),
{
    reveal(spec_opt);
    match kind {
        OptKind::Cfg => {
            lemma_cfg_reads_clean(arg);
        },
        OptKind::Link => {
            lemma_link_reads_clean(arg);
        },
        OptKind::LibrarySearchPath | OptKind::ExternLocation | OptKind::RemapPathPrefix => {
            if split_at_byte(arg, EQUALS) is Some {
                lemma_split_parts(arg, EQUALS);
            }
        },
        OptKind::Codegen | OptKind::Extern => {
            if split_at_byte(arg, EQUALS) is Some {
                lemma_split_parts(arg, EQUALS);
            } else {
                lemma_find_byte(arg, EQUALS, 0);
            }
        },
        _ => {},
    }
}

/// The flags that are read from a list are clean.
proof fn lemma_listed_clean(kind: RepeatKind, list: Seq<u8>)
    ensures
        forall|i: int|
            0 <= i < spec_all_listed(kind, list).len() ==> is_clean(
                #[trigger] spec_all_listed(kind, list)[i],
            ),
    decreases list.len(),
{
    reveal(spec_listed);
    if list.len() > 0 {
        let (word, rest) = spec_first_word(list);
        let first = opt_seq(spec_listed(kind, word));
        let all = spec_all_listed(kind, list);
        if rest.len() < list.len() {
            lemma_listed_clean(kind, rest);
            let others = spec_all_listed(kind, rest);
            assert(all == first + others);
            assert forall|i: int| 0 <= i < all.len() implies is_clean(#[trigger] all[i]) by {
                if i < first.len() {
                    assert(all[i] == first[i]);
                } else {
                    assert(all[i] == others[i - first.len()]);
                }
            }
        } else {
            assert(all == first);
        }
    }
}

/// The flags that are read from a token are clean.
proof fn lemma_constructed_clean(constructor: ConstructorFn, arg: Seq<u8>)
    requires
        is_token(arg),
    ensures
        forall|i: int|
            0 <= i < spec_construct(constructor, arg).len() ==> is_clean(
                #[trigger] spec_construct(constructor, arg)[i],
            ),
{
    match constructor {
        ConstructorFn::Opt(kind) => {
            if spec_opt(kind, arg) is Some {
                lemma_opt_reads_clean(kind, arg);
            }
        },
        ConstructorFn::Repeated(kind) => {
            lemma_listed_clean(kind, arg);
        },
    }
}

/// The argument that begins at `from` holds no separator.
proof fn lemma_argument_is_token(buf: Seq<u8>, from: int)
    requires
        0 <= from <= buf.len(),
    ensures
        is_token(buf.subrange(from, token_end(buf, from))),
        from <= token_end(buf, from) <= buf.len(),
{
    lemma_find_byte(buf, SEPARATOR, from);
    let arg = buf.subrange(from, token_end(buf, from));
    assert forall|i: int| 0 <= i < arg.len() implies arg[i] != SEPARATOR by {
        assert(arg[i] == buf[from + i]);
    }
}

/// The flags that the decoder of a flag reads from the argument at `from`
/// are clean.
proof fn lemma_step_argument_clean(buf: Seq<u8>, constructor: ConstructorFn, from: int)
    requires
        0 <= from <= buf.len(),
    ensures
        forall|i: int|
            0 <= i < step_argument(buf, constructor, from).flags.len() ==> is_clean(
                #[trigger] step_argument(buf, constructor, from).flags[i],
            ),
{
    lemma_argument_is_token(buf, from);
    lemma_constructed_clean(constructor, buf.subrange(from, token_end(buf, from)));
}

/// The flags of one step of decoding are clean.
proof fn lemma_step_clean(buf: Seq<u8>, pos: int, short: bool)
    requires
        0 <= pos < buf.len(),
    ensures
        forall|i: int|
            0 <= i < step(buf, pos, short).flags.len() ==> is_clean(
                #[trigger] step(buf, pos, short).flags[i],
            ),
{
    lemma_shorthands_clean();
    if short {
        reveal(spec_lookup_short);
        let rest = buf.subrange(pos, buf.len() as int);
        let after = pos + length_of_first_scalar(rest);
        if valid_first_scalar(rest) && buf[pos] != SEPARATOR {
            lemma_first_scalar_window(rest);
            if after < buf.len() {
                match spec_lookup_short(decode_first_scalar(rest) as char) {
                    ConstructorView::Opt(kind) => {
                        lemma_step_argument_clean(buf, ConstructorFn::Opt(kind), after);
                        lemma_step_argument_clean(buf, ConstructorFn::Opt(kind), after + 1);
                    },
                    ConstructorView::Repeated(kind) => {
                        lemma_step_argument_clean(buf, ConstructorFn::Repeated(kind), after);
                        lemma_step_argument_clean(buf, ConstructorFn::Repeated(kind), after + 1);
                    },
                    _ => {},
                }
            }
        }
    } else if buf[pos] == MINUS && pos + 1 < buf.len() && buf[pos + 1] == MINUS {
        reveal(spec_lookup_long);
        let start = pos + 2;
        let end = token_end(buf, start);
        let next = next_token(buf, start);
        let flag = buf.subrange(start, end);
        lemma_argument_is_token(buf, start);
        let (name, arg) = match split_at_byte(flag, EQUALS) {
            Some((name, arg)) => {
                lemma_split_parts(flag, EQUALS);
                (name, Some(arg))
            },
            None => (flag, None),
        };
        let constructor = match spec_lookup_long(name) {
            ConstructorView::Opt(kind) => Some(ConstructorFn::Opt(kind)),
            ConstructorView::Repeated(kind) => Some(ConstructorFn::Repeated(kind)),
            _ => None,
        };
        if constructor is Some {
            match arg {
                Some(arg) => {
                    lemma_constructed_clean(constructor.unwrap(), arg);
                },
                None => {
                    lemma_step_argument_clean(buf, constructor.unwrap(), next);
                },
            }
        }
    }
}

/// The flags that are decoded from `pos` on are clean.
proof fn lemma_remaining_clean(buf: Seq<u8>, pos: int, short: bool)
    ensures
        forall|i: int|
            0 <= i < remaining(buf, pos, short).len() ==> is_clean(
                #[trigger] remaining(buf, pos, short)[i],
            ),
    decreases buf.len() - pos,
{
    lemma_remaining(buf, pos, short);
    if 0 <= pos < buf.len() {
        let next = step(buf, pos, short);
        lemma_step_advances(buf, pos, short);
        lemma_step_clean(buf, pos, short);
        lemma_remaining_clean(buf, next.pos, next.short);
        let others = remaining(buf, next.pos, next.short);
        assert forall|i: int| 0 <= i < remaining(buf, pos, short).len() implies is_clean(
            #[trigger] remaining(buf, pos, short)[i],
        ) by {
            if i < next.flags.len() {
                assert(remaining(buf, pos, short)[i] == next.flags[i]);
            } else {
                assert(remaining(buf, pos, short)[i] == others[i - next.flags.len()]);
            }
        }
    }
}

/// Every flag that is decoded from a string
/// holds text where text belongs, and no field of it holds what would end
/// the field where the flag is written.
pub proof fn lemma_decoded_is_clean(buf: Seq<u8>)
    ensures
        forall|i: int| 0 <= i < decode(buf).len() ==> is_clean(#[trigger] decode(buf)[i]),
{
    lemma_remaining_clean(buf, 0, false);
}

/// The argument of a clean flag fits in one argument.
proof fn lemma_clean_argument(flag: FlagView)
    requires
        is_clean(flag),
        spec_argument(flag) is Some,
    ensures
        is_token(spec_argument(flag).unwrap()),
{
    if is_ambiguous(flag) {
        match flag {
            FlagView::Link { kind, modifiers, name, rename } => {
                lemma_link_name_round_trip(name, rename);
                assert(spec_render_link_kind(kind, modifiers) + spec_render_link_name(name, rename)
                    =~= spec_render_link_name(name, rename));
            },
            _ => {},
        }
    } else {
        lemma_argument_round_trip(flag);
    }
}

/// What is read back from the flags in `flags`, one flag after the other.
pub open spec fn spec_read_back_all(flags: Seq<FlagView>) -> Seq<FlagView>
    decreases flags.len(),
{
    if flags.len() == 0 {
        Seq::empty()
    } else {
        spec_read_back(flags[0]) + spec_read_back_all(flags.drop_first())
    }
}

/// Decoding where clean flags are written, one after the other, gives what
/// is read back from them.
proof fn lemma_remaining_rendered(buf: Seq<u8>, pos: int, flags: Seq<FlagView>)
    requires
        0 <= pos <= buf.len(),
        buf.subrange(pos, buf.len() as int) == spec_join(spec_render_all(flags)),
        forall|i: int| 0 <= i < flags.len() ==> is_clean(#[trigger] flags[i]),
    ensures
        remaining(buf, pos, false) == spec_read_back_all(flags),
    decreases flags.len(),
{
    if flags.len() == 0 {
        lemma_remaining(buf, pos, false);
    } else {
        let flag = flags[0];
        let others = flags.drop_first();
        let whole = spec_join(spec_render(flag));
        let suffix = buf.subrange(pos, buf.len() as int);
        lemma_join_concat(spec_render(flag), spec_render_all(others));
        let end = pos + whole.len();
        assert forall|i: int| 0 <= i < others.len() implies is_clean(#[trigger] others[i]) by {
            assert(others[i] == flags[i + 1]);
        }
        if others.len() == 0 {
            assert(spec_render_all(others) =~= Seq::empty());
            assert(buf.subrange(pos, end) =~= whole);
            lemma_remaining(buf, end, false);
            assert(spec_read_back_all(others) =~= Seq::empty());
        } else {
            assert(spec_render_all(others).len() > 0);
            let tail = spec_join(spec_render_all(others));
            assert(suffix == whole + seq![SEPARATOR] + tail);
            assert(buf.subrange(pos, end) =~= whole) by {
                assert forall|j: int| 0 <= j < whole.len() implies buf[pos + j] == whole[j] by {
                    assert(suffix[j] == buf[pos + j]);
                }
            }
            assert(buf[end] == SEPARATOR) by {
                assert(suffix[whole.len() as int] == buf[end]);
            }
            assert(buf.subrange(end + 1, buf.len() as int) =~= tail) by {
                assert forall|j: int| 0 <= j < tail.len() implies buf[end + 1 + j] == tail[j] by {
                    assert(suffix[whole.len() + 1 + j] == buf[end + 1 + j]);
                }
            }
            lemma_remaining_rendered(buf, end + 1, others);
        }
        if spec_argument(flag) is Some {
            lemma_clean_argument(flag);
        }
        lemma_step_rendered(buf, pos, flag);
        assert(remaining(buf, spec_after(buf, end), false) == spec_read_back_all(others));
    }
}

/// What an ambiguous flag is written as is read back as another flag, or
/// as none.
proof fn lemma_ambiguous_reads_another(flag: FlagView)
    requires
        is_clean(flag),
        is_ambiguous(flag),
    ensures
        spec_read_back(flag) != seq![flag],
{
    reveal(spec_opt);
    let arg = spec_argument(flag).unwrap();
    lemma_clean_argument(flag);
    match flag {
        FlagView::Link { kind, modifiers, name, rename } => {
            let whole = spec_render_link_name(name, rename);
            assert(arg =~= whole);
            if spec_read_back(flag) == seq![flag] {
                let read = spec_link(arg);
                assert(spec_read_back(flag) == opt_seq(read));
                assert(seq![flag].len() == 1);
                assert(read is Some);
                assert(opt_seq(read)[0] == read.unwrap());
                assert(seq![flag][0] == flag);
                assert(read == Some(flag));
                lemma_find_byte(arg, EQUALS, 0);
                assert(split_at_byte(arg, EQUALS) is Some);
                lemma_link_reads_clean(arg);
                lemma_split_parts(arg, EQUALS);
            }
        },
        FlagView::LibrarySearchPath { kind, path } => {
            if spec_read_back(flag) == seq![flag] {
                let read = spec_library_search_path(arg);
                assert(spec_read_back(flag) == opt_seq(read));
                assert(seq![flag].len() == 1);
                assert(read is Some);
                assert(opt_seq(read)[0] == read.unwrap());
                assert(seq![flag][0] == flag);
                assert(read == Some(flag));
                lemma_find_byte(arg, EQUALS, 0);
                assert(split_at_byte(arg, EQUALS) is Some);
                lemma_split_parts(arg, EQUALS);
            }
        },
        _ => {},
    }
}

/// What is read back from a clean flag is one flag at most, and is the flag
/// itself exactly when the flag is canonical.
pub proof fn lemma_read_back(flag: FlagView)
    requires
        is_clean(flag),
    ensures
        spec_read_back(flag).len() <= 1,
        spec_read_back(flag) == seq![flag] <==> is_canonical(flag),
{
    if is_ambiguous(flag) {
        lemma_ambiguous_reads_another(flag);
    } else if spec_argument(flag) is Some {
        lemma_argument_round_trip(flag);
    }
}

/// What is read back from clean flags is no more flags than they are, and
/// is the flags themselves exactly when each of them is canonical.
pub proof fn lemma_read_back_all(flags: Seq<FlagView>)
    requires
        forall|i: int| 0 <= i < flags.len() ==> is_clean(#[trigger] flags[i]),
    ensures
        spec_read_back_all(flags).len() <= flags.len(),
        spec_read_back_all(flags) == flags <==> forall|i: int|
            0 <= i < flags.len() ==> is_canonical(#[trigger] flags[i]),
    decreases flags.len(),
{
    if flags.len() == 0 {
        assert(flags =~= Seq::empty());
    } else {
        let first = spec_read_back(flags[0]);
        let others = flags.drop_first();
        let read = spec_read_back_all(others);
        lemma_read_back(flags[0]);
        lemma_read_back_all(others);
        if forall|i: int| 0 <= i < flags.len() ==> is_canonical(#[trigger] flags[i]) {
            assert forall|i: int| 0 <= i < others.len() implies is_canonical(
                #[trigger] others[i],
            ) by {
                assert(others[i] == flags[i + 1]);
            }
            assert(seq![flags[0]] + others =~= flags);
        }
        if first + read == flags {
            assert(first.len() == 1);
            assert((first + read)[0] == first[0]);
            assert(first =~= seq![flags[0]]);
            assert(read =~= others) by {
                assert forall|i: int| 0 <= i < others.len() implies read[i] == others[i] by {
                    assert((first + read)[i + 1] == read[i]);
                }
            }
            assert forall|i: int| 0 <= i < flags.len() implies is_canonical(
                #[trigger] flags[i],
            ) by {
                if i > 0 {
                    assert(others[i - 1] == flags[i]);
                }
            }
        }
    }
}

/// A canonical flag that is rendered, and decoded from the
/// arguments that it was rendered as, is the same flag again and nothing
/// else.
pub proof fn lemma_round_trip(flag: FlagView)
    requires
        is_canonical(flag),
    ensures
        decode(spec_join(spec_render(flag))) == seq![flag],
{
    if spec_argument(flag) is Some {
        lemma_argument_round_trip(flag);
    }
    lemma_decode_rendered(flag);
}

/// A flag that is rendered, and decoded from the arguments that it was
/// rendered as, is the same flag again and nothing else exactly when it is
/// canonical.
pub proof fn lemma_round_trip_iff_canonical(flag: FlagView)
    ensures
        decode(spec_join(spec_render(flag))) == seq![flag] <==> is_canonical(flag),
{
    let buf = spec_join(spec_render(flag));
    if is_canonical(flag) {
        lemma_round_trip(flag);
    }
    if decode(buf) == seq![flag] {
        lemma_decoded_is_clean(buf);
        assert(decode(buf)[0] == flag);
        if spec_argument(flag) is Some {
            lemma_clean_argument(flag);
        }
        lemma_decode_rendered(flag);
        if is_ambiguous(flag) {
            lemma_ambiguous_reads_another(flag);
        }
    }
}

/// Clean flags that are rendered one after the other are decoded to what is
/// read back from them.
pub proof fn lemma_decode_rendered_all(flags: Seq<FlagView>)
    requires
        forall|i: int| 0 <= i < flags.len() ==> is_clean(#[trigger] flags[i]),
    ensures
        decode(spec_join(spec_render_all(flags))) == spec_read_back_all(flags),
{
    let buf = spec_join(spec_render_all(flags));
    assert(buf.subrange(0, buf.len() as int) =~= buf);
    lemma_remaining_rendered(buf, 0, flags);
}

/// Canonical flags that are rendered one after the other, and decoded from
/// the arguments that they were rendered as, are the same flags again in the
/// same order.
pub proof fn lemma_round_trip_all(flags: Seq<FlagView>)
    requires
        forall|i: int| 0 <= i < flags.len() ==> is_canonical(#[trigger] flags[i]),
    ensures
        decode(spec_join(spec_render_all(flags))) == flags,
{
    lemma_decode_rendered_all(flags);
    lemma_read_back_all(flags);
}

/// Where no flag of an encoded string is ambiguous, rendering each of its
/// flags, joining what they were rendered as with separators, and decoding
/// that gives the same flags again.
pub proof fn lemma_stream_round_trip(buf: Seq<u8>)
    requires
        forall|i: int| 0 <= i < decode(buf).len() ==> !is_ambiguous(#[trigger] decode(buf)[i]),
    ensures
        decode(spec_join(spec_render_all(decode(buf)))) == decode(buf),
{
    lemma_decoded_is_clean(buf);
    lemma_round_trip_all(decode(buf));
}

/// Rendering each flag of an encoded string, joining what they were
/// rendered as with separators, and decoding that gives the same flags again
/// exactly when none of them is ambiguous.
pub proof fn lemma_stream_round_trip_iff_unambiguous(buf: Seq<u8>)
    ensures
        decode(spec_join(spec_render_all(decode(buf)))) == decode(buf) <==> forall|i: int|
            0 <= i < decode(buf).len() ==> !is_ambiguous(#[trigger] decode(buf)[i]),
{
    let flags = decode(buf);
    lemma_decoded_is_clean(buf);
    lemma_decode_rendered_all(flags);
    lemma_read_back_all(flags);
}

/// What a clean flag is written as are arguments of which none holds a
/// separator.
pub proof fn lemma_rendered_tokens(flag: FlagView)
    requires
        is_clean(flag),
    ensures
        forall|i: int|
            0 <= i < spec_render(flag).len() ==> is_token(#[trigger] spec_render(flag)[i]),
{
    lemma_spelling(flag);
    let head = spec_head(flag);
    match spec_spelling(flag) {
        Spelling::Long(name) => {
            lemma_word_lacks(text(name), SEPARATOR);
            lemma_concat_lacks(seq![MINUS, MINUS], text(name), SEPARATOR);
        },
        Spelling::Short(letter) => {},
    }
    assert(is_token(head));
    if spec_argument(flag) is Some {
        lemma_clean_argument(flag);
    }
}

/// A library to link is written without its kind where the kind is the
/// default and there is no modifier. With a modifier it is written with its
/// kind, whatever the kind is.
pub proof fn lemma_default_kind_is_left_out(
    kind: LinkKind,
    modifiers: Seq<(LinkModifierPrefix, LinkModifier)>,
    name: Seq<u8>,
    rename: Option<Seq<u8>>,
)
    ensures
        spec_render(FlagView::Link { kind, modifiers, name, rename }).len() == 2,
        spec_render(FlagView::Link { kind, modifiers, name, rename })[0] == seq![MINUS, 0x6Cu8],
        kind == LinkKind::Dylib && modifiers.len() == 0 ==> spec_render(
            FlagView::Link { kind, modifiers, name, rename },
        )[1] == spec_render_link_name(name, rename),
        modifiers.len() > 0 ==> spec_render(FlagView::Link { kind, modifiers, name, rename })[1]
            == text(kind.name()) + seq![COLON] + spec_join_modifiers(modifiers) + seq![EQUALS]
            + spec_render_link_name(name, rename),
{
    let arg = spec_argument(FlagView::Link { kind, modifiers, name, rename }).unwrap();
    if kind == LinkKind::Dylib && modifiers.len() == 0 {
        assert(arg =~= spec_render_link_name(name, rename));
    }
}

/// An empty string holds no flag.
pub proof fn lemma_decode_empty()
    ensures
        decode(Seq::<u8>::empty()) == Seq::<FlagView>::empty(),
{
    lemma_remaining(Seq::<u8>::empty(), 0, false);
}

} // verus!
