//! The renderer: from a flag to the arguments that decode to it.
//!
//! [`spec_render`] says which arguments a flag is written as. A flag that
//! takes no argument is written by its long name. A value that is the
//! default is left out, where nothing else of the argument depends on it.

use vstd::prelude::*;

use crate::parse::opt::{COLON, COMMA, EQUALS, MINUS, QUOTE};
use crate::string::text;
use crate::words::{is_word, lemma_link_kind_names};
use crate::{
    opt_string_bytes, string_bytes, Flag, FlagView, LibraryKind, LinkKind, LinkModifier,
    LinkModifierPrefix,
};

verus! {

/// `--NAME`
pub open spec fn spec_long(name: &str) -> Seq<u8> {
    seq![MINUS, MINUS] + text(name)
}

/// `-X`
pub open spec fn spec_short(letter: char) -> Seq<u8> {
    seq![MINUS, letter as u8]
}

/// `KEY=VALUE`
pub open spec fn spec_kv(k: Seq<u8>, v: Seq<u8>) -> Seq<u8> {
    k + seq![EQUALS] + v
}

/// The digits of `n` in base ten.
pub open spec fn spec_decimal(n: nat) -> Seq<u8>
    decreases n,
{
    if n < 10 {
        seq![(0x30 + n) as u8]
    } else {
        spec_decimal(n / 10) + seq![(0x30 + n % 10) as u8]
    }
}

/// One modifier: `+` or `-`, then its name.
pub open spec fn spec_render_modifier(modifier: (LinkModifierPrefix, LinkModifier)) -> Seq<u8> {
    text(modifier.0.name()) + text(modifier.1.name())
}

/// The modifiers, with a comma between each two.
pub open spec fn spec_join_modifiers(modifiers: Seq<(LinkModifierPrefix, LinkModifier)>) -> Seq<u8>
    decreases modifiers.len(),
{
    if modifiers.len() == 0 {
        Seq::empty()
    } else if modifiers.len() == 1 {
        spec_render_modifier(modifiers[0])
    } else {
        spec_render_modifier(modifiers[0]) + seq![COMMA] + spec_join_modifiers(
            modifiers.drop_first(),
        )
    }
}

/// `KIND:MODIFIERS=`, or `KIND=` where there is no modifier, or nothing
/// where there is none and the kind is the default.
pub open spec fn spec_render_link_kind(
    kind: LinkKind,
    modifiers: Seq<(LinkModifierPrefix, LinkModifier)>,
) -> Seq<u8> {
    if modifiers.len() > 0 {
        text(kind.name()) + seq![COLON] + spec_join_modifiers(modifiers) + seq![EQUALS]
    } else if kind != LinkKind::Dylib {
        text(kind.name()) + seq![EQUALS]
    } else {
        Seq::empty()
    }
}

/// `NAME`, or `NAME:RENAME`
pub open spec fn spec_render_link_name(name: Seq<u8>, rename: Option<Seq<u8>>) -> Seq<u8> {
    match rename {
        Some(rename) => name + seq![COLON] + rename,
        None => name,
    }
}

/// `NAME="VALUE"`
pub open spec fn spec_render_cfg_value(name: Seq<u8>, value: Seq<u8>) -> Seq<u8> {
    name + seq![EQUALS, QUOTE] + value + seq![QUOTE]
}

/// The name by which a flag is written: a long name after `--`, or a letter
/// after `-`.
pub enum Spelling {
    Long(&'static str),
    Short(char),
}

/// The name by which `flag` is written. A flag that takes no argument is
/// written by its long name.
pub open spec fn spec_spelling(flag: FlagView) -> Spelling {
    match flag {
        FlagView::Help => Spelling::Long("help"),
        FlagView::Cfg { .. } => Spelling::Long("cfg"),
        FlagView::LibrarySearchPath { .. } => Spelling::Short('L'),
        FlagView::Link { .. } => Spelling::Short('l'),
        FlagView::CrateType(_) => Spelling::Long("crate-type"),
        FlagView::CrateName(_) => Spelling::Long("crate-name"),
        FlagView::Edition(_) => Spelling::Long("edition"),
        FlagView::Emit(_) => Spelling::Long("emit"),
        FlagView::Print(_) => Spelling::Long("print"),
        FlagView::Out(_) => Spelling::Short('o'),
        FlagView::OutDir(_) => Spelling::Long("out-dir"),
        FlagView::Explain(_) => Spelling::Long("explain"),
        FlagView::Test => Spelling::Long("test"),
        FlagView::Target(_) => Spelling::Long("target"),
        FlagView::Allow(_) => Spelling::Long("allow"),
        FlagView::Warn(_) => Spelling::Long("warn"),
        FlagView::ForceWarn(_) => Spelling::Long("force-warn"),
        FlagView::Deny(_) => Spelling::Long("deny"),
        FlagView::Forbid(_) => Spelling::Long("forbid"),
        FlagView::CapLints(_) => Spelling::Long("cap-lints"),
        FlagView::Codegen { .. } => Spelling::Short('C'),
        FlagView::Version => Spelling::Long("version"),
        FlagView::Verbose => Spelling::Long("verbose"),
        FlagView::Extern { .. } => Spelling::Long("extern"),
        FlagView::ExternLocation { .. } => Spelling::Long("extern-location"),
        FlagView::Sysroot(_) => Spelling::Long("sysroot"),
        FlagView::Z(_) => Spelling::Short('Z'),
        FlagView::ErrorFormat(_) => Spelling::Long("error-format"),
        FlagView::Json(_) => Spelling::Long("json"),
        FlagView::Color(_) => Spelling::Long("color"),
        FlagView::RemapPathPrefix { .. } => Spelling::Long("remap-path-prefix"),
    }
}

/// The argument that follows the name of `flag`, if it takes one.
pub open spec fn spec_argument(flag: FlagView) -> Option<Seq<u8>> {
    match flag {
        FlagView::Help => None,
        FlagView::Cfg { name, value } => Some(
            match value {
                Some(value) => spec_render_cfg_value(name, value),
                None => name,
            },
        ),
        FlagView::LibrarySearchPath { kind, path } => Some(
            if kind == LibraryKind::All {
                path
            } else {
                spec_kv(text(kind.name()), path)
            },
        ),
        FlagView::Link { kind, modifiers, name, rename } => Some(
            spec_render_link_kind(kind, modifiers) + spec_render_link_name(name, rename),
        ),
        FlagView::CrateType(crate_type) => Some(text(crate_type.name())),
        FlagView::CrateName(crate_name) => Some(crate_name),
        FlagView::Edition(edition) => Some(spec_decimal(edition as nat)),
        FlagView::Emit(emit) => Some(text(emit.name())),
        FlagView::Print(print) => Some(print),
        FlagView::Out(filename) => Some(filename),
        FlagView::OutDir(dir) => Some(dir),
        FlagView::Explain(code) => Some(code),
        FlagView::Test => None,
        FlagView::Target(target) => Some(target),
        FlagView::Allow(lint) => Some(lint),
        FlagView::Warn(lint) => Some(lint),
        FlagView::ForceWarn(lint) => Some(lint),
        FlagView::Deny(lint) => Some(lint),
        FlagView::Forbid(lint) => Some(lint),
        FlagView::CapLints(level) => Some(text(level.name())),
        FlagView::Codegen { opt, value } => Some(
            match value {
                Some(value) => spec_kv(opt, value),
                None => opt,
            },
        ),
        FlagView::Version => None,
        FlagView::Verbose => None,
        FlagView::Extern { name, path } => Some(
            match path {
                Some(path) => spec_kv(name, path),
                None => name,
            },
        ),
        FlagView::ExternLocation { name, location } => Some(spec_kv(name, location)),
        FlagView::Sysroot(sysroot) => Some(sysroot),
        FlagView::Z(flag) => Some(flag),
        FlagView::ErrorFormat(format) => Some(text(format.name())),
        FlagView::Json(json) => Some(json),
        FlagView::Color(color) => Some(text(color.name())),
        FlagView::RemapPathPrefix { from, to } => Some(spec_kv(from, to)),
    }
}

/// The name of `flag` as it stands in an argument.
pub open spec fn spec_head(flag: FlagView) -> Seq<u8> {
    match spec_spelling(flag) {
        Spelling::Long(name) => spec_long(name),
        Spelling::Short(letter) => spec_short(letter),
    }
}

/// The arguments that `flag` is written as: its name, then its argument if
/// it takes one.
pub open spec fn spec_render(flag: FlagView) -> Seq<Seq<u8>> {
    match spec_argument(flag) {
        Some(arg) => seq![spec_head(flag), arg],
        None => seq![spec_head(flag)],
    }
}

/// The views of the arguments in `items`.
pub open spec fn spec_tokens(items: Seq<Vec<u8>>) -> Seq<Seq<u8>> {
    Seq::new(items.len(), |i: int| items[i]@)
}

/// The arguments that a flag is written as, handed out one by one.
pub struct Iter {
    items: Vec<Vec<u8>>,
}

impl Iter {
    /// The arguments that are yet to come, in order.
    pub closed spec fn view(&self) -> Seq<Seq<u8>> {
        spec_tokens(self.items@)
    }

    /// Hands out the next argument, or `None` when none is left.
    pub fn next(&mut self) -> (item: Option<Vec<u8>>)
        ensures
            match item {
                Some(item) => old(self)@.len() > 0 && item@ == old(self)@[0] && final(self)@
                    == old(self)@.drop_first(),
                None => old(self)@.len() == 0 && final(self)@.len() == 0,
            },
    {
        if self.items.len() == 0 {
            None
        } else {
            let item = self.items.remove(0);
            assert(self@ =~= old(self)@.drop_first());
            Some(item)
        }
    }
}

/// Appends `bytes` to `out`.
fn push_bytes(out: &mut Vec<u8>, bytes: &[u8])
    ensures
        final(out)@ == old(out)@ + bytes@,
{
    let mut i: usize = 0;
    while i < bytes.len()
        invariant
            i <= bytes@.len(),
            out@ == old(out)@ + bytes@.subrange(0, i as int),
        decreases bytes@.len() - i,
    {
        out.push(bytes[i]);
        i += 1;
        assert(out@ =~= old(out)@ + bytes@.subrange(0, i as int));
    }
    assert(bytes@.subrange(0, i as int) =~= bytes@);
}

/// Appends the text `s` to `out`.
fn push_str(out: &mut Vec<u8>, s: &str)
    ensures
        final(out)@ == old(out)@ + text(s),
{
    push_bytes(out, s.as_bytes());
}

/// The bytes of the text `s`.
fn token(s: &str) -> (out: Vec<u8>)
    ensures
        out@ == text(s),
{
    let mut out = Vec::new();
    push_str(&mut out, s);
    assert(out@ =~= text(s));
    out
}

/// `--NAME`
fn long(name: &str) -> (out: Vec<u8>)
    ensures
        out@ == spec_long(name),
{
    let mut out = Vec::new();
    out.push(MINUS);
    out.push(MINUS);
    push_str(&mut out, name);
    assert(out@ =~= spec_long(name));
    out
}

/// `-X`
fn short(letter: char) -> (out: Vec<u8>)
    requires
        (letter as u32) < 0x80,
    ensures
        out@ == spec_short(letter),
{
    let mut out = Vec::new();
    out.push(MINUS);
    out.push(letter as u8);
    assert(out@ =~= spec_short(letter));
    out
}

/// The bytes of a string.
fn string_token(s: String) -> (out: Vec<u8>)
    ensures
        out@ == string_bytes(s),
{
    token(s.as_str())
}

/// Appends the digits of `n` in base ten to `out`.
fn push_decimal(out: &mut Vec<u8>, n: u16)
    ensures
        final(out)@ == old(out)@ + spec_decimal(n as nat),
    decreases n,
{
    if n >= 10 {
        push_decimal(out, n / 10);
    }
    out.push(0x30 + (n % 10) as u8);
    assert(out@ =~= old(out)@ + spec_decimal(n as nat));
}

/// `KEY=VALUE`
pub fn kv(k: &[u8], v: &[u8]) -> (out: Vec<u8>)
    ensures
        out@ == spec_kv(k@, v@),
{
    let mut out = Vec::new();
    push_bytes(&mut out, k);
    out.push(EQUALS);
    push_bytes(&mut out, v);
    assert(out@ =~= spec_kv(k@, v@));
    out
}

/// Joining up to `n + 1` modifiers is joining up to `n`, then a comma and
/// one more.
proof fn lemma_join_modifiers_last(modifiers: Seq<(LinkModifierPrefix, LinkModifier)>)
    requires
        modifiers.len() >= 2,
    ensures
        spec_join_modifiers(modifiers) == spec_join_modifiers(modifiers.drop_last()) + seq![COMMA]
            + spec_render_modifier(modifiers.last()),
    decreases modifiers.len(),
{
    let tail = modifiers.drop_first();
    let front = modifiers.drop_last();
    assert(front.drop_first() =~= tail.drop_last());
    assert(front[0] == modifiers[0]);
    assert(tail.last() == modifiers.last());
    if modifiers.len() == 2 {
        assert(spec_join_modifiers(tail) == spec_render_modifier(tail[0]));
        assert(spec_join_modifiers(front) == spec_render_modifier(front[0]));
    } else {
        lemma_join_modifiers_last(tail);
        assert(spec_join_modifiers(front) == spec_render_modifier(front[0]) + seq![COMMA]
            + spec_join_modifiers(front.drop_first()));
        assert(spec_join_modifiers(modifiers) =~= spec_join_modifiers(front) + seq![COMMA]
            + spec_render_modifier(modifiers.last()));
    }
}

/// Appends `KIND:MODIFIERS=`, as far as it is written.
fn push_link_kind(
    out: &mut Vec<u8>,
    kind: LinkKind,
    modifiers: &Vec<(LinkModifierPrefix, LinkModifier)>,
)
    requires
        old(out)@.len() == 0,
    ensures
        final(out)@ == spec_render_link_kind(kind, modifiers@),
{
    if kind != LinkKind::default() || modifiers.len() > 0 {
        push_str(out, kind.as_str());
    }
    let ghost written = out@;
    let mut i: usize = 0;
    while i < modifiers.len()
        invariant
            i <= modifiers@.len(),
            i == 0 ==> out@ == written,
            i > 0 ==> out@ == written + seq![COLON] + spec_join_modifiers(
                modifiers@.subrange(0, i as int),
            ),
        decreases modifiers@.len() - i,
    {
        let ghost before = out@;
        let ghost joined = modifiers@.subrange(0, i + 1);
        out.push(
            if i == 0 {
                COLON
            } else {
                COMMA
            },
        );
        let (prefix, modifier) = modifiers[i];
        push_str(out, prefix.as_str());
        push_str(out, modifier.as_str());
        proof {
            assert(joined.last() == modifiers@[i as int]);
            if i > 0 {
                assert(joined.drop_last() =~= modifiers@.subrange(0, i as int));
                lemma_join_modifiers_last(joined);
            }
            assert(out@ =~= written + seq![COLON] + spec_join_modifiers(joined));
        }
        i += 1;
    }
    assert(modifiers@.subrange(0, i as int) =~= modifiers@);
    if out.len() > 0 {
        out.push(EQUALS);
    }
    proof {
        lemma_link_kind_names();
        assert(is_word(text(kind.name())));
        assert(out@ =~= spec_render_link_kind(kind, modifiers@));
    }
}

/// The arguments of a flag that is written as one.
fn one(flag: Vec<u8>) -> (iter: Iter)
    ensures
        iter@ == seq![flag@],
{
    let mut items = Vec::new();
    items.push(flag);
    assert(spec_tokens(items@) =~= seq![flag@]);
    Iter { items }
}

/// The arguments of a flag that is written as two.
fn two(flag: Vec<u8>, arg: Vec<u8>) -> (iter: Iter)
    ensures
        iter@ == seq![flag@, arg@],
{
    let mut items = Vec::new();
    items.push(flag);
    items.push(arg);
    assert(spec_tokens(items@) =~= seq![flag@, arg@]);
    Iter { items }
}

/// `NAME="VALUE"`
fn cfg_value(name: &str, value: &str) -> (out: Vec<u8>)
    ensures
        out@ == spec_render_cfg_value(text(name), text(value)),
{
    let mut out = token(name);
    out.push(EQUALS);
    out.push(QUOTE);
    push_str(&mut out, value);
    out.push(QUOTE);
    assert(out@ =~= spec_render_cfg_value(text(name), text(value)));
    out
}

/// `[KIND[:MODIFIERS]=]NAME[:RENAME]`
fn link_value(
    kind: LinkKind,
    modifiers: &Vec<(LinkModifierPrefix, LinkModifier)>,
    name: &str,
    rename: &Option<String>,
) -> (out: Vec<u8>)
    ensures
        out@ == spec_render_link_kind(kind, modifiers@) + spec_render_link_name(
            text(name),
            opt_string_bytes(*rename),
        ),
{
    let mut out = Vec::new();
    push_link_kind(&mut out, kind, modifiers);
    push_str(&mut out, name);
    if let Some(rename) = rename {
        out.push(COLON);
        push_str(&mut out, rename.as_str());
    }
    assert(out@ =~= spec_render_link_kind(kind, modifiers@) + spec_render_link_name(
        text(name),
        opt_string_bytes(*rename),
    ));
    out
}

/// The digits of `n` in base ten.
fn decimal(n: u16) -> (out: Vec<u8>)
    ensures
        out@ == spec_decimal(n as nat),
{
    let mut out = Vec::new();
    push_decimal(&mut out, n);
    assert(out@ =~= spec_decimal(n as nat));
    out
}

impl Flag {
    /// Renders the flag as the arguments that decode to it.
    pub fn into_iter(self) -> (iter: Iter)
        ensures
            iter@ == spec_render(self@),
    {
        match self {
            Flag::Help => one(long("help")),
            Flag::Cfg { name, value } => match value {
                Some(value) => two(long("cfg"), cfg_value(name.as_str(), value.as_str())),
                None => two(long("cfg"), string_token(name)),
            },
            Flag::LibrarySearchPath { kind, path } => if kind == LibraryKind::All {
                two(short('L'), path)
            } else {
                two(short('L'), kv(kind.as_str().as_bytes(), path.as_slice()))
            },
            Flag::Link { kind, modifiers, name, rename } => two(
                short('l'),
                link_value(kind, &modifiers, name.as_str(), &rename),
            ),
            Flag::CrateType(crate_type) => two(long("crate-type"), token(crate_type.as_str())),
            Flag::CrateName(crate_name) => two(long("crate-name"), string_token(crate_name)),
            Flag::Edition(edition) => two(long("edition"), decimal(edition)),
            Flag::Emit(emit) => two(long("emit"), token(emit.as_str())),
            Flag::Print(print) => two(long("print"), string_token(print)),
            Flag::Out(filename) => two(short('o'), filename),
            Flag::OutDir(dir) => two(long("out-dir"), dir),
            Flag::Explain(code) => two(long("explain"), string_token(code)),
            Flag::Test => one(long("test")),
            Flag::Target(target) => two(long("target"), string_token(target)),
            Flag::Allow(lint) => two(long("allow"), string_token(lint)),
            Flag::Warn(lint) => two(long("warn"), string_token(lint)),
            Flag::ForceWarn(lint) => two(long("force-warn"), string_token(lint)),
            Flag::Deny(lint) => two(long("deny"), string_token(lint)),
            Flag::Forbid(lint) => two(long("forbid"), string_token(lint)),
            Flag::CapLints(lint_level) => two(long("cap-lints"), token(lint_level.as_str())),
            Flag::Codegen { opt, value } => match value {
                Some(value) => two(
                    short('C'),
                    kv(opt.as_str().as_bytes(), value.as_str().as_bytes()),
                ),
                None => two(short('C'), string_token(opt)),
            },
            Flag::Version => one(long("version")),
            Flag::Verbose => one(long("verbose")),
            Flag::Extern { name, path } => match path {
                Some(path) => two(
                    long("extern"),
                    kv(name.as_str().as_bytes(), path.as_slice()),
                ),
                None => two(long("extern"), string_token(name)),
            },
            Flag::ExternLocation { name, location } => two(
                long("extern-location"),
                kv(name.as_str().as_bytes(), location.as_slice()),
            ),
            Flag::Sysroot(sysroot) => two(long("sysroot"), sysroot),
            Flag::Z(flag) => two(short('Z'), string_token(flag)),
            Flag::ErrorFormat(error_format) => two(
                long("error-format"),
                token(error_format.as_str()),
            ),
            Flag::Json(json) => two(long("json"), string_token(json)),
            Flag::Color(color) => two(long("color"), token(color.as_str())),
            Flag::RemapPathPrefix { from, to } => two(
                long("remap-path-prefix"),
                kv(from.as_slice(), to.as_slice()),
            ),
        }
    }
}

} // verus!
