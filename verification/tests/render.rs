use rustflags::{
    from_encoded, Color, CrateType, Emit, ErrorFormat, Flag, Iter, LibraryKind, LinkKind,
    LinkModifier, LinkModifierPrefix, LintLevel,
};

fn render(flag: Flag) -> Vec<Vec<u8>> {
    let mut rendered: Iter = flag.into_iter();
    let mut args = Vec::new();
    while let Some(arg) = rendered.next() {
        args.push(arg);
    }
    assert_eq!(None, rendered.next());
    args
}

fn args(expected: &[&[u8]]) -> Vec<Vec<u8>> {
    expected.iter().map(|arg| arg.to_vec()).collect()
}

fn link(kind: LinkKind, modifiers: &[(LinkModifierPrefix, LinkModifier)], name: &str, rename: Option<&str>) -> Flag {
    Flag::Link {
        kind,
        modifiers: modifiers.to_vec(),
        name: name.to_owned(),
        rename: rename.map(str::to_owned),
    }
}

fn samples() -> Vec<Flag> {
    let text = |s: &str| s.to_owned();
    let mut flags = vec![
        Flag::Help,
        Flag::Cfg { name: text("feature"), value: Some(text("a=b,c")) },
        Flag::Cfg { name: text(""), value: None },
        Flag::LibrarySearchPath { kind: LibraryKind::All, path: b"\xFFdir".to_vec() },
        Flag::LibrarySearchPath { kind: LibraryKind::Framework, path: b"a=b".to_vec() },
        link(LinkKind::Dylib, &[], "m", None),
        link(LinkKind::Dylib, &[], "m", Some("n:o")),
        link(LinkKind::Framework, &[], "a=b", Some("c=d")),
        link(
            LinkKind::Dylib,
            &[
                (LinkModifierPrefix::Disable, LinkModifier::AsNeeded),
                (LinkModifierPrefix::Enable, LinkModifier::Verbatim),
                (LinkModifierPrefix::Enable, LinkModifier::Verbatim),
            ],
            "",
            Some(""),
        ),
        Flag::CrateName(text("core")),
        Flag::Edition(0),
        Flag::Edition(65535),
        Flag::Print(text("cfg")),
        Flag::Out(b"".to_vec()),
        Flag::OutDir(b"\x80\x81".to_vec()),
        Flag::Explain(text("E0282")),
        Flag::Test,
        Flag::Target(text("x86_64-unknown-linux-gnu")),
        Flag::Allow(text("dead_code")),
        Flag::Warn(text("w")),
        Flag::ForceWarn(text("f")),
        Flag::Deny(text("d")),
        Flag::Forbid(text("-h")),
        Flag::Codegen { opt: text("opt-level"), value: Some(text("s=z")) },
        Flag::Codegen { opt: text("embed-bitcode"), value: None },
        Flag::Version,
        Flag::Verbose,
        Flag::Extern { name: text("serde"), path: Some(b"lib\xFF.rlib".to_vec()) },
        Flag::Extern { name: text("serde"), path: None },
        Flag::ExternLocation { name: text("serde"), location: b"json:{}".to_vec() },
        Flag::Sysroot(b"/".to_vec()),
        Flag::Z(text("sanitizer=address")),
        Flag::Json(text("artifacts")),
        Flag::RemapPathPrefix { from: b"/a".to_vec(), to: b"/b=c".to_vec() },
    ];
    for kind in [LinkKind::Static, LinkKind::Framework, LinkKind::Dylib] {
        flags.push(link(kind, &[(LinkModifierPrefix::Enable, LinkModifier::Bundle)], "z", None));
    }
    for crate_type in [
        CrateType::Bin,
        CrateType::Lib,
        CrateType::Rlib,
        CrateType::Dylib,
        CrateType::Cdylib,
        CrateType::Staticlib,
        CrateType::ProcMacro,
    ] {
        flags.push(Flag::CrateType(crate_type));
    }
    for emit in [
        Emit::Asm,
        Emit::LlvmBc,
        Emit::LlvmIr,
        Emit::Obj,
        Emit::Metadata,
        Emit::Link,
        Emit::DepInfo,
        Emit::Mir,
    ] {
        flags.push(Flag::Emit(emit));
    }
    for level in [LintLevel::Allow, LintLevel::Warn, LintLevel::Deny, LintLevel::Forbid] {
        flags.push(Flag::CapLints(level));
    }
    for format in [ErrorFormat::Human, ErrorFormat::Json, ErrorFormat::Short] {
        flags.push(Flag::ErrorFormat(format));
    }
    for color in [Color::Auto, Color::Always, Color::Never] {
        flags.push(Flag::Color(color));
    }
    flags
}

#[test]
fn default_kind_is_left_out_without_modifiers() {
    assert_eq!(args(&[b"-l", b"NAME"]), render(link(LinkKind::Dylib, &[], "NAME", None)));
    assert_eq!(
        args(&[b"-l", b"dylib:+bundle=NAME"]),
        render(link(
            LinkKind::Dylib,
            &[(LinkModifierPrefix::Enable, LinkModifier::Bundle)],
            "NAME",
            None,
        )),
    );
    assert_eq!(
        args(&[b"-l", b"static=NAME:RENAME"]),
        render(link(LinkKind::Static, &[], "NAME", Some("RENAME"))),
    );
    assert_eq!(
        args(&[b"-l", b"framework:-whole-archive,+as-needed,-verbatim=NAME"]),
        render(link(
            LinkKind::Framework,
            &[
                (LinkModifierPrefix::Disable, LinkModifier::WholeArchive),
                (LinkModifierPrefix::Enable, LinkModifier::AsNeeded),
                (LinkModifierPrefix::Disable, LinkModifier::Verbatim),
            ],
            "NAME",
            None,
        )),
    );
    assert_eq!(
        args(&[b"-L", b"PATH"]),
        render(Flag::LibrarySearchPath { kind: LibraryKind::All, path: b"PATH".to_vec() }),
    );
    assert_eq!(
        args(&[b"-L", b"dependency=PATH"]),
        render(Flag::LibrarySearchPath { kind: LibraryKind::Dependency, path: b"PATH".to_vec() }),
    );
}

#[test]
fn flags_are_written_by_their_long_names() {
    assert_eq!(args(&[b"--help"]), render(Flag::Help));
    assert_eq!(args(&[b"--test"]), render(Flag::Test));
    assert_eq!(args(&[b"--version"]), render(Flag::Version));
    assert_eq!(args(&[b"--verbose"]), render(Flag::Verbose));
    assert_eq!(args(&[b"--allow", b"x"]), render(Flag::Allow("x".to_owned())));
    assert_eq!(args(&[b"--warn", b"x"]), render(Flag::Warn("x".to_owned())));
    assert_eq!(args(&[b"--deny", b"x"]), render(Flag::Deny("x".to_owned())));
    assert_eq!(args(&[b"--forbid", b"x"]), render(Flag::Forbid("x".to_owned())));
    assert_eq!(args(&[b"--force-warn", b"x"]), render(Flag::ForceWarn("x".to_owned())));
    assert_eq!(args(&[b"-o", b"x"]), render(Flag::Out(b"x".to_vec())));
    assert_eq!(args(&[b"-Z", b"x"]), render(Flag::Z("x".to_owned())));
    assert_eq!(args(&[b"--out-dir", b"\xFF"]), render(Flag::OutDir(b"\xFF".to_vec())));
    assert_eq!(args(&[b"--sysroot", b""]), render(Flag::Sysroot(Vec::new())));
    assert_eq!(args(&[b"--crate-type", b"cdylib"]), render(Flag::CrateType(CrateType::Cdylib)));
    assert_eq!(args(&[b"--emit", b"dep-info"]), render(Flag::Emit(Emit::DepInfo)));
    assert_eq!(args(&[b"--cap-lints", b"forbid"]), render(Flag::CapLints(LintLevel::Forbid)));
    assert_eq!(args(&[b"--error-format", b"short"]), render(Flag::ErrorFormat(ErrorFormat::Short)));
    assert_eq!(args(&[b"--color", b"never"]), render(Flag::Color(Color::Never)));
}

#[test]
fn key_and_value_are_written_with_an_equals_sign() {
    assert_eq!(
        args(&[b"--cfg", b"feature=\"std\""]),
        render(Flag::Cfg { name: "feature".to_owned(), value: Some("std".to_owned()) }),
    );
    assert_eq!(
        args(&[b"--cfg", b"unix"]),
        render(Flag::Cfg { name: "unix".to_owned(), value: None }),
    );
    assert_eq!(
        args(&[b"-C", b"opt-level=2"]),
        render(Flag::Codegen { opt: "opt-level".to_owned(), value: Some("2".to_owned()) }),
    );
    assert_eq!(
        args(&[b"-C", b"lto"]),
        render(Flag::Codegen { opt: "lto".to_owned(), value: None }),
    );
    assert_eq!(
        args(&[b"--extern", b"a=\xFFb"]),
        render(Flag::Extern { name: "a".to_owned(), path: Some(b"\xFFb".to_vec()) }),
    );
    assert_eq!(
        args(&[b"--extern", b"a"]),
        render(Flag::Extern { name: "a".to_owned(), path: None }),
    );
    assert_eq!(
        args(&[b"--extern-location", b"a=raw:b"]),
        render(Flag::ExternLocation { name: "a".to_owned(), location: b"raw:b".to_vec() }),
    );
    assert_eq!(
        args(&[b"--remap-path-prefix", b"FROM=TO"]),
        render(Flag::RemapPathPrefix { from: b"FROM".to_vec(), to: b"TO".to_vec() }),
    );
}

#[test]
fn edition_is_written_in_base_ten() {
    assert_eq!(args(&[b"--edition", b"0"]), render(Flag::Edition(0)));
    assert_eq!(args(&[b"--edition", b"9"]), render(Flag::Edition(9)));
    assert_eq!(args(&[b"--edition", b"10"]), render(Flag::Edition(10)));
    assert_eq!(args(&[b"--edition", b"2021"]), render(Flag::Edition(2021)));
    assert_eq!(args(&[b"--edition", b"65535"]), render(Flag::Edition(65535)));
    for edition in [0u16, 1, 99, 100, 2015, 30000, 65535] {
        assert_eq!(
            vec![b"--edition".to_vec(), edition.to_string().into_bytes()],
            render(Flag::Edition(edition)),
        );
    }
}

#[test]
fn rendered_flag_decodes_to_itself() {
    let rendered: Vec<Vec<Vec<u8>>> = samples().into_iter().map(render).collect();
    for (flag, args) in samples().into_iter().zip(rendered) {
        let encoded = args.join(&b'\x1F');
        assert_eq!(vec![flag], from_encoded(&encoded).collect());
    }
}

#[test]
fn rendered_flags_decode_to_themselves_in_order() {
    let mut args = Vec::new();
    for flag in samples() {
        args.extend(render(flag));
    }
    let encoded = args.join(&b'\x1F');
    assert_eq!(samples(), from_encoded(&encoded).collect());
}

#[test]
fn decoded_flags_render_to_what_decodes_to_them() {
    let inputs: [&[u8]; 6] = [
        b"-gO\x1F--emit=asm,x,mir\x1F-Lnative=\xFF\x1Fpositional\x1F--cfg\x1Fa=\"b\"",
        b"-l\x1Fstatic:+bundle,-junk=a:b\x1F--crate-type\x1Frlib,,lib\x1F--unknown\x1F-vh",
        b"--edition=+02021\x1F-o\x1F\x1F--target\x1F",
        b"-\x1F--crate-name=\xC3\xA9\x1F-x\xFF\x1F--extern=a=b=c\x1F--",
        b"--codegen\x1Fa=\x1F-Cb\x1F-Zc\x1F-Ad\x1F-We\x1F-Df\x1F-Fg\x1F-V",
        b"",
    ];
    for input in inputs {
        let flags = from_encoded(input).collect();
        let mut args = Vec::new();
        for flag in from_encoded(input).collect() {
            args.extend(render(flag));
        }
        assert_eq!(flags, from_encoded(&args.join(&b'\x1F')).collect());
    }
}

#[test]
fn flag_that_is_not_canonical_does_not_decode_to_itself() {
    let decode = |flag: Flag| from_encoded(&render(flag).join(&b'\x1F')).collect();
    assert_eq!(
        vec![Flag::CrateName("a".to_owned())],
        decode(Flag::CrateName("a\x1Fb".to_owned())),
    );
    assert_eq!(Vec::<Flag>::new(), decode(link(LinkKind::Dylib, &[], "a=b", None)));
    assert_eq!(
        vec![link(LinkKind::Static, &[], "b", None)],
        decode(link(LinkKind::Dylib, &[], "static=b", None)),
    );
    assert_eq!(
        vec![Flag::LibrarySearchPath { kind: LibraryKind::Native, path: b"x".to_vec() }],
        decode(Flag::LibrarySearchPath { kind: LibraryKind::All, path: b"native=x".to_vec() }),
    );
    assert_eq!(
        Vec::<Flag>::new(),
        decode(Flag::Cfg { name: "a".to_owned(), value: Some("b\"c".to_owned()) }),
    );
    assert_eq!(
        vec![Flag::Codegen { opt: "a".to_owned(), value: Some("b".to_owned()) }],
        decode(Flag::Codegen { opt: "a=b".to_owned(), value: None }),
    );
}

fn is_ambiguous(flag: &Flag) -> bool {
    match flag {
        Flag::LibrarySearchPath { kind, path } => *kind == LibraryKind::All && path.contains(&b'='),
        Flag::Link { kind, modifiers, name, rename } => {
            *kind == LinkKind::Dylib
                && modifiers.is_empty()
                && (name.contains('=') || rename.as_ref().is_some_and(|rename| rename.contains('=')))
        }
        _ => false,
    }
}

#[test]
fn strings_of_any_bytes_decode_and_round_trip() {
    let pieces: [&[u8]; 48] = [
        b"-", b"--", b"=", b":", b",", b"\"", b"+", b"a", b"2", b"\xFF", b"\xC3", b"\xC3\xA9",
        b"\xE2\x82\xAC", b"-h", b"-g", b"-l", b"-L", b"-o", b"-C", b"-v", b"-Z", b"--emit",
        b"--crate-type", b"--cfg", b"--edition", b"--extern", b"--help", b"--remap-path-prefix",
        b"--color", b"--sysroot", b"asm", b"mir", b"lib", b"bin", b"static", b"dylib", b"all",
        b"native", b"+bundle", b"-verbatim", b"auto", b"x=\"y\"", b"k=v", b"static:+bundle=", b"",
        b"dylib=", b"all=", b"2021",
    ];
    let mut state: u64 = 0x2545F4914F6CDD1D;
    let mut next = move |bound: u64| {
        state = state.wrapping_mul(6364136223846793005).wrapping_add(1442695040888963407);
        (state >> 33) % bound
    };
    let mut ambiguous = 0;
    let mut decoded = 0;
    for _ in 0..20000 {
        let mut args: Vec<Vec<u8>> = Vec::new();
        for _ in 0..next(6) {
            let mut arg = Vec::new();
            for _ in 0..1 + next(3) {
                arg.extend_from_slice(pieces[next(48) as usize]);
            }
            args.push(arg);
        }
        let encoded = args.join(&b'\x1F');
        let flags = from_encoded(&encoded).collect();
        decoded += flags.len();
        if flags.iter().any(is_ambiguous) {
            ambiguous += 1;
            continue;
        }
        let mut rendered = Vec::new();
        for flag in from_encoded(&encoded).collect() {
            rendered.extend(render(flag));
        }
        for arg in &rendered {
            assert!(!arg.contains(&b'\x1F'));
        }
        assert_eq!(flags, from_encoded(&rendered.join(&b'\x1F')).collect());
    }
    assert!(decoded > 5000);
    assert!(ambiguous > 0);
}
