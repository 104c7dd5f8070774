use rustflags::{
    from_encoded, Color, CrateType, Emit, ErrorFormat, Flag, LibraryKind, LinkKind, LinkModifier,
    LinkModifierPrefix, LintLevel,
};

fn decode(args: &[&[u8]]) -> Vec<Flag> {
    from_encoded(&args.join(&b'\x1F')).collect()
}

fn codegen(opt: &str, value: Option<&str>) -> Flag {
    Flag::Codegen {
        opt: opt.to_owned(),
        value: value.map(str::to_owned),
    }
}

#[test]
fn empty_input_has_no_flag() {
    let mut flags = from_encoded(b"");
    assert_eq!(None, flags.next());
    assert_eq!(None, flags.next());
    assert_eq!(Vec::<Flag>::new(), from_encoded(&[]).collect());
}

#[test]
fn comma_list_gives_one_flag_per_item() {
    assert_eq!(
        vec![Flag::Emit(Emit::Asm), Flag::Emit(Emit::Mir)],
        decode(&[b"--emit", b"asm,mir"]),
    );
    assert_eq!(
        vec![Flag::Emit(Emit::Mir)],
        decode(&[b"--emit", b"unrecognized,mir"]),
    );
    assert_eq!(
        vec![Flag::Emit(Emit::Asm)],
        decode(&[b"--emit", b"asm,unrecognized"]),
    );
    assert_eq!(
        vec![
            Flag::Emit(Emit::LlvmBc),
            Flag::Emit(Emit::DepInfo),
            Flag::Emit(Emit::Link),
        ],
        decode(&[b"--emit=llvm-bc,,x,dep-info,link,"]),
    );
    assert_eq!(Vec::<Flag>::new(), decode(&[b"--emit", b""]));
    assert_eq!(Vec::<Flag>::new(), decode(&[b"--emit", b",,"]));
    assert_eq!(Vec::<Flag>::new(), decode(&[b"--emit"]));
}

#[test]
fn comma_list_is_followed_by_the_next_flag() {
    assert_eq!(
        vec![
            Flag::CrateType(CrateType::Lib),
            Flag::CrateType(CrateType::Cdylib),
            Flag::CrateType(CrateType::ProcMacro),
            Flag::Help,
        ],
        decode(&[b"--crate-type", b"lib,cdylib,proc-macro", b"-h"]),
    );
    assert_eq!(
        vec![
            Flag::Emit(Emit::Obj),
            Flag::Emit(Emit::Metadata),
            Flag::Verbose,
        ],
        decode(&[b"--emit=obj,metadata", b"--verbose"]),
    );
    assert_eq!(
        vec![Flag::Emit(Emit::LlvmIr), Flag::Test],
        decode(&[b"--emit", b"llvm-ir,nothing", b"--test"]),
    );
}

#[test]
fn comma_list_yields_one_flag_per_call() {
    let mut flags = from_encoded(b"--crate-type\x1Fbin,rlib,dylib\x1F--version");
    assert_eq!(Some(Flag::CrateType(CrateType::Bin)), flags.next());
    assert_eq!(Some(Flag::CrateType(CrateType::Rlib)), flags.next());
    assert_eq!(Some(Flag::CrateType(CrateType::Dylib)), flags.next());
    assert_eq!(Some(Flag::Version), flags.next());
    assert_eq!(None, flags.next());
}

#[test]
fn unrecognized_letter_ends_its_bundle_only() {
    assert_eq!(
        vec![codegen("debuginfo", Some("2")), Flag::Help],
        decode(&[b"-gxvto", b"-h"]),
    );
    assert_eq!(
        vec![codegen("debuginfo", Some("2")), Flag::Out(b"to".to_vec())],
        decode(&[b"-goto"]),
    );
    assert_eq!(
        vec![Flag::Help, Flag::Version, Flag::Verbose, codegen("opt-level", Some("2"))],
        decode(&[b"-hVvO"]),
    );
}

#[test]
fn short_flag_takes_the_rest_or_the_next_argument() {
    assert_eq!(vec![Flag::Out(b"file".to_vec())], decode(&[b"-ofile"]));
    assert_eq!(vec![Flag::Out(b"file".to_vec())], decode(&[b"-o", b"file"]));
    assert_eq!(
        vec![Flag::Out(b"".to_vec()), Flag::Help],
        decode(&[b"-o", b"", b"--help"]),
    );
    assert_eq!(vec![Flag::Out(b"".to_vec())], decode(&[b"-o", b""]));
    assert_eq!(Vec::<Flag>::new(), decode(&[b"-o"]));
    assert_eq!(vec![Flag::Verbose], decode(&[b"-vo"]));
    assert_eq!(
        vec![Flag::Verbose, Flag::Allow("dead_code".to_owned())],
        decode(&[b"-vAdead_code"]),
    );
    assert_eq!(vec![Flag::Z("--help".to_owned())], decode(&[b"-Z", b"--help"]));
}

#[test]
fn long_flag_takes_what_follows_the_equals_sign_or_the_next_argument() {
    assert_eq!(
        vec![Flag::Target("a=b".to_owned())],
        decode(&[b"--target=a=b"]),
    );
    assert_eq!(
        vec![Flag::Target("".to_owned()), Flag::Help],
        decode(&[b"--target=", b"-h"]),
    );
    assert_eq!(
        vec![Flag::Target("-h".to_owned())],
        decode(&[b"--target", b"-h"]),
    );
    assert_eq!(vec![Flag::Target("".to_owned())], decode(&[b"--target"]));
    assert_eq!(
        vec![Flag::Cfg { name: "".to_owned(), value: None }],
        decode(&[b"--cfg"]),
    );
}

#[test]
fn what_is_no_flag_is_passed_over() {
    assert_eq!(vec![Flag::Help], decode(&[b"positional", b"--help"]));
    assert_eq!(vec![Flag::Help], decode(&[b"", b"", b"--help", b""]));
    assert_eq!(vec![Flag::Help], decode(&[b"-", b"--help"]));
    assert_eq!(Vec::<Flag>::new(), decode(&[b"-"]));
    assert_eq!(vec![Flag::Help], decode(&[b"--unknown", b"--help"]));
    assert_eq!(vec![Flag::Help], decode(&[b"--unknown=1", b"--help"]));
    assert_eq!(vec![Flag::Test], decode(&[b"--help=now", b"--test"]));
    assert_eq!(vec![Flag::Test], decode(&[b"--=x", b"--test"]));
    assert_eq!(vec![Flag::Test], decode(&[b"--Help", b"--test"]));
    assert_eq!(vec![Flag::Test], decode(&[b"--edition", b"next", b"--test"]));
    assert_eq!(vec![Flag::Test], decode(&[b"-x", b"--test"]));
}

#[test]
fn two_dashes_end_the_flags() {
    assert_eq!(vec![Flag::Help], decode(&[b"--help", b"--", b"--test"]));
    assert_eq!(vec![Flag::Help], decode(&[b"--help", b"--"]));
    assert_eq!(Vec::<Flag>::new(), decode(&[b"--", b"-h"]));
    let mut flags = from_encoded(b"--\x1F--help");
    assert_eq!(None, flags.next());
    assert_eq!(None, flags.next());
}

#[test]
fn invalid_text_is_no_failure() {
    assert_eq!(Vec::<Flag>::new(), decode(&[b"\xFF\xFE\x80\xC3"]));
    assert_eq!(Vec::<Flag>::new(), decode(&[b"-\xFF"]));
    assert_eq!(Vec::<Flag>::new(), decode(&[b"--\xFF"]));
    assert_eq!(Vec::<Flag>::new(), decode(&[b"--\xFF=1"]));
    assert_eq!(vec![Flag::Help], decode(&[b"-\xC3", b"-h"]));
    assert_eq!(vec![Flag::Help, Flag::Test], decode(&[b"-h\xC3\x28g", b"--test"]));
    assert_eq!(vec![Flag::Help, Flag::Verbose], decode(&[b"-h\xC3\xA9g", b"-v"]));
    assert_eq!(vec![Flag::Help], decode(&[b"--crate-name", b"\xFF", b"-h"]));
    assert_eq!(vec![Flag::Help], decode(&[b"--cfg=a\xFF", b"-h"]));
    assert_eq!(vec![Flag::Help], decode(&[b"-l", b"static:+bundle,\xFF=a", b"-h"]));
    assert_eq!(vec![Flag::Help], decode(&[b"-L", b"\xFF=a", b"-h"]));
    assert_eq!(vec![Flag::Help], decode(&[b"--extern", b"\xFF=a", b"-h"]));
    assert_eq!(
        vec![Flag::Emit(Emit::Asm), Flag::Emit(Emit::Mir)],
        decode(&[b"--emit", b"asm,\xFF\xFE,mir"]),
    );
}

#[test]
fn paths_need_not_be_text() {
    assert_eq!(vec![Flag::Out(b"\xFF\xFE".to_vec())], decode(&[b"-o\xFF\xFE"]));
    assert_eq!(vec![Flag::OutDir(b"\x80".to_vec())], decode(&[b"--out-dir", b"\x80"]));
    assert_eq!(vec![Flag::Sysroot(b"a\xFFb".to_vec())], decode(&[b"--sysroot=a\xFFb"]));
    assert_eq!(
        vec![Flag::LibrarySearchPath { kind: LibraryKind::Crate, path: b"\xC3".to_vec() }],
        decode(&[b"-Lcrate=\xC3"]),
    );
    assert_eq!(
        vec![Flag::Extern { name: "a".to_owned(), path: Some(b"\xFF=\xFF".to_vec()) }],
        decode(&[b"--extern", b"a=\xFF=\xFF"]),
    );
    assert_eq!(
        vec![Flag::ExternLocation { name: "a".to_owned(), location: b"\xFF".to_vec() }],
        decode(&[b"--extern-location", b"a=\xFF"]),
    );
    assert_eq!(
        vec![Flag::RemapPathPrefix { from: b"\xFF".to_vec(), to: b"=\xFE".to_vec() }],
        decode(&[b"--remap-path-prefix", b"\xFF==\xFE"]),
    );
}

#[test]
fn text_may_hold_any_character() {
    assert_eq!(
        vec![Flag::CrateName("caf\u{e9}\u{1F600}".to_owned())],
        decode(&["--crate-name=caf\u{e9}\u{1F600}".as_bytes()]),
    );
    assert_eq!(
        vec![Flag::Cfg { name: "\u{20AC}".to_owned(), value: Some("\u{e9}=\u{e9}".to_owned()) }],
        decode(&["--cfg".as_bytes(), "\u{20AC}=\"\u{e9}=\u{e9}\"".as_bytes()]),
    );
}

#[test]
fn cfg_value_is_wrapped_in_one_pair_of_quotes() {
    let cfg = |arg: &[u8]| decode(&[b"--cfg", arg]);
    assert_eq!(
        vec![Flag::Cfg { name: "a".to_owned(), value: Some("".to_owned()) }],
        cfg(b"a=\"\""),
    );
    assert_eq!(
        vec![Flag::Cfg { name: "".to_owned(), value: Some("b=c".to_owned()) }],
        cfg(b"=\"b=c\""),
    );
    assert_eq!(Vec::<Flag>::new(), cfg(b"a=b"));
    assert_eq!(Vec::<Flag>::new(), cfg(b"a="));
    assert_eq!(Vec::<Flag>::new(), cfg(b"a=\""));
    assert_eq!(Vec::<Flag>::new(), cfg(b"a=\"b"));
    assert_eq!(Vec::<Flag>::new(), cfg(b"a=b\""));
    assert_eq!(Vec::<Flag>::new(), cfg(b"a=\"b\"c\""));
    assert_eq!(Vec::<Flag>::new(), cfg(b"a=\"b\"c"));
}

#[test]
fn library_search_path_knows_its_kinds() {
    let path = |arg: &[u8]| decode(&[b"-L", arg]);
    let expect = |kind, path: &[u8]| vec![Flag::LibrarySearchPath { kind, path: path.to_vec() }];
    assert_eq!(expect(LibraryKind::Dependency, b"p"), path(b"dependency=p"));
    assert_eq!(expect(LibraryKind::Crate, b"p"), path(b"crate=p"));
    assert_eq!(expect(LibraryKind::Native, b"p"), path(b"native=p"));
    assert_eq!(expect(LibraryKind::Framework, b"p"), path(b"framework=p"));
    assert_eq!(expect(LibraryKind::All, b"p"), path(b"all=p"));
    assert_eq!(expect(LibraryKind::All, b""), path(b""));
    assert_eq!(expect(LibraryKind::Native, b"a=b"), path(b"native=a=b"));
    assert_eq!(Vec::<Flag>::new(), path(b"Native=p"));
    assert_eq!(Vec::<Flag>::new(), path(b"=p"));
}

#[test]
fn link_reads_kind_modifiers_name_and_rename() {
    let link = |arg: &[u8]| decode(&[b"-l", arg]);
    let expect = |kind, modifiers: &[(LinkModifierPrefix, LinkModifier)], name: &str, rename: Option<&str>| {
        vec![Flag::Link {
            kind,
            modifiers: modifiers.to_vec(),
            name: name.to_owned(),
            rename: rename.map(str::to_owned),
        }]
    };
    let enable = LinkModifierPrefix::Enable;
    let disable = LinkModifierPrefix::Disable;
    assert_eq!(expect(LinkKind::Framework, &[], "a", None), link(b"framework=a"));
    assert_eq!(expect(LinkKind::Dylib, &[], "a", None), link(b"dylib=a"));
    assert_eq!(expect(LinkKind::Dylib, &[], "a=b", None), link(b"dylib=a=b"));
    assert_eq!(expect(LinkKind::Dylib, &[], "", Some("")), link(b":"));
    assert_eq!(expect(LinkKind::Static, &[], "a", Some("b:c")), link(b"static=a:b:c"));
    assert_eq!(
        expect(
            LinkKind::Static,
            &[
                (enable, LinkModifier::Bundle),
                (disable, LinkModifier::Verbatim),
                (enable, LinkModifier::WholeArchive),
                (disable, LinkModifier::AsNeeded),
            ],
            "a",
            None,
        ),
        link(b"static:+bundle,-verbatim,+whole-archive,-as-needed=a"),
    );
    assert_eq!(
        expect(LinkKind::Dylib, &[(disable, LinkModifier::Bundle)], "a", None),
        link(b"dylib:bundle,+unknown,,*verbatim,-bundle,+=a"),
    );
    assert_eq!(expect(LinkKind::Static, &[], "a", None), link(b"static:=a"));
    assert_eq!(Vec::<Flag>::new(), link(b"shared=a"));
    assert_eq!(Vec::<Flag>::new(), link(b"=a"));
    assert_eq!(Vec::<Flag>::new(), link(b"a:b=c"));
}

#[test]
fn edition_is_a_number_of_sixteen_bits() {
    let edition = |arg: &[u8]| decode(&[b"--edition", arg]);
    assert_eq!(vec![Flag::Edition(2015)], edition(b"2015"));
    assert_eq!(vec![Flag::Edition(0)], edition(b"0"));
    assert_eq!(vec![Flag::Edition(65535)], edition(b"65535"));
    assert_eq!(vec![Flag::Edition(2024)], edition(b"+2024"));
    assert_eq!(vec![Flag::Edition(7)], edition(b"0000000000000000000000007"));
    assert_eq!(Vec::<Flag>::new(), edition(b"65536"));
    assert_eq!(Vec::<Flag>::new(), edition(b"99999999999999999999"));
    assert_eq!(Vec::<Flag>::new(), edition(b""));
    assert_eq!(Vec::<Flag>::new(), edition(b"+"));
    assert_eq!(Vec::<Flag>::new(), edition(b"-1"));
    assert_eq!(Vec::<Flag>::new(), edition(b"++1"));
    assert_eq!(Vec::<Flag>::new(), edition(b"2021 "));
    assert_eq!(Vec::<Flag>::new(), edition(b"20x1"));
    assert_eq!(Vec::<Flag>::new(), edition("\u{663}".as_bytes()));
}

#[test]
fn edition_reads_what_the_standard_library_reads() {
    let inputs: [&str; 10] = ["2018", "+7", "007", "65535", "65536", "", "+", "-0", "1e3", " 1"];
    for input in inputs {
        let expected: Vec<Flag> = input.parse::<u16>().ok().map(Flag::Edition).into_iter().collect();
        assert_eq!(expected, decode(&[b"--edition", input.as_bytes()]));
    }
}

#[test]
fn words_are_matched_exactly() {
    assert_eq!(vec![Flag::CapLints(LintLevel::Allow)], decode(&[b"--cap-lints", b"allow"]));
    assert_eq!(vec![Flag::CapLints(LintLevel::Warn)], decode(&[b"--cap-lints", b"warn"]));
    assert_eq!(vec![Flag::CapLints(LintLevel::Deny)], decode(&[b"--cap-lints", b"deny"]));
    assert_eq!(vec![Flag::CapLints(LintLevel::Forbid)], decode(&[b"--cap-lints", b"forbid"]));
    assert_eq!(Vec::<Flag>::new(), decode(&[b"--cap-lints", b"Allow"]));
    assert_eq!(Vec::<Flag>::new(), decode(&[b"--cap-lints", b"allow "]));
    assert_eq!(vec![Flag::ErrorFormat(ErrorFormat::Human)], decode(&[b"--error-format=human"]));
    assert_eq!(vec![Flag::ErrorFormat(ErrorFormat::Short)], decode(&[b"--error-format=short"]));
    assert_eq!(Vec::<Flag>::new(), decode(&[b"--error-format=long"]));
    assert_eq!(vec![Flag::Color(Color::Auto)], decode(&[b"--color", b"auto"]));
    assert_eq!(vec![Flag::Color(Color::Never)], decode(&[b"--color", b"never"]));
    assert_eq!(Vec::<Flag>::new(), decode(&[b"--color", b""]));
}

#[test]
fn key_and_value_are_split_at_the_first_equals_sign() {
    assert_eq!(vec![codegen("a", Some("b=c"))], decode(&[b"-Ca=b=c"]));
    assert_eq!(vec![codegen("a", Some(""))], decode(&[b"--codegen", b"a="]));
    assert_eq!(vec![codegen("", None)], decode(&[b"-C", b""]));
    assert_eq!(
        vec![Flag::Extern { name: "a".to_owned(), path: None }],
        decode(&[b"--extern=a"]),
    );
    assert_eq!(Vec::<Flag>::new(), decode(&[b"--extern-location", b"a"]));
    assert_eq!(Vec::<Flag>::new(), decode(&[b"--remap-path-prefix", b"a"]));
    assert_eq!(
        vec![Flag::RemapPathPrefix { from: b"".to_vec(), to: b"".to_vec() }],
        decode(&[b"--remap-path-prefix", b"="]),
    );
}

#[test]
fn every_long_name_is_known() {
    let text = |s: &str| s.to_owned();
    let cases: Vec<(&[u8], Flag)> = vec![
        (b"--help", Flag::Help),
        (b"--cfg=x", Flag::Cfg { name: text("x"), value: None }),
        (b"--crate-type=bin", Flag::CrateType(CrateType::Bin)),
        (b"--crate-name=x", Flag::CrateName(text("x"))),
        (b"--edition=1", Flag::Edition(1)),
        (b"--emit=link", Flag::Emit(Emit::Link)),
        (b"--print=x", Flag::Print(text("x"))),
        (b"--out-dir=x", Flag::OutDir(b"x".to_vec())),
        (b"--explain=x", Flag::Explain(text("x"))),
        (b"--test", Flag::Test),
        (b"--target=x", Flag::Target(text("x"))),
        (b"--allow=x", Flag::Allow(text("x"))),
        (b"--warn=x", Flag::Warn(text("x"))),
        (b"--force-warn=x", Flag::ForceWarn(text("x"))),
        (b"--deny=x", Flag::Deny(text("x"))),
        (b"--forbid=x", Flag::Forbid(text("x"))),
        (b"--cap-lints=warn", Flag::CapLints(LintLevel::Warn)),
        (b"--codegen=x", codegen("x", None)),
        (b"--version", Flag::Version),
        (b"--verbose", Flag::Verbose),
        (b"--extern=x", Flag::Extern { name: text("x"), path: None }),
        (b"--extern-location=x=y", Flag::ExternLocation { name: text("x"), location: b"y".to_vec() }),
        (b"--sysroot=x", Flag::Sysroot(b"x".to_vec())),
        (b"--error-format=json", Flag::ErrorFormat(ErrorFormat::Json)),
        (b"--json=x", Flag::Json(text("x"))),
        (b"--color=always", Flag::Color(Color::Always)),
        (b"--remap-path-prefix=x=y", Flag::RemapPathPrefix { from: b"x".to_vec(), to: b"y".to_vec() }),
    ];
    for (arg, flag) in cases {
        assert_eq!(vec![flag], decode(&[arg]));
    }
}

#[test]
fn every_letter_is_known() {
    let text = |s: &str| s.to_owned();
    let cases: Vec<(&[u8], Flag)> = vec![
        (b"-h", Flag::Help),
        (b"-Lx", Flag::LibrarySearchPath { kind: LibraryKind::All, path: b"x".to_vec() }),
        (b"-lx", Flag::Link { kind: LinkKind::Dylib, modifiers: Vec::new(), name: text("x"), rename: None }),
        (b"-g", codegen("debuginfo", Some("2"))),
        (b"-O", codegen("opt-level", Some("2"))),
        (b"-ox", Flag::Out(b"x".to_vec())),
        (b"-Ax", Flag::Allow(text("x"))),
        (b"-Wx", Flag::Warn(text("x"))),
        (b"-Dx", Flag::Deny(text("x"))),
        (b"-Fx", Flag::Forbid(text("x"))),
        (b"-Cx", codegen("x", None)),
        (b"-V", Flag::Version),
        (b"-v", Flag::Verbose),
        (b"-Zx", Flag::Z(text("x"))),
    ];
    for (arg, flag) in cases {
        assert_eq!(vec![flag], decode(&[arg]));
    }
    for letter in 0u8..=127 {
        if !b"hLlgOoAWDFCVvZ".contains(&letter) {
            assert_eq!(Vec::<Flag>::new(), decode(&[&[b'-', letter, b'x']]));
        }
    }
}
