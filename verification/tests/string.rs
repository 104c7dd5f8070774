use rustflags::string::{len_utf8, EnvChar, EnvStr, EnvString};
use rustflags::{
    Color, CrateType, Emit, ErrorFormat, LibraryKind, LinkKind, LinkModifier, LinkModifierPrefix,
    LintLevel,
};

fn bytes<'a>(parts: Option<(EnvStr<'a>, EnvStr<'a>)>) -> Option<(&'a [u8], &'a [u8])> {
    parts.map(|(before, after)| (before.as_bytes(), after.as_bytes()))
}

fn first(s: &[u8]) -> Option<Option<char>> {
    EnvStr::new(s).first_char().map(|first| match first {
        EnvChar::Valid(ch) => Some(ch),
        EnvChar::Invalid => None,
    })
}

#[test]
fn view_has_the_length_of_its_bytes() {
    assert_eq!(0, EnvStr::new(b"").len());
    assert!(EnvStr::new(b"").is_empty());
    assert_eq!(3, EnvStr::new(b"a\xFFb").len());
    assert!(!EnvStr::new(b"\x1F").is_empty());
    let owned = EnvString::new(b"a\x1Fb".to_vec());
    assert_eq!(b"a\x1Fb", owned.as_env_str().as_bytes());
    assert_eq!(3, owned.as_env_str().len());
}

#[test]
fn find_gives_the_first_place_of_a_character() {
    assert_eq!(Some(0), EnvStr::new(b"=a=").find('='));
    assert_eq!(Some(2), EnvStr::new(b"ab=c=").find('='));
    assert_eq!(None, EnvStr::new(b"abc").find('='));
    assert_eq!(None, EnvStr::new(b"").find('='));
    assert_eq!(Some(3), EnvStr::new(b"\xFF\xFE\x80\x1Fa").find('\x1F'));
    assert_eq!(Some(1), EnvStr::new("a\u{e9}\u{e9}".as_bytes()).find('\u{e9}'));
    assert_eq!(Some(2), EnvStr::new("\u{e9}\u{20AC}".as_bytes()).find('\u{20AC}'));
    assert_eq!(Some(4), EnvStr::new("\u{1F600}\u{1F601}".as_bytes()).find('\u{1F601}'));
    assert_eq!(None, EnvStr::new(b"\xC3").find('\u{e9}'));
    assert_eq!(None, EnvStr::new(b"\xA9\xC3").find('\u{e9}'));
    assert_eq!(None, EnvStr::new("\u{e9}".as_bytes()).find('\u{a9}'));
}

#[test]
fn starts_and_ends_with_a_character() {
    assert!(EnvStr::new(b"-h").starts_with('-'));
    assert!(!EnvStr::new(b"h-").starts_with('-'));
    assert!(!EnvStr::new(b"").starts_with('-'));
    assert!(EnvStr::new("\u{20AC}x".as_bytes()).starts_with('\u{20AC}'));
    assert!(!EnvStr::new(b"\xE2\x82").starts_with('\u{20AC}'));
    assert!(EnvStr::new(b"a\x1F").ends_with('\x1F'));
    assert!(!EnvStr::new(b"\x1Fa").ends_with('\x1F'));
    assert!(!EnvStr::new(b"").ends_with('\x1F'));
    assert!(EnvStr::new("x\u{1F600}".as_bytes()).ends_with('\u{1F600}'));
    assert!(!EnvStr::new(b"\x9F\x98\x80").ends_with('\u{1F600}'));
}

#[test]
fn first_char_reads_one_character() {
    assert_eq!(None, first(b""));
    assert_eq!(Some(Some('a')), first(b"a"));
    assert_eq!(Some(Some('\x1F')), first(b"\x1F\xFF"));
    assert_eq!(Some(Some('\0')), first(b"\0"));
    assert_eq!(Some(Some('\x7F')), first(b"\x7F"));
    assert_eq!(Some(Some('\u{80}')), first(b"\xC2\x80"));
    assert_eq!(Some(Some('\u{e9}')), first("\u{e9}\u{e9}".as_bytes()));
    assert_eq!(Some(Some('\u{7FF}')), first(b"\xDF\xBF"));
    assert_eq!(Some(Some('\u{800}')), first(b"\xE0\xA0\x80"));
    assert_eq!(Some(Some('\u{20AC}')), first(b"\xE2\x82\xAC\xFF\xFF"));
    assert_eq!(Some(Some('\u{D7FF}')), first(b"\xED\x9F\xBF"));
    assert_eq!(Some(Some('\u{E000}')), first(b"\xEE\x80\x80"));
    assert_eq!(Some(Some('\u{FFFF}')), first(b"\xEF\xBF\xBF"));
    assert_eq!(Some(Some('\u{10000}')), first(b"\xF0\x90\x80\x80"));
    assert_eq!(Some(Some('\u{1F600}')), first("\u{1F600}".as_bytes()));
    assert_eq!(Some(Some('\u{10FFFF}')), first(b"\xF4\x8F\xBF\xBF"));
}

#[test]
fn first_char_refuses_what_is_no_character() {
    let invalid: [&[u8]; 16] = [
        b"\x80",
        b"\xBF",
        b"\xFF",
        b"\xF8\x88\x80\x80\x80",
        b"\xC3",
        b"\xC3\x28",
        b"\xC0\x80",
        b"\xC1\xBF",
        b"\xE2\x82",
        b"\xE2\x28\xA1",
        b"\xE0\x9F\xBF",
        b"\xED\xA0\x80",
        b"\xED\xBF\xBF",
        b"\xF0\x8F\xBF\xBF",
        b"\xF4\x90\x80\x80",
        b"\xF0\x90\x80",
    ];
    for s in invalid {
        assert_eq!(Some(None), first(s));
        assert!(std::str::from_utf8(s).is_err());
    }
}

#[test]
fn first_char_agrees_with_the_standard_library() {
    for code in (0u32..0x11_0000).step_by(97).chain([0x7F, 0x80, 0x7FF, 0x800, 0xFFFF, 0x10000, 0x10FFFF]) {
        if let Some(ch) = char::from_u32(code) {
            let mut buf = [0u8; 4];
            let encoded = ch.encode_utf8(&mut buf).as_bytes();
            assert_eq!(Some(Some(ch)), first(encoded));
            assert_eq!(ch.len_utf8(), len_utf8(ch));
            assert_eq!(Some(0), EnvStr::new(encoded).find(ch));
            assert!(EnvStr::new(encoded).starts_with(ch));
            assert!(EnvStr::new(encoded).ends_with(ch));
        }
    }
}

#[test]
fn split_once_cuts_at_the_first_place() {
    assert_eq!(
        Some((&b"a"[..], &b"b=c"[..])),
        bytes(EnvStr::new(b"a=b=c").split_once('=')),
    );
    assert_eq!(Some((&b""[..], &b""[..])), bytes(EnvStr::new(b"=").split_once('=')));
    assert_eq!(None, bytes(EnvStr::new(b"abc").split_once('=')));
    assert_eq!(
        Some((&b"\xFF"[..], &b"\xFE"[..])),
        bytes(EnvStr::new(b"\xFF,\xFE").split_once(',')),
    );
    assert_eq!(
        Some((&b"a"[..], &b"b"[..])),
        bytes(EnvStr::new("a\u{20AC}b".as_bytes()).split_once('\u{20AC}')),
    );
}

#[test]
fn to_str_gives_text_only_for_valid_text() {
    assert_eq!(Some(""), EnvStr::new(b"").to_str());
    assert_eq!(Some("abc"), EnvStr::new(b"abc").to_str());
    assert_eq!(Some("caf\u{e9}"), EnvStr::new(b"caf\xC3\xA9").to_str());
    assert_eq!(None, EnvStr::new(b"caf\xC3").to_str());
    assert_eq!(None, EnvStr::new(b"\xFFabc").to_str());
    assert_eq!(None, EnvStr::new(b"\xED\xA0\x80").to_str());
}

#[test]
fn index_takes_a_part_between_boundaries() {
    let s = EnvStr::new(b"ab\xC3\xA9\xFFcd");
    assert_eq!(b"ab", s.index(0, 2).as_bytes());
    assert_eq!(b"\xC3\xA9", s.index(2, 4).as_bytes());
    assert_eq!(b"b\xC3\xA9\xFFc", s.index(1, 6).as_bytes());
    assert_eq!(b"", s.index(7, 7).as_bytes());
    assert_eq!(b"cd", s.index_from(5).as_bytes());
    assert_eq!(b"ab\xC3\xA9", s.index_to(4).as_bytes());
    assert_eq!(s.as_bytes(), s.index_from(0).as_bytes());
    assert_eq!(s.as_bytes(), s.index_to(7).as_bytes());
}

#[test]
fn eq_str_compares_all_bytes() {
    assert!(EnvStr::new(b"help").eq_str("help"));
    assert!(EnvStr::new(b"").eq_str(""));
    assert!(!EnvStr::new(b"help").eq_str("hel"));
    assert!(!EnvStr::new(b"hel").eq_str("help"));
    assert!(!EnvStr::new(b"helq").eq_str("help"));
    assert!(EnvStr::new(b"\xC3\xA9").eq_str("\u{e9}"));
}

#[test]
fn len_utf8_counts_the_bytes_of_a_character() {
    assert_eq!(1, len_utf8('\0'));
    assert_eq!(1, len_utf8('\x7F'));
    assert_eq!(2, len_utf8('\u{80}'));
    assert_eq!(2, len_utf8('\u{7FF}'));
    assert_eq!(3, len_utf8('\u{800}'));
    assert_eq!(3, len_utf8('\u{FFFF}'));
    assert_eq!(4, len_utf8('\u{10000}'));
    assert_eq!(4, len_utf8('\u{10FFFF}'));
}

#[test]
fn values_are_named_as_they_are_written() {
    assert_eq!("dependency", LibraryKind::Dependency.as_str());
    assert_eq!("all", LibraryKind::All.as_str());
    assert_eq!("static", LinkKind::Static.as_str());
    assert_eq!("dylib", LinkKind::Dylib.as_str());
    assert_eq!("+", LinkModifierPrefix::Enable.as_str());
    assert_eq!("-", LinkModifierPrefix::Disable.as_str());
    assert_eq!("whole-archive", LinkModifier::WholeArchive.as_str());
    assert_eq!("as-needed", LinkModifier::AsNeeded.as_str());
    assert_eq!("cdylib", CrateType::Cdylib.as_str());
    assert_eq!("proc-macro", CrateType::ProcMacro.as_str());
    assert_eq!("llvm-bc", Emit::LlvmBc.as_str());
    assert_eq!("dep-info", Emit::DepInfo.as_str());
    assert_eq!("forbid", LintLevel::Forbid.as_str());
    assert_eq!("human", ErrorFormat::Human.as_str());
    assert_eq!("always", Color::Always.as_str());
}

#[test]
fn values_are_read_from_their_names() {
    for kind in [
        LibraryKind::Dependency,
        LibraryKind::Crate,
        LibraryKind::Native,
        LibraryKind::Framework,
        LibraryKind::All,
    ] {
        assert_eq!(Some(kind), LibraryKind::from_name(&EnvStr::new(kind.as_str().as_bytes())));
    }
    for crate_type in [
        CrateType::Bin,
        CrateType::Lib,
        CrateType::Rlib,
        CrateType::Dylib,
        CrateType::Cdylib,
        CrateType::Staticlib,
        CrateType::ProcMacro,
    ] {
        assert_eq!(
            Some(crate_type),
            CrateType::from_name(&EnvStr::new(crate_type.as_str().as_bytes())),
        );
    }
    assert_eq!(None, CrateType::from_name(&EnvStr::new(b"Cdylib")));
    assert_eq!(None, LinkKind::from_name(&EnvStr::new(b"")));
    assert_eq!(Some(Color::Auto), Color::from_name(&EnvStr::new(b"auto")));
    assert_eq!(Some(LinkModifierPrefix::Enable), LinkModifierPrefix::from_name(&EnvStr::new(b"+")));
}

#[test]
fn defaults_are_the_values_that_are_left_out() {
    assert_eq!(LibraryKind::All, LibraryKind::default());
    assert_eq!(LinkKind::Dylib, LinkKind::default());
    assert_eq!(Color::Auto, Color::default());
}
