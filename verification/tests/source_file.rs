use todocol::path::title_from_path;
use todocol::text::is_whitespace;
use todocol::{CollectError, SourceFile, SourceFileType};

#[test]
fn from_path() {
    let p = "/foo/bar/baz.rs";
    let path = String::from(p);

    let f = SourceFile::try_from(path.clone()).unwrap();
    assert_eq!(path, f.path());
    assert_eq!(SourceFileType::Rust, f.source_type());
}

#[test]
fn todofile_title() {
    let path = String::from(r"/example/dir/expected/outfile.foo");
    assert_eq!("expected".to_string(), title_from_path(&path));
}

#[test]
fn every_supported_extension_gives_its_kind() {
    let cases = [
        ("a/main.rs", SourceFileType::Rust),
        ("a/run.sh", SourceFileType::ShellScript),
        ("a/tool.py", SourceFileType::Python),
        ("a/x.c", SourceFileType::C),
        ("a/x.h", SourceFileType::C),
        ("a/x.cpp", SourceFileType::Cpp),
        ("a/x.hpp", SourceFileType::Cpp),
        ("x.rs", SourceFileType::Rust),
        ("a.b/..rs", SourceFileType::Rust),
        ("/foo/.hidden.py", SourceFileType::Python),
        ("a.txt/b.c", SourceFileType::C),
    ];
    for (path, kind) in cases {
        assert_eq!(Ok(kind), SourceFileType::try_from(path));
    }
}

#[test]
fn other_paths_are_refused() {
    for path in [
        "", "a/b", "a/x.RS", "a/x.txt", "a/x.rs.bak", "TODO.md", "x.cp", "x.js", "/foo/.rs", ".rs",
        ".py", "a/.h", "a.rs/", "a.rs/b", "src/rs", "x.", "x.rs.",
    ] {
        assert_eq!(Err(CollectError::UnsupportedExtension), SourceFileType::try_from(path));
        assert!(SourceFile::try_from(path.to_string()).is_err());
    }
}

#[test]
fn comment_symbols() {
    assert_eq!("//", SourceFileType::Rust.comment_symbol());
    assert_eq!("//", SourceFileType::C.comment_symbol());
    assert_eq!("//", SourceFileType::Cpp.comment_symbol());
    assert_eq!("#", SourceFileType::ShellScript.comment_symbol());
    assert_eq!("#", SourceFileType::Python.comment_symbol());
}

#[test]
fn is_comment_tells_by_the_symbol() {
    let rust = SourceFile::try_from("m.rs".to_string()).unwrap();
    assert!(rust.is_comment("// x"));
    assert!(!rust.is_comment("# x"));
    assert!(!rust.is_comment(" // x"));
    let py = SourceFile::try_from("m.py".to_string()).unwrap();
    assert!(py.is_comment("# x"));
    assert!(!py.is_comment("// x"));
}

#[test]
fn white_space_is_what_std_calls_white_space() {
    let mut code: u32 = 0;
    while code <= 0x10FFFF {
        if let Some(c) = char::from_u32(code) {
            assert_eq!(c.is_whitespace(), is_whitespace(c), "U+{:04X}", code);
        }
        code += 1;
    }
}

fn markers() -> Vec<String> {
    vec!["TODO".to_string(), "FIXME".to_string()]
}

#[test]
fn a_line_without_the_symbol_gives_nothing() {
    let f = SourceFile::try_from("src/m.rs".to_string()).unwrap();
    for line in ["", "   ", "let x = 1; // TODO: later", "# TODO: x", "/ TODO", "TODO: x"] {
        assert!(f.scan_line(line, 1, &markers()).is_none(), "{:?}", line);
    }
}

#[test]
fn a_marked_line_loses_symbol_marker_and_colon() {
    let f = SourceFile::try_from("src/m.rs".to_string()).unwrap();
    let l = f.scan_line("   // TODO: fix this  ", 12, &markers()).unwrap();
    assert_eq!(Some("TODO"), l.marker());
    assert!(l.is_marked());
    assert_eq!("fix this", l.comment().content());
    assert_eq!("src/m.rs", l.comment().source());
    assert_eq!(12, l.comment().line_num());

    let l = f.scan_line("//FIXME   now", 1, &markers()).unwrap();
    assert_eq!(Some("FIXME"), l.marker());
    assert_eq!("now", l.comment().content());

    let l = f.scan_line("// TODO:", 1, &markers()).unwrap();
    assert_eq!("", l.comment().content());

    let l = f.scan_line("// TODO : odd", 1, &markers()).unwrap();
    assert_eq!(": odd", l.comment().content());
}

#[test]
fn the_first_marker_in_the_list_wins() {
    let f = SourceFile::try_from("m.rs".to_string()).unwrap();
    let list = vec!["TO".to_string(), "TODO".to_string()];
    let l = f.scan_line("// TODO: x", 1, &list).unwrap();
    assert_eq!(Some("TO"), l.marker());
    assert_eq!("DO: x", l.comment().content());
}

#[test]
fn an_unmarked_comment_is_reported_plain() {
    let f = SourceFile::try_from("m.py".to_string()).unwrap();
    let l = f.scan_line("\t#   and more ", 7, &markers()).unwrap();
    assert_eq!(None, l.marker());
    assert!(!l.is_marked());
    assert_eq!("and more", l.comment().content());
    assert_eq!(7, l.comment().line_num());
}

#[test]
fn the_symbol_is_stripped_once() {
    let f = SourceFile::try_from("m.rs".to_string()).unwrap();
    let l = f.scan_line("//// TODO: x", 1, &markers()).unwrap();
    assert_eq!(None, l.marker());
    assert_eq!("// TODO: x", l.comment().content());
}

#[test]
fn lines_are_numbered_from_one() {
    let f = SourceFile::try_from("m.rs".to_string()).unwrap();
    let lines: Vec<String> =
        ["fn main() {", "    // TODO: a", "    // b", "}", "// c"].iter().map(|s| s.to_string()).collect();
    let found = f.get_comments(&lines, &markers());
    let got: Vec<(u32, &str, bool)> =
        found.iter().map(|l| (l.comment().line_num(), l.comment().content(), l.is_marked())).collect();
    assert_eq!(vec![(2, "a", true), (3, "b", false), (5, "c", false)], got);
}
