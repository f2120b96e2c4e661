use todocol::aggregator::{accept_entries, aggregate_lines};
use todocol::{CollectError, Comment, CommentLine, FileFormat, TodoCollector};

fn marked(text: &str, line: u32) -> CommentLine {
    CommentLine::new(Comment::new(text, "src/a.rs", line), Some("TODO".to_string()))
}

fn plain(text: &str, line: u32) -> CommentLine {
    CommentLine::new(Comment::new(text, "src/a.rs", line), None)
}

fn texts(entries: &[CommentLine]) -> Vec<(u32, String)> {
    entries.iter().map(|e| (e.comment().line_num(), e.comment().content().to_string())).collect()
}

#[test]
fn comment_keeps_what_it_was_made_of() {
    let mut c = Comment::new("fix this", "src/main.rs", 12);
    assert_eq!("fix this", c.content());
    assert_eq!("src/main.rs", c.source());
    assert_eq!(12, c.line_num());
    c.content_append("and that");
    assert_eq!("fix this and that", c.content());
    assert_eq!(12, c.line_num());
}

#[test]
fn the_next_line_continues_the_entry() {
    let got = aggregate_lines(vec![marked("line five", 5), plain("line six", 6)]);
    assert_eq!(vec![(5, "line five line six".to_string())], texts(&got));
}

#[test]
fn a_gap_ends_the_entry() {
    let got = aggregate_lines(vec![marked("line five", 5), plain("line seven", 7)]);
    assert_eq!(vec![(5, "line five".to_string())], texts(&got));
}

#[test]
fn continuation_goes_on_line_by_line() {
    let got = aggregate_lines(vec![
        plain("before any entry", 1),
        marked("a", 2),
        plain("b", 3),
        plain("c", 4),
        plain("lost", 6),
        marked("d", 7),
        marked("e", 8),
        plain("f", 9),
    ]);
    assert_eq!(
        vec![(2, "a b c".to_string()), (7, "d".to_string()), (8, "e f".to_string())],
        texts(&got)
    );
}

#[test]
fn only_entries_with_a_configured_marker_are_kept() {
    let entries = vec![
        CommentLine::new(Comment::new("a", "f.rs", 1), Some("TODO".to_string())),
        CommentLine::new(Comment::new("b", "f.rs", 3), Some("NOTE".to_string())),
        CommentLine::new(Comment::new("c", "f.rs", 5), None),
        CommentLine::new(Comment::new("d", "f.rs", 7), Some("FIXME".to_string())),
    ];
    let kept = accept_entries(entries, &vec!["FIXME".to_string(), "TODO".to_string()]);
    let got: Vec<&str> = kept.iter().map(|c| c.content()).collect();
    assert_eq!(vec!["a", "d"], got);
}

#[test]
fn comments_filter_merges_and_keeps() {
    let collector = TodoCollector::new();
    let kept = collector.comments_filter(vec![marked("a", 1), plain("b", 2), plain("c", 9)]);
    assert_eq!(1, kept.len());
    assert_eq!("a b", kept[0].content());
    assert_eq!(1, kept[0].line_num());
}

fn one() -> Vec<Comment> {
    vec![Comment::new("fix this", "src/main.rs", 12)]
}

#[test]
fn raw_report() {
    assert_eq!("myproj:\n- src/main.rs:12 - fix this\n", FileFormat::Raw.format_comments("myproj", &one()));
    assert_eq!("p:\n", FileFormat::Raw.format_comments("p", &[]));
}

#[test]
fn json_report() {
    assert_eq!(
        "{\"myproj\":[{\"file\": \"src/main.rs\", \"line\": \"12\", \"comment\": \"fix this\"} ]}",
        FileFormat::Json.format_comments("myproj", &one())
    );
    assert_eq!("{\"p\":[ ]}", FileFormat::Json.format_comments("p", &[]));
    let two = vec![Comment::new("a", "x.rs", 1), Comment::new("b", "y.rs", 4294967295)];
    assert_eq!(
        "{\"p\":[{\"file\": \"x.rs\", \"line\": \"1\", \"comment\": \"a\"},{\"file\": \"y.rs\", \"line\": \"4294967295\", \"comment\": \"b\"} ]}",
        FileFormat::Json.format_comments("p", &two)
    );
}

#[test]
fn json_report_escapes_its_strings() {
    let c = vec![Comment::new("say \"hi\"\\\t\u{1}é", "a\nb", 10)];
    assert_eq!(
        "{\"t\\\"\":[{\"file\": \"a\\nb\", \"line\": \"10\", \"comment\": \"say \\\"hi\\\"\\\\\\t\\u0001é\"} ]}",
        FileFormat::Json.format_comments("t\"", &c)
    );
}

#[test]
fn markdown_report() {
    let c = vec![
        Comment::new("fix this", "/home/me/myproj/src/main.rs", 12),
        Comment::new("other", "/elsewhere/lib.rs", 100),
    ];
    assert_eq!(
        "# myproj\n\n* [myproj/src/main.rs](/home/me/myproj/src/main.rs):12 - fix this \n* [file](/elsewhere/lib.rs):100 - other \n",
        FileFormat::Markdown.format_comments("myproj", &c)
    );
}

#[test]
fn markdown_label_begins_at_the_first_occurrence() {
    let c = vec![Comment::new("x", "ab/ab/c.rs", 0)];
    assert_eq!("# ab\n\n* [ab/ab/c.rs](ab/ab/c.rs):0 - x \n", FileFormat::Markdown.format_comments("ab", &c));
}

#[test]
fn formats_by_selector() {
    assert_eq!(FileFormat::Raw, FileFormat::from("raw"));
    assert_eq!(FileFormat::Raw, FileFormat::from("txt"));
    assert_eq!(FileFormat::Markdown, FileFormat::from("markdown"));
    assert_eq!(FileFormat::Markdown, FileFormat::from("md"));
    assert_eq!(FileFormat::Json, FileFormat::from("json"));
    assert_eq!(FileFormat::Markdown, FileFormat::from("MD"));
    assert_eq!(FileFormat::Json, FileFormat::from("Json"));
    assert_eq!(FileFormat::Raw, FileFormat::from("yaml"));
    assert_eq!(FileFormat::Raw, FileFormat::from(""));
}

#[test]
fn an_unknown_selector_is_an_error_to_parse() {
    assert_eq!(Ok(FileFormat::Markdown), FileFormat::parse("MarkDown"));
    assert_eq!(Err(CollectError::UnsupportedFormat), FileFormat::parse("yaml"));
    assert_eq!(Ok(FileFormat::Json), FileFormat::from_selector("json"));
    assert_eq!(Err(CollectError::UnsupportedFormat), FileFormat::from_selector("JSON"));
}

#[test]
fn extensions_and_names() {
    assert_eq!("txt", FileFormat::Raw.extension());
    assert_eq!("md", FileFormat::Markdown.extension());
    assert_eq!("json", FileFormat::Json.extension());
    assert_eq!("Raw", FileFormat::Raw.as_str());
    assert_eq!("Markdown", FileFormat::Markdown.as_str());
    assert_eq!("Json", FileFormat::Json.as_str());
    assert_eq!(FileFormat::Raw, FileFormat::default());
}
