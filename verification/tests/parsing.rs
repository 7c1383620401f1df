use systemd_parser::grammar::{SyntaxError, SyntaxErrorKind, SystemDParser};
use systemd_parser::render::render;
use systemd_parser::schema::SystemdFile;
use systemd_parser::{parse, validate};

fn owned(lines: &[&str]) -> Vec<u8> {
    let mut out = Vec::new();
    for l in lines {
        out.extend_from_slice(l.as_bytes());
        out.push(b'\n');
    }
    out
}

fn span(s: &str) -> Vec<u8> {
    s.as_bytes().to_vec()
}

#[test]
fn end_to_end_scenario() {
    let text = owned(&[
        "[Unit]",
        "Description=My Service",
        "After=network.target",
        "",
        "[Service]",
        "Type=simple",
        "ExecStart=/usr/bin/myd --foo",
        "",
        "[Install]",
        "WantedBy=multi-user.target",
    ]);
    let f = parse(&text).expect("valid input");
    assert_eq!(f.unit.head, span("[Unit]"));
    assert_eq!(f.unit.description, span("Description=My Service"));
    assert_eq!(f.unit.after, Some(vec![span("After=network.target")]));
    assert_eq!(f.unit.comments, None);
    assert_eq!(f.unit.requires_list, None);
    assert_eq!(f.unit.binds_to, None);
    assert_eq!(f.service.head, span("[Service]"));
    assert_eq!(f.service.service_type, span("Type=simple"));
    assert_eq!(
        f.service.exec_start,
        vec![span("ExecStart=/usr/bin/myd"), span("--foo")]
    );
    assert_eq!(f.service.start_pre, None);
    assert_eq!(f.service.reload, None);
    assert_eq!(f.install.head, span("[Install]"));
    assert_eq!(f.install.wanted_by, Some(span("WantedBy=multi-user.target")));
    assert_eq!(f.install.required_by, None);
    assert_eq!(f.install.alias, None);
    assert_eq!(f.install.also, None);
    assert_eq!(f.install.default_instance, None);
}

#[test]
fn append_order_preserved() {
    let text = owned(&["[Unit]", "After=network.target", "After=foo.target"]);
    let f = parse(&text).expect("valid input");
    assert_eq!(
        f.unit.after,
        Some(vec![span("After=network.target"), span("After=foo.target")])
    );
}

#[test]
fn singleton_last_writer_wins() {
    let text = owned(&["[Unit]", "Description=first", "Description=second"]);
    let f = parse(&text).expect("valid input");
    assert_eq!(f.unit.description, span("Description=second"));
}

#[test]
fn exec_start_tokenized_first_only() {
    let text = owned(&[
        "[Service]",
        "ExecStart=/usr/bin/myd --foo bar",
        "ExecStart=/bin/other",
    ]);
    let f = parse(&text).expect("valid input");
    assert_eq!(
        f.service.exec_start,
        vec![span("ExecStart=/usr/bin/myd"), span("--foo"), span("bar")]
    );
}

#[test]
fn unknown_directive_is_skipped() {
    let text = owned(&[
        "[Unit]",
        "Description=svc",
        "FrobnicateLevel=11",
        "After=a.target",
    ]);
    let f = parse(&text).expect("valid input");
    assert_eq!(f.unit.description, span("Description=svc"));
    assert_eq!(f.unit.after, Some(vec![span("After=a.target")]));
}

#[test]
fn unknown_section_is_skipped() {
    let text = owned(&["[Timer]", "OnCalendar=daily", "[Unit]", "Description=x"]);
    let f = parse(&text).expect("valid input");
    assert_eq!(f.unit.description, span("Description=x"));
    assert_eq!(f.service.head, Vec::<u8>::new());
    assert_eq!(f.install.head, Vec::<u8>::new());
}

#[test]
fn comments_collected_per_section() {
    let text = owned(&[
        "[Unit]",
        "# first note",
        "Description=x",
        "# second note",
        "[Service]",
        "# service note",
        "Type=oneshot",
    ]);
    let f = parse(&text).expect("valid input");
    assert_eq!(
        f.unit.comments,
        Some(vec![span("# first note"), span("# second note")])
    );
    assert_eq!(f.service.comments, Some(vec![span("# service note")]));
}

#[test]
fn repeated_sections_accumulate() {
    let text = owned(&["[Unit]", "After=a.target", "[Unit]", "After=b.target"]);
    let f = parse(&text).expect("valid input");
    assert_eq!(
        f.unit.after,
        Some(vec![span("After=a.target"), span("After=b.target")])
    );
}

#[test]
fn empty_input_is_valid_and_default() {
    let f = parse(b"").expect("empty input is valid");
    assert_eq!(f, SystemdFile::default());
    assert_eq!(render(&f), Vec::<u8>::new());
}

#[test]
fn validator_matches_parser() {
    let samples: Vec<Vec<u8>> = vec![
        owned(&["[Unit]", "Description=x"]),
        owned(&["Description=x"]),
        owned(&["[Unit", "Description=x"]),
        owned(&["", "", "[Install]"]),
        owned(&["[Unit]", "  Description=x"]),
        b"\xff\xfe garbage \x00".to_vec(),
        Vec::new(),
    ];
    for text in samples {
        assert_eq!(validate(&text).is_ok(), parse(&text).is_ok());
    }
}

#[test]
fn validator_accepts_non_utf8_values() {
    let mut text = b"[Unit]\nDescription=".to_vec();
    text.extend_from_slice(&[0xff, 0xfe, 0x80]);
    text.push(b'\n');
    assert!(validate(&text).is_ok());
    let f = parse(&text).expect("valid input");
    assert_eq!(f.unit.description, vec![b'D', b'e', b's', b'c', b'r', b'i', b'p', b't', b'i', b'o', b'n', b'=', 0xff, 0xfe, 0x80]);
}

#[test]
fn directive_before_section_is_an_error() {
    let text = owned(&["Description=x", "[Unit]"]);
    let e = validate(&text).expect_err("content before a heading");
    assert_eq!(
        e,
        SyntaxError { line: 0, kind: SyntaxErrorKind::DirectiveOutsideSection }
    );
    assert_eq!(parse(&text).expect_err("same error"), e);
}

#[test]
fn malformed_lines_are_errors() {
    let cases = vec![
        (owned(&["[Unit]", "no equals sign"]), 1),
        (owned(&["[Unit", "Description=x"]), 0),
        (owned(&["[Unit]", "Description=x", "  After=x"]), 2),
        (owned(&["[Unit]", "=value"]), 1),
        (owned(&["[]"]), 0),
    ];
    for (text, line) in cases {
        let e = validate(&text).expect_err("malformed line");
        assert_eq!(e.kind, SyntaxErrorKind::MalformedLine);
        assert_eq!(e.line, line);
    }
}

#[test]
fn tokenize_reports_first_offending_line() {
    let text = owned(&["[Unit]", "Description=x", "!!", "??"]);
    let e = SystemDParser::tokenize(&text).expect_err("two bad lines");
    assert_eq!(e.line, 2);
}

#[test]
fn blank_lines_and_tabs_are_tolerated() {
    let text = owned(&["", "\t  ", "[Unit]", "", "Description=x", "   "]);
    let f = parse(&text).expect("valid input");
    assert_eq!(f.unit.description, span("Description=x"));
}
