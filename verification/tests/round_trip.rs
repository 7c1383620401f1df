use systemd_parser::parse;
use systemd_parser::render::render;

fn owned(lines: &[&str]) -> Vec<u8> {
    let mut out = Vec::new();
    for l in lines {
        out.extend_from_slice(l.as_bytes());
        out.push(b'\n');
    }
    out
}

#[test]
fn render_emits_declaration_order() {
    let text = owned(&[
        "[Install]",
        "Alias=foo.service",
        "# installed by hand",
        "WantedBy=multi-user.target",
    ]);
    let f = parse(&text).expect("valid input");
    let expected = owned(&[
        "[Install]",
        "# installed by hand",
        "WantedBy=multi-user.target",
        "Alias=foo.service",
    ]);
    assert_eq!(render(&f), expected);
}

#[test]
fn render_skips_absent_sections_and_fields() {
    let text = owned(&["[Unit]", "Description=x"]);
    let f = parse(&text).expect("valid input");
    assert_eq!(render(&f), owned(&["[Unit]", "Description=x"]));
}

#[test]
fn text_round_trip_preserves_model() {
    let samples: Vec<Vec<u8>> = vec![
        owned(&[
            "[Unit]",
            "Description=My Service",
            "After=network.target",
            "After=foo.target",
            "# a comment",
            "Requires=dep.service",
            "Wants=w.service",
            "BindsTo=b.service",
            "Before=later.service",
            "Conflicts=c.service",
            "Condition=cond",
            "Assert=assert-this",
            "ConditionPathExists=/etc/x",
            "Documentation=man:myd(8)",
            "",
            "[Service]",
            "Type=simple",
            "ExecStart=/usr/bin/myd --foo bar",
            "ExecStartPre=/bin/pre",
            "ExecStartPost=/bin/post",
            "ExecReload=/bin/reload",
            "ExecStop=/bin/stop",
            "ExecStopPost=/bin/stop-post",
            "RestartSec=5",
            "Restart=always",
            "TimeoutSec=30",
            "EnvironmentFile=/etc/env",
            "KillMode=process",
            "RestartPreventExitStatus=1",
            "RuntimeDirectory=myd",
            "RuntimeDirectoryMode=0755",
            "Environment=A=b",
            "StandardOutput=journal",
            "LimitNOFILE=65536",
            "",
            "[Install]",
            "WantedBy=multi-user.target",
            "RequiredBy=req.target",
            "Alias=a.service",
            "Also=also.service",
            "DefaultInstance=main",
        ]),
        owned(&["[Service]", "ExecStart=/bin/run  spaced\targs"]),
        owned(&["[Unit]", "# only a comment"]),
        Vec::new(),
        owned(&["[Other]", "Ignored=yes", "[Unit]", "Description=x"]),
    ];
    for text in samples {
        let first = parse(&text).expect("valid input");
        let rendered = render(&first);
        let second = parse(&rendered).expect("rendered text is valid");
        assert_eq!(second, first);
        // a second round trip changes nothing more
        assert_eq!(render(&second), rendered);
    }
}

#[test]
fn exec_start_joined_with_single_spaces() {
    let text = owned(&["[Service]", "ExecStart=/bin/run   a\t b"]);
    let f = parse(&text).expect("valid input");
    assert_eq!(render(&f), owned(&["[Service]", "ExecStart=/bin/run a b"]));
}

#[test]
fn unknown_sections_are_not_preserved() {
    let text = owned(&["[Timer]", "OnCalendar=daily", "[Unit]", "Description=x"]);
    let f = parse(&text).expect("valid input");
    assert_eq!(render(&f), owned(&["[Unit]", "Description=x"]));
}
