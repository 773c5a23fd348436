use validate_encoding::git::{git_info_from_head, looks_emptyish, GitInfo};
use validate_encoding::mojibake::Warning;
use validate_encoding::output::{ansi, render_text, Report};
use validate_encoding::validate::{
    build_report, git_change_warning, run_validation, validate_file, ValidateFileArgs,
};
use validate_encoding::detect::detect;

#[test]
fn blank_bytes_look_emptyish() {
    assert!(looks_emptyish(b""));
    assert!(looks_emptyish(b" \t\r\n\x0c\0"));
    assert!(!looks_emptyish(b" x "));
    assert!(!looks_emptyish(b"\x0b"));
}

#[test]
fn untracked_file_has_no_head_encoding() {
    let g = git_info_from_head("/repo".to_string(), false, None).unwrap();
    assert!(!g.is_tracked);
    assert_eq!(g.repo_root, Some("/repo".to_string()));
    assert_eq!(g.head_encoding, None);
    assert_eq!(g.head_confidence, None);
}

#[test]
fn unreadable_head_leaves_nothing_known() {
    assert!(git_info_from_head("/repo".to_string(), true, None).is_none());
}

#[test]
fn blank_head_has_no_encoding() {
    let g = git_info_from_head("/repo".to_string(), true, Some(b" \n\n".to_vec())).unwrap();
    assert!(g.is_tracked);
    assert_eq!(g.head_encoding, None);
    let g = git_info_from_head("/repo".to_string(), true, Some(Vec::new())).unwrap();
    assert_eq!(g.head_confidence, None);
}

#[test]
fn committed_text_gets_its_encoding() {
    let head = "Räksmörgås med äppelmos".as_bytes().to_vec();
    let g = git_info_from_head("/repo".to_string(), true, Some(head)).unwrap();
    assert!(g.is_tracked);
    assert_eq!(g.head_encoding, Some("UTF-8".to_string()));
    assert_eq!(g.head_confidence, Some(100));
}

#[test]
fn ansi_wraps_text_in_escape_codes() {
    assert_eq!(ansi("hi", 31), "\x1b[31mhi\x1b[0m");
    assert_eq!(ansi("", 0), "\x1b[0m\x1b[0m");
}

#[test]
fn unknown_expected_encoding_fails_validation() {
    match run_validation("f.txt", Some("nope"), b"abc", None) {
        Err(msg) => assert_eq!(msg, "Detection failed: Unknown encoding: nope"),
        Ok(_) => panic!("validation accepted an unknown encoding"),
    }
}

#[test]
fn clean_text_report() {
    let r = run_validation("notes.txt", Some("utf-8"), b"hello\n", None).ok().unwrap();
    assert_eq!(r.path, "notes.txt");
    assert_eq!(r.size, 6);
    assert_eq!(r.detected_encoding, "UTF-8");
    assert_eq!(r.confidence, 100);
    assert_eq!(
        r.valid_encodings,
        vec!["UTF-8", "windows-1252", "ISO-8859-15", "UTF-16LE", "UTF-16BE"]
    );
    assert!(!r.is_binary);
    assert!(r.git_info.is_none());
    assert!(r.warnings.is_empty());
}

#[test]
fn binary_file_gets_no_text_warnings() {
    let bytes = [0u8, 0xff, 0, 0xfe, 0, 1, 2, 3];
    let r = run_validation("blob.bin", Some("utf-8"), &bytes, None).ok().unwrap();
    assert!(r.is_binary);
    assert!(r.warnings.is_empty());
    let lines = render_text(&r);
    assert_eq!(
        lines,
        vec![
            "File:          blob.bin".to_string(),
            "Size:          8 bytes".to_string(),
            "\x1b[33m⚠  Binary file — skipping text analysis\x1b[0m".to_string(),
            "Valid as:      binary".to_string(),
        ]
    );
}

#[test]
fn changed_encoding_since_commit_is_reported() {
    let git = GitInfo {
        is_tracked: true,
        repo_root: Some("/repo".to_string()),
        head_encoding: Some("windows-1252".to_string()),
        head_confidence: Some(90),
    };
    let r = run_validation("a.txt", Some("utf-8"), b"abc", Some(git)).ok().unwrap();
    assert_eq!(r.warnings.len(), 1);
    let w = &r.warnings[0];
    assert_eq!(w.warning_type, "git_encoding_change");
    assert_eq!(
        w.message,
        "Encoding changed from windows-1252 (committed) to UTF-8 (working copy) — verify intentionally changed"
    );
    assert_eq!((w.offset, w.length, w.line), (0, 0, 1));
}

#[test]
fn unchanged_encoding_since_commit_is_not_reported() {
    let git = GitInfo {
        is_tracked: true,
        repo_root: Some("/repo".to_string()),
        head_encoding: Some("UTF-8".to_string()),
        head_confidence: Some(100),
    };
    let r = run_validation("a.txt", Some("utf-8"), b"abc", Some(git)).ok().unwrap();
    assert!(r.warnings.is_empty());
}

#[test]
fn validate_file_follows_its_arguments() {
    let args = ValidateFileArgs { file_path: "x.txt".to_string(), encoding: Some("latin1".to_string()) };
    let r = validate_file(&args, b"\xe5", None).ok().unwrap();
    assert_eq!(r.path, "x.txt");
    assert_eq!(r.detected_encoding, "windows-1252");
    assert_eq!(r.valid_encodings, vec!["windows-1252", "ISO-8859-15"]);
    let args = ValidateFileArgs { file_path: "y.txt".to_string(), encoding: Some("??".to_string()) };
    assert!(validate_file(&args, b"", None).is_err());
}

#[test]
fn build_report_uses_the_detection() {
    let bytes = b"caf\xc3\xa9";
    let d = detect(bytes, Some("windows-1252")).ok().unwrap();
    let r = build_report("c.txt".to_string(), bytes, &d, None);
    assert_eq!(r.detected_encoding, "windows-1252");
    assert_eq!(r.warnings.len(), 1);
    assert_eq!(r.warnings[0].warning_type, "utf8_as_latin1");
}

#[test]
fn git_change_warning_text() {
    let w = git_change_warning("ISO-8859-15", "UTF-8");
    assert_eq!(
        w.message,
        "Encoding changed from ISO-8859-15 (committed) to UTF-8 (working copy) — verify intentionally changed"
    );
    assert!(w.bytes.is_empty());
    assert_eq!(w.suggested_char, None);
}

fn sample_report() -> Report {
    Report {
        path: "doc.txt".to_string(),
        size: 12,
        detected_encoding: "UTF-8".to_string(),
        confidence: 92,
        valid_encodings: vec!["UTF-8", "windows-1252"],
        is_binary: false,
        git_info: Some(GitInfo {
            is_tracked: true,
            repo_root: Some("/r".to_string()),
            head_encoding: Some("windows-1252".to_string()),
            head_confidence: Some(90),
        }),
        warnings: vec![
            Warning {
                offset: 0,
                length: 0,
                warning_type: "replacement_char".to_string(),
                message: "1 bad".to_string(),
                bytes: vec![],
                suggested_char: None,
                line: 1,
            },
            Warning {
                offset: 3,
                length: 1,
                warning_type: "latin1_as_utf8".to_string(),
                message: "lone".to_string(),
                bytes: vec![0xE5],
                suggested_char: Some("å".to_string()),
                line: 1,
            },
            Warning {
                offset: 0,
                length: 0,
                warning_type: "git_encoding_change".to_string(),
                message: "changed".to_string(),
                bytes: vec![],
                suggested_char: None,
                line: 1,
            },
        ],
    }
}

#[test]
fn text_rendering_of_a_report_with_warnings() {
    let lines = render_text(&sample_report());
    let expected: Vec<String> = vec![
        "File:          doc.txt",
        "Size:          12 bytes",
        "Detected:      UTF-8 (confidence: 92%)",
        "Valid as:      UTF-8, windows-1252",
        "\x1b[36mGit:           tracked — committed as windows-1252, currently UTF-8\x1b[0m",
        "Errors:        1",
        "Mojibake:      1 warnings",
        "Git changes:   1",
        "  \x1b[31m[  REPLACEMENT]\x1b[0m \x1b[0m1 bad\x1b[0m",
        "  \x1b[33m[  LATIN1→UTF8]\x1b[0m \x1b[0mlone\x1b[0m",
        "             \x1b[36m↳ should be: \"å\"\x1b[0m",
        "  \x1b[36m[ GIT ENCODING]\x1b[0m \x1b[0mchanged\x1b[0m",
    ]
    .into_iter()
    .map(|s| s.to_string())
    .collect();
    assert_eq!(lines, expected);
}

#[test]
fn text_rendering_without_warnings_or_git() {
    let mut r = sample_report();
    r.warnings.clear();
    r.git_info = Some(GitInfo {
        is_tracked: false,
        repo_root: Some("/r".to_string()),
        head_encoding: None,
        head_confidence: None,
    });
    let lines = render_text(&r);
    assert_eq!(lines[4], "Git:           untracked");
    assert_eq!(lines[5], "\x1b[32m✓ No issues detected\x1b[0m");
    assert_eq!(lines.len(), 6);
    r.git_info = None;
    assert_eq!(render_text(&r).len(), 5);
    let mut t = sample_report();
    t.git_info.as_mut().unwrap().head_encoding = None;
    assert_eq!(render_text(&t)[4], "Git:           tracked in repo");
}

#[test]
fn unknown_warning_kinds_get_a_generic_label() {
    let mut r = sample_report();
    r.warnings = vec![Warning {
        offset: 0,
        length: 0,
        warning_type: "other".to_string(),
        message: "m".to_string(),
        bytes: vec![],
        suggested_char: None,
        line: 1,
    }];
    r.git_info = None;
    let lines = render_text(&r);
    assert_eq!(lines[4], "Errors:        0");
    assert_eq!(lines[5], "Mojibake:      1 warnings");
    assert_eq!(lines[6], "  \x1b[33m[      WARNING]\x1b[0m \x1b[0mm\x1b[0m");
    assert_eq!(lines.len(), 7);
}
