//! The report on a file, and its rendering as terminal text.

use vstd::prelude::*;

use crate::detect::count_where;
use crate::git::{opt_git_view, GitInfo, GitInfoView};
use crate::mojibake::{warnings_view, Warning, WarningView};
use crate::text::{decimal, join, pad_left, push_decimal, push_padded, push_str, same_text};

verus! {

/// Everything found about a file.
pub struct Report {
    pub path: String,
    pub size: usize,
    pub detected_encoding: String,
    /// Confidence in the detected encoding, in percent.
    pub confidence: u8,
    pub valid_encodings: Vec<&'static str>,
    pub is_binary: bool,
    pub git_info: Option<GitInfo>,
    pub warnings: Vec<Warning>,
}

/// The contents of a report as values.
pub ghost struct ReportView {
    pub path: Seq<char>,
    pub size: usize,
    pub detected_encoding: Seq<char>,
    pub confidence: u8,
    pub valid_encodings: Seq<Seq<char>>,
    pub is_binary: bool,
    pub git_info: Option<GitInfoView>,
    pub warnings: Seq<WarningView>,
}

impl View for Report {
    type V = ReportView;

    open spec fn view(&self) -> ReportView {
        ReportView {
            path: self.path@,
            size: self.size,
            detected_encoding: self.detected_encoding@,
            confidence: self.confidence,
            valid_encodings: self.valid_encodings@.map_values(|n: &'static str| n@),
            is_binary: self.is_binary,
            git_info: opt_git_view(self.git_info),
            warnings: warnings_view(self.warnings@),
        }
    }
}

/// `text` wrapped in the ANSI escape sequences that set graphic mode `code`
/// and reset it.
pub open spec fn ansi_text(text: Seq<char>, code: u8) -> Seq<char> {
    "\x1b["@ + decimal(code as nat) + "m"@ + text + "\x1b[0m"@
}

/// Wraps `text` in the ANSI escape sequences for graphic mode `code`.
pub fn ansi(text: &str, code: u8) -> (r: String)
    ensures
        r@ == ansi_text(text@, code),
{
    let mut r = String::new();
    push_str(&mut r, "\x1b[");
    push_decimal(&mut r, code as usize);
    push_str(&mut r, "m");
    push_str(&mut r, text);
    push_str(&mut r, "\x1b[0m");
    r
}

/// The label and colour under which a kind of warning is shown.
pub open spec fn warning_style(kind: Seq<char>) -> (Seq<char>, u8) {
    if kind == "replacement_char"@ {
        ("REPLACEMENT"@, 31)
    } else if kind == "utf8_as_latin1"@ {
        ("UTF8→LATIN1"@, 33)
    } else if kind == "latin1_as_utf8"@ {
        ("LATIN1→UTF8"@, 33)
    } else if kind == "git_encoding_change"@ {
        ("GIT ENCODING"@, 36)
    } else {
        ("WARNING"@, 33)
    }
}

/// The lines that show one warning: its label and message, and the text it
/// should be where the warning suggests one.
pub open spec fn warning_lines(w: WarningView) -> Seq<Seq<char>> {
    let (label, color) = warning_style(w.kind);
    seq![
        "  "@ + ansi_text("["@ + pad_left(label, 13) + "]"@, color) + " "@ + ansi_text(
            w.message,
            0,
        ),
    ] + match w.suggested {
        Some(s) => seq!["             "@ + ansi_text("↳ should be: \""@ + s + "\""@, 36)],
        None => seq![],
    }
}

/// The lines that show each of the warnings in turn.
pub open spec fn all_warning_lines(ws: Seq<WarningView>) -> Seq<Seq<char>>
    decreases ws.len(),
{
    if ws.len() == 0 {
        seq![]
    } else {
        all_warning_lines(ws.drop_last()) + warning_lines(ws.last())
    }
}

/// Whether a warning reports replacement characters.
pub open spec fn is_error_kind(w: WarningView) -> bool {
    w.kind == "replacement_char"@
}

/// Whether a warning reports a change of encoding since the last commit.
pub open spec fn is_git_kind(w: WarningView) -> bool {
    w.kind == "git_encoding_change"@
}

/// Whether a warning reports garbled text.
pub open spec fn is_mojibake_kind(w: WarningView) -> bool {
    !is_error_kind(w) && !is_git_kind(w)
}

/// The line on git, if the report has git information.
pub open spec fn git_lines(r: ReportView) -> Seq<Seq<char>> {
    match r.git_info {
        None => seq![],
        Some(g) => if g.is_tracked {
            match g.head_encoding {
                Some(h) => seq![
                    ansi_text(
                        "Git:           tracked — committed as "@ + h + ", currently "@
                            + r.detected_encoding,
                        36,
                    ),
                ],
                None => seq!["Git:           tracked in repo"@],
            }
        } else {
            seq!["Git:           untracked"@]
        },
    }
}

/// The lines on the warnings: a note that there are none, or the counts of
/// errors, garbled text and encoding changes followed by each warning.
pub open spec fn summary_lines(ws: Seq<WarningView>) -> Seq<Seq<char>> {
    if ws.len() == 0 {
        seq![ansi_text("✓ No issues detected"@, 32)]
    } else {
        let errors = count_where(ws, |w: WarningView| is_error_kind(w));
        let mojibake = count_where(ws, |w: WarningView| is_mojibake_kind(w));
        let git_changes = count_where(ws, |w: WarningView| is_git_kind(w));
        seq!["Errors:        "@ + decimal(errors), "Mojibake:      "@ + decimal(mojibake) + " warnings"@]
            + if git_changes > 0 {
            seq!["Git changes:   "@ + decimal(git_changes)]
        } else {
            seq![]
        } + all_warning_lines(ws)
    }
}

/// The report as lines of terminal text.
pub open spec fn text_lines(r: ReportView) -> Seq<Seq<char>> {
    let head = seq!["File:          "@ + r.path, "Size:          "@ + decimal(r.size as nat) + " bytes"@];
    if r.is_binary {
        head + seq![
            ansi_text("⚠  Binary file — skipping text analysis"@, 33),
            "Valid as:      binary"@,
        ]
    } else {
        head + seq![
            "Detected:      "@ + r.detected_encoding + " (confidence: "@ + decimal(
                r.confidence as nat,
            ) + "%)"@,
            "Valid as:      "@ + join(r.valid_encodings, ", "@),
        ] + git_lines(r) + summary_lines(r.warnings)
    }
}

/// The views of a sequence of strings.
pub open spec fn lines_view(lines: Seq<String>) -> Seq<Seq<char>> {
    lines.map_values(|l: String| l@)
}

fn push_line(lines: &mut Vec<String>, line: String)
    ensures
        lines_view(final(lines)@) == lines_view(old(lines)@).push(line@),
{
    let ghost before = lines@;
    lines.push(line);
    assert(lines_view(lines@) =~= lines_view(before).push(line@));
}

fn text_line(prefix: &str, value: &str) -> (r: String)
    ensures
        r@ == prefix@ + value@,
{
    let mut r = String::new();
    push_str(&mut r, prefix);
    push_str(&mut r, value);
    r
}

fn literal_line(text: &str) -> (r: String)
    ensures
        r@ == text@,
{
    text.to_owned()
}

fn number_line(prefix: &str, n: usize) -> (r: String)
    ensures
        r@ == prefix@ + decimal(n as nat),
{
    let mut r = String::new();
    push_str(&mut r, prefix);
    push_decimal(&mut r, n);
    r
}

fn count_line(prefix: &str, n: usize, suffix: &str) -> (r: String)
    ensures
        r@ == prefix@ + decimal(n as nat) + suffix@,
{
    let mut r = String::new();
    push_str(&mut r, prefix);
    push_decimal(&mut r, n);
    push_str(&mut r, suffix);
    r
}

fn joined(items: &Vec<&'static str>, sep: &str) -> (r: String)
    ensures
        r@ == join(items@.map_values(|n: &'static str| n@), sep@),
{
    let ghost names = items@.map_values(|n: &'static str| n@);
    let mut r = String::new();
    let mut i: usize = 0;
    while i < items.len()
        invariant
            i <= items@.len(),
            names == items@.map_values(|n: &'static str| n@),
            r@ == join(names.take(i as int), sep@),
        decreases items@.len() - i,
    {
        assert(names.take(i + 1).drop_last() =~= names.take(i as int));
        if i > 0 {
            push_str(&mut r, sep);
        }
        push_str(&mut r, items[i]);
        i = i + 1;
    }
    assert(names.take(i as int) =~= names);
    r
}

fn warning_style_of(kind: &str) -> (r: (&'static str, u8))
    ensures
        (r.0@, r.1) == warning_style(kind@),
{
    if same_text(kind, "replacement_char") {
        ("REPLACEMENT", 31)
    } else if same_text(kind, "utf8_as_latin1") {
        ("UTF8→LATIN1", 33)
    } else if same_text(kind, "latin1_as_utf8") {
        ("LATIN1→UTF8", 33)
    } else if same_text(kind, "git_encoding_change") {
        ("GIT ENCODING", 36)
    } else {
        ("WARNING", 33)
    }
}

fn push_warning_lines(lines: &mut Vec<String>, w: &Warning)
    ensures
        lines_view(final(lines)@) == lines_view(old(lines)@) + warning_lines(w@),
{
    let ghost start = lines_view(lines@);
    let (label, color) = warning_style_of(w.warning_type.as_str());
    let mut framed = String::new();
    push_str(&mut framed, "[");
    push_padded(&mut framed, label, 13);
    push_str(&mut framed, "]");
    let mut line = String::new();
    push_str(&mut line, "  ");
    let a = ansi(framed.as_str(), color);
    push_str(&mut line, a.as_str());
    push_str(&mut line, " ");
    let b = ansi(w.message.as_str(), 0);
    push_str(&mut line, b.as_str());
    push_line(lines, line);
    match &w.suggested_char {
        Some(s) => {
            let mut inner = String::new();
            push_str(&mut inner, "↳ should be: \"");
            push_str(&mut inner, s.as_str());
            push_str(&mut inner, "\"");
            let c = ansi(inner.as_str(), 36);
            let hint = text_line("             ", c.as_str());
            push_line(lines, hint);
        },
        None => {},
    }
    assert(lines_view(lines@) =~= start + warning_lines(w@));
}

fn count_kinds(ws: &Vec<Warning>) -> (r: (usize, usize, usize))
    ensures
        r.0 == count_where(warnings_view(ws@), |w: WarningView| is_error_kind(w)),
        r.1 == count_where(warnings_view(ws@), |w: WarningView| is_mojibake_kind(w)),
        r.2 == count_where(warnings_view(ws@), |w: WarningView| is_git_kind(w)),
{
    let ghost all = warnings_view(ws@);
    let mut errors: usize = 0;
    let mut mojibake: usize = 0;
    let mut git: usize = 0;
    let mut i: usize = 0;
    while i < ws.len()
        invariant
            i <= ws@.len(),
            all == warnings_view(ws@),
            errors <= i,
            mojibake <= i,
            git <= i,
            errors == count_where(all.take(i as int), |w: WarningView| is_error_kind(w)),
            mojibake == count_where(all.take(i as int), |w: WarningView| is_mojibake_kind(w)),
            git == count_where(all.take(i as int), |w: WarningView| is_git_kind(w)),
        decreases ws@.len() - i,
    {
        assert(all.take(i + 1).drop_last() =~= all.take(i as int));
        assert(all[i as int] == ws@[i as int]@);
        let kind = ws[i].warning_type.as_str();
        let is_error = same_text(kind, "replacement_char");
        let is_git = same_text(kind, "git_encoding_change");
        if is_error {
            errors = errors + 1;
        }
        if is_git {
            git = git + 1;
        }
        if !is_error && !is_git {
            mojibake = mojibake + 1;
        }
        i = i + 1;
    }
    assert(all.take(i as int) =~= all);
    (errors, mojibake, git)
}

/// The report as lines of terminal text, in the order they are printed.
pub fn render_text(report: &Report) -> (lines: Vec<String>)
    ensures
        lines_view(lines@) == text_lines(report@),
{
    let mut lines: Vec<String> = Vec::new();
    push_line(&mut lines, text_line("File:          ", report.path.as_str()));
    push_line(&mut lines, count_line("Size:          ", report.size, " bytes"));
    if report.is_binary {
        push_line(&mut lines, ansi("⚠  Binary file — skipping text analysis", 33));
        push_line(&mut lines, literal_line("Valid as:      binary"));
        assert(lines_view(lines@) =~= text_lines(report@));
        return lines;
    }
    let mut detected = text_line("Detected:      ", report.detected_encoding.as_str());
    push_str(&mut detected, " (confidence: ");
    push_decimal(&mut detected, report.confidence as usize);
    push_str(&mut detected, "%)");
    push_line(&mut lines, detected);
    let valid = joined(&report.valid_encodings, ", ");
    push_line(&mut lines, text_line("Valid as:      ", valid.as_str()));
    let ghost after_head = lines_view(lines@);
    match &report.git_info {
        Some(git) => {
            if git.is_tracked {
                match &git.head_encoding {
                    Some(head_enc) => {
                        let mut msg = text_line(
                            "Git:           tracked — committed as ",
                            head_enc.as_str(),
                        );
                        push_str(&mut msg, ", currently ");
                        push_str(&mut msg, report.detected_encoding.as_str());
                        push_line(&mut lines, ansi(msg.as_str(), 36));
                    },
                    None => {
                        push_line(&mut lines, literal_line("Git:           tracked in repo"));
                    },
                }
            } else {
                push_line(&mut lines, literal_line("Git:           untracked"));
            }
        },
        None => {},
    }
    assert(lines_view(lines@) =~= after_head + git_lines(report@));
    let ghost after_git = lines_view(lines@);
    if report.warnings.len() == 0 {
        push_line(&mut lines, ansi("✓ No issues detected", 32));
    } else {
        let (errors, mojibake, git_changes) = count_kinds(&report.warnings);
        push_line(&mut lines, number_line("Errors:        ", errors));
        push_line(&mut lines, count_line("Mojibake:      ", mojibake, " warnings"));
        if git_changes > 0 {
            push_line(&mut lines, number_line("Git changes:   ", git_changes));
        }
        let ghost ws = warnings_view(report.warnings@);
        let ghost before_each = lines_view(lines@);
        let mut i: usize = 0;
        while i < report.warnings.len()
            invariant
                i <= report.warnings@.len(),
                ws == warnings_view(report.warnings@),
                lines_view(lines@) == before_each + all_warning_lines(ws.take(i as int)),
            decreases report.warnings@.len() - i,
        {
            assert(ws.take(i + 1).drop_last() =~= ws.take(i as int));
            assert(ws[i as int] == report.warnings@[i as int]@);
            push_warning_lines(&mut lines, &report.warnings[i]);
            i = i + 1;
        }
        assert(ws.take(i as int) =~= ws);
    }
    assert(lines_view(lines@) =~= text_lines(report@));
    lines
}


/// Whether `kind` is one of the four kinds of warning the library makes.
pub open spec fn is_known_kind(kind: Seq<char>) -> bool {
    kind == "replacement_char"@ || kind == "utf8_as_latin1"@ || kind == "latin1_as_utf8"@
        || kind == "git_encoding_change"@
}

/// Each kind of warning is shown under its own label and colour: decoding
/// errors as REPLACEMENT in red, UTF-8 read as Latin-1 as UTF8→LATIN1 and
/// Latin-1 read as UTF-8 as LATIN1→UTF8 in yellow, and a change of encoding
/// since the last commit as GIT ENCODING in cyan; any other kind as WARNING.
pub proof fn lemma_warning_line_labels(w: WarningView)
    ensures
        w.kind == "replacement_char"@ ==> warning_lines(w)[0] == "  "@ + ansi_text(
            "["@ + pad_left("REPLACEMENT"@, 13) + "]"@,
            31,
        ) + " "@ + ansi_text(w.message, 0),
        w.kind == "utf8_as_latin1"@ ==> warning_lines(w)[0] == "  "@ + ansi_text(
            "["@ + pad_left("UTF8→LATIN1"@, 13) + "]"@,
            33,
        ) + " "@ + ansi_text(w.message, 0),
        w.kind == "latin1_as_utf8"@ ==> warning_lines(w)[0] == "  "@ + ansi_text(
            "["@ + pad_left("LATIN1→UTF8"@, 13) + "]"@,
            33,
        ) + " "@ + ansi_text(w.message, 0),
        w.kind == "git_encoding_change"@ ==> warning_lines(w)[0] == "  "@ + ansi_text(
            "["@ + pad_left("GIT ENCODING"@, 13) + "]"@,
            36,
        ) + " "@ + ansi_text(w.message, 0),
        !is_known_kind(w.kind) ==> warning_lines(w)[0] == "  "@ + ansi_text(
            "["@ + pad_left("WARNING"@, 13) + "]"@,
            33,
        ) + " "@ + ansi_text(w.message, 0),
{
    reveal_strlit("replacement_char");
    reveal_strlit("utf8_as_latin1");
    reveal_strlit("latin1_as_utf8");
    assert("utf8_as_latin1"@[0] != "replacement_char"@[0]);
    assert("latin1_as_utf8"@[0] != "replacement_char"@[0]);
    assert("latin1_as_utf8"@[0] != "utf8_as_latin1"@[0]);
    reveal_strlit("git_encoding_change");
    assert("git_encoding_change"@[0] != "replacement_char"@[0]);
    assert("git_encoding_change"@[0] != "utf8_as_latin1"@[0]);
    assert("git_encoding_change"@[0] != "latin1_as_utf8"@[0]);
}

/// No two kinds of warning share a label: what a warning's label says
/// tells which kind it is.
pub proof fn lemma_labels_tell_kinds_apart(k1: Seq<char>, k2: Seq<char>)
    requires
        is_known_kind(k1),
        is_known_kind(k2),
        k1 != k2,
    ensures
        warning_style(k1).0 != warning_style(k2).0,
        warning_style(k1).0 != "WARNING"@,
{
    reveal_strlit("replacement_char");
    reveal_strlit("utf8_as_latin1");
    reveal_strlit("latin1_as_utf8");
    reveal_strlit("git_encoding_change");
    reveal_strlit("REPLACEMENT");
    reveal_strlit("UTF8→LATIN1");
    reveal_strlit("LATIN1→UTF8");
    reveal_strlit("GIT ENCODING");
    reveal_strlit("WARNING");
    assert(warning_style(k1).0[0] != warning_style(k2).0[0]);
}

} // verus!
