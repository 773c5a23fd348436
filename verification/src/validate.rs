//! Validating a file: detection, the checks, and git, gathered in a report.

use vstd::prelude::*;

use crate::charset::decodable;
use crate::detect::{detect, detection_outcome, valid_candidates, valid_encodings, Detection};
use crate::git::{opt_git_view, GitInfo, GitInfoView};
use crate::mojibake::{
    binary_verdict, looks_binary, push_warning, scan, scan_warnings, warnings_view, Warning,
    WarningView,
};
use crate::output::{Report, ReportView};
use crate::text::{push_str, same_text};

verus! {

/// What a validation is asked to do: the file, and the encoding it is
/// expected to be in, if any.
pub struct ValidateFileArgs {
    /// Path to the file to validate.
    pub file_path: String,
    /// Expected encoding (e.g. utf-8, iso-8859-1, windows-1252).
    pub encoding: Option<String>,
}

/// The message of a warning that the encoding changed since the last commit.
pub open spec fn git_change_message(head: Seq<char>, current: Seq<char>) -> Seq<char> {
    "Encoding changed from "@ + head + " (committed) to "@ + current
        + " (working copy) — verify intentionally changed"@
}

/// The warning, if any, that the committed version had another encoding
/// than the one detected now.
pub open spec fn git_change_warnings(git: Option<GitInfoView>, current: Seq<char>) -> Seq<
    WarningView,
> {
    match git {
        Some(g) => match g.head_encoding {
            Some(head) => if head != current {
                seq![
                    WarningView {
                        offset: 0,
                        length: 0,
                        kind: "git_encoding_change"@,
                        message: git_change_message(head, current),
                        bytes: seq![],
                        suggested: None,
                        line: 1,
                    },
                ]
            } else {
                seq![]
            },
            None => seq![],
        },
        None => seq![],
    }
}

/// The report on a file at `path` holding `bytes`, given the detection
/// `(encoding, confidence)` and what git knows of it. A binary file gets no
/// warnings about its text.
pub open spec fn report_of(
    path: Seq<char>,
    bytes: Seq<u8>,
    detected: (Seq<char>, u8),
    git: Option<GitInfoView>,
) -> ReportView {
    let is_binary = binary_verdict(bytes);
    ReportView {
        path,
        size: bytes.len() as usize,
        detected_encoding: detected.0,
        confidence: detected.1,
        valid_encodings: valid_candidates(bytes, 5),
        is_binary,
        git_info: git,
        warnings: (if is_binary {
            seq![]
        } else {
            scan_warnings(bytes, detected.0)
        }) + git_change_warnings(git, detected.0),
    }
}

/// The outcome of validating: the report, or the message of the failure.
pub open spec fn validation_outcome(
    path: Seq<char>,
    expected: Option<Seq<char>>,
    bytes: Seq<u8>,
    git: Option<GitInfoView>,
) -> Result<ReportView, Seq<char>> {
    match detection_outcome(bytes, expected) {
        Ok(d) => Ok(report_of(path, bytes, d, git)),
        Err(label) => Err("Detection failed: "@ + ("Unknown encoding: "@ + label)),
    }
}

/// The view of a validation result.
pub open spec fn validation_view(r: Result<Report, String>) -> Result<ReportView, Seq<char>> {
    match r {
        Ok(report) => Ok(report@),
        Err(e) => Err(e@),
    }
}

/// The warning that the encoding changed from `head` to `current`.
pub fn git_change_warning(head: &str, current: &str) -> (w: Warning)
    ensures
        w@ == (WarningView {
            offset: 0,
            length: 0,
            kind: "git_encoding_change"@,
            message: git_change_message(head@, current@),
            bytes: seq![],
            suggested: None,
            line: 1,
        }),
{
    let mut message = String::new();
    push_str(&mut message, "Encoding changed from ");
    push_str(&mut message, head);
    push_str(&mut message, " (committed) to ");
    push_str(&mut message, current);
    push_str(&mut message, " (working copy) — verify intentionally changed");
    let w = Warning {
        offset: 0,
        length: 0,
        warning_type: "git_encoding_change".to_owned(),
        message,
        bytes: Vec::new(),
        suggested_char: None,
        line: 1,
    };
    assert(w@.bytes =~= Seq::<u8>::empty());
    w
}

/// Builds the report on a file at `path` holding `bytes`, whose encoding
/// was detected as `detected`.
pub fn build_report(path: String, bytes: &[u8], detected: &Detection, git_info: Option<GitInfo>) -> (r:
    Report)
    requires
        decodable(bytes@),
    ensures
        r@ == report_of(path@, bytes@, detected@, opt_git_view(git_info)),
{
    let is_binary = looks_binary(bytes);
    let valid = valid_encodings(bytes);
    let mut warnings = if is_binary {
        Vec::new()
    } else {
        scan(bytes, detected)
    };
    let ghost text_warnings = warnings_view(warnings@);
    assert(text_warnings == (if is_binary {
        seq![]
    } else {
        scan_warnings(bytes@, detected.encoding@)
    }));
    match &git_info {
        Some(git) => match &git.head_encoding {
            Some(head_enc) => {
                if !same_text(head_enc.as_str(), detected.name()) {
                    push_warning(&mut warnings, git_change_warning(head_enc.as_str(), detected.name()));
                }
            },
            None => {},
        },
        None => {},
    }
    assert(warnings_view(warnings@) =~= text_warnings + git_change_warnings(
        opt_git_view(git_info),
        detected.encoding@,
    ));
    Report {
        path,
        size: bytes.len(),
        detected_encoding: detected.name().to_owned(),
        confidence: detected.confidence,
        valid_encodings: valid,
        is_binary,
        git_info,
        warnings,
    }
}

/// Validates a file at `path` holding `bytes`, expected to be in the
/// encoding that `encoding` labels if given.
pub fn run_validation(path: &str, encoding: Option<&str>, bytes: &[u8], git_info: Option<GitInfo>) -> (r:
    Result<Report, String>)
    requires
        decodable(bytes@),
    ensures
        validation_view(r) == validation_outcome(
            path@,
            match encoding {
                Some(l) => Some(l@),
                None => None,
            },
            bytes@,
            opt_git_view(git_info),
        ),
{
    let detected = detect(bytes, encoding);
    match detected {
        Ok(d) => Ok(build_report(path.to_owned(), bytes, &d, git_info)),
        Err(e) => {
            let mut message = String::new();
            push_str(&mut message, "Detection failed: ");
            let cause = e.message();
            push_str(&mut message, cause.as_str());
            Err(message)
        },
    }
}

/// Validates the file that `args` names, whose contents are `contents`.
pub fn validate_file(args: &ValidateFileArgs, contents: &[u8], git_info: Option<GitInfo>) -> (r:
    Result<Report, String>)
    requires
        decodable(contents@),
    ensures
        validation_view(r) == validation_outcome(
            args.file_path@,
            match args.encoding {
                Some(l) => Some(l@),
                None => None,
            },
            contents@,
            opt_git_view(git_info),
        ),
{
    let expected: Option<&str> = match &args.encoding {
        Some(l) => Some(l.as_str()),
        None => None,
    };
    run_validation(args.file_path.as_str(), expected, contents, git_info)
}

} // verus!
