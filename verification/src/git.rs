//! What git knows of a file: whether it is tracked, and the encoding of the
//! committed version.

use vstd::prelude::*;

use crate::charset::{decodable, utf8_name};
use vstd::utf8::valid_utf8;
use crate::detect::{confidence_percent, detect, detection_outcome, guessed_encoding};
use crate::text::push_str;

verus! {

/// A file's place in a git repository.
pub struct GitInfo {
    pub is_tracked: bool,
    pub repo_root: Option<String>,
    pub head_encoding: Option<String>,
    /// Confidence in the committed version's encoding, in percent.
    pub head_confidence: Option<u8>,
}

/// The contents of a `GitInfo` as values.
pub ghost struct GitInfoView {
    pub is_tracked: bool,
    pub repo_root: Option<Seq<char>>,
    pub head_encoding: Option<Seq<char>>,
    pub head_confidence: Option<u8>,
}

/// The view of an optional string.
pub open spec fn opt_text(s: Option<String>) -> Option<Seq<char>> {
    match s {
        Some(t) => Some(t@),
        None => None,
    }
}

impl View for GitInfo {
    type V = GitInfoView;

    open spec fn view(&self) -> GitInfoView {
        GitInfoView {
            is_tracked: self.is_tracked,
            repo_root: opt_text(self.repo_root),
            head_encoding: opt_text(self.head_encoding),
            head_confidence: self.head_confidence,
        }
    }
}

/// The view of an optional `GitInfo`.
pub open spec fn opt_git_view(g: Option<GitInfo>) -> Option<GitInfoView> {
    match g {
        Some(info) => Some(info@),
        None => None,
    }
}

/// NUL and ASCII whitespace (space, tab, line feed, form feed, carriage
/// return).
pub open spec fn is_blank_byte(b: u8) -> bool {
    b == 0 || b == 0x20 || b == 0x09 || b == 0x0A || b == 0x0C || b == 0x0D
}

/// Whether every byte is NUL or ASCII whitespace.
pub open spec fn emptyish(bytes: Seq<u8>) -> bool {
    forall|i: int| 0 <= i < bytes.len() ==> is_blank_byte(#[trigger] bytes[i])
}

/// Whether every byte of `bytes` is NUL or ASCII whitespace.
pub fn looks_emptyish(bytes: &[u8]) -> (r: bool)
    ensures
        r == emptyish(bytes@),
{
    let mut i: usize = 0;
    while i < bytes.len()
        invariant
            i <= bytes@.len(),
            forall|k: int| 0 <= k < i ==> is_blank_byte(#[trigger] bytes@[k]),
        decreases bytes@.len() - i,
    {
        let b = bytes[i];
        if !(b == 0 || b == 0x20 || b == 0x09 || b == 0x0A || b == 0x0C || b == 0x0D) {
            assert(!is_blank_byte(bytes@[i as int]));
            return false;
        }
        i = i + 1;
    }
    true
}

/// What is known of a file in the repository rooted at `repo_root`, given
/// whether git tracks it and, for a file git tracks, its committed bytes
/// (`None` where they could not be read, which leaves nothing known).
/// A committed version that is empty or blank has no encoding.
pub open spec fn git_info_outcome(repo_root: Seq<char>, is_tracked: bool, head: Option<Seq<u8>>) -> Option<
    GitInfoView,
> {
    if !is_tracked {
        Some(
            GitInfoView {
                is_tracked: false,
                repo_root: Some(repo_root),
                head_encoding: None,
                head_confidence: None,
            },
        )
    } else {
        match head {
            None => None,
            Some(h) => if h.len() == 0 || emptyish(h) {
                Some(
                    GitInfoView {
                        is_tracked: true,
                        repo_root: Some(repo_root),
                        head_encoding: None,
                        head_confidence: None,
                    },
                )
            } else {
                Some(
                    GitInfoView {
                        is_tracked: true,
                        repo_root: Some(repo_root),
                        head_encoding: Some(guessed_encoding(h)),
                        head_confidence: Some(confidence_percent(h, guessed_encoding(h))),
                    },
                )
            },
        }
    }
}

/// Sums up a file's place in git from what git reported about it.
pub fn git_info_from_head(repo_root: String, is_tracked: bool, head_bytes: Option<Vec<u8>>) -> (r:
    Option<GitInfo>)
    requires
        head_bytes matches Some(h) ==> decodable(h@),
    ensures
        r matches Some(g) && g.head_encoding matches Some(e) && e@ == utf8_name() ==> (
        head_bytes matches Some(h) && valid_utf8(h@)),
        opt_git_view(r) == git_info_outcome(
            repo_root@,
            is_tracked,
            match head_bytes {
                Some(h) => Some(h@),
                None => None,
            },
        ),
{
    if !is_tracked {
        return Some(
            GitInfo {
                is_tracked: false,
                repo_root: Some(repo_root),
                head_encoding: None,
                head_confidence: None,
            },
        );
    }
    let head = match head_bytes {
        Some(h) => h,
        None => {
            return None;
        },
    };
    if head.len() == 0 || looks_emptyish(head.as_slice()) {
        return Some(
            GitInfo {
                is_tracked: true,
                repo_root: Some(repo_root),
                head_encoding: None,
                head_confidence: None,
            },
        );
    }
    let detection = match detect(head.as_slice(), None) {
        Ok(d) => d,
        Err(_) => {
            return None;
        },
    };
    let mut name = String::new();
    push_str(&mut name, detection.name());
    Some(
        GitInfo {
            is_tracked: true,
            repo_root: Some(repo_root),
            head_encoding: Some(name),
            head_confidence: Some(detection.confidence),
        },
    )
}


/// The encoding and confidence recorded for a tracked file's non-blank
/// committed version are exactly what detection without an expected
/// encoding finds for the committed bytes.
pub proof fn lemma_head_encoding_is_detected(repo_root: Seq<char>, head: Seq<u8>)
    requires
        head.len() > 0,
        !emptyish(head),
    ensures
        detection_outcome(head, None) matches Ok(d) && git_info_outcome(
            repo_root,
            true,
            Some(head),
        ) == Some(
            GitInfoView {
                is_tracked: true,
                repo_root: Some(repo_root),
                head_encoding: Some(d.0),
                head_confidence: Some(d.1),
            },
        ),
{
}

} // verus!
