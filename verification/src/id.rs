//! Document-id classification.
//!
//! Document ids follow naming conventions:
//! - Published: `{id}`
//! - Draft: `drafts.{id}`
//! - Version: `versions.{releaseId}.{id}`

use vstd::prelude::*;
use crate::text::{
    first_index_from, find_char_from, is_prefix_of, starts_with_str, substring_range,
    substring_to_end,
};

verus! {

/// The kind of a document id, together with its components.
#[derive(Debug, Clone, PartialEq, Eq)]
pub enum DocumentIdKind {
    Published(String),
    Draft(String),
    Version { release_id: String, base_id: String },
}

/// Shift a search by `off` characters: searching `s` from `from` is the same
/// as searching `s.skip(off)` from `from - off`.
proof fn lemma_first_index_skip(s: Seq<char>, off: int, from: int, c: char)
    requires
        0 <= off <= from,
        off <= s.len(),
    ensures
        first_index_from(s, from, c) == match first_index_from(s.skip(off), from - off, c) {
            Some(i) => Some(i + off),
            None => None::<int>,
        },
    decreases s.len() - from,
{
    if from < 0 || from >= s.len() {
    } else {
        assert(s.skip(off)[from - off] == s[from]);
        if s[from] == c {
        } else {
            lemma_first_index_skip(s, off, from + 1, c);
        }
    }
}

impl DocumentIdKind {
    /// Classify a document id by its prefix.
    ///
    /// A `drafts.` prefix yields `Draft` with the remainder as the base id; a
    /// `versions.` prefix followed by a dot-separated release id yields
    /// `Version`; anything else (including a malformed `versions.` id with no
    /// further dot) is `Published` carrying the whole id unchanged.
    pub fn parse(id: &str) -> (r: Self)
        ensures
            ({
                let s = id@;
                let dp = "drafts."@;
                let vp = "versions."@;
                match r {
                    DocumentIdKind::Draft(b) => is_prefix_of(dp, s) && b@ == s.skip(dp.len() as int),
                    DocumentIdKind::Version { release_id, base_id } => {
                        &&& !is_prefix_of(dp, s)
                        &&& is_prefix_of(vp, s)
                        &&& match first_index_from(s.skip(vp.len() as int), 0, '.') {
                            Some(k) => release_id@ == s.skip(vp.len() as int).take(k)
                                && base_id@ == s.skip(vp.len() as int).skip(k + 1),
                            None => false,
                        }
                    },
                    DocumentIdKind::Published(p) => {
                        &&& p@ == s
                        &&& !is_prefix_of(dp, s)
                        &&& (is_prefix_of(vp, s) ==> first_index_from(
                            s.skip(vp.len() as int),
                            0,
                            '.',
                        ) is None)
                    },
                }
            }),
    {
        proof {
            reveal_strlit("drafts.");
            reveal_strlit("versions.");
        }
        if starts_with_str(id, "drafts.") {
            let base = substring_to_end(id, 7);
            DocumentIdKind::Draft(base)
        } else if starts_with_str(id, "versions.") {
            proof {
                lemma_first_index_skip(id@, 9, 9, '.');
            }
            match find_char_from(id, 9, '.') {
                Some(k) => {
                    let release_id = substring_range(id, 9, k);
                    let base_id = substring_to_end(id, k + 1);
                    proof {
                        let s = id@;
                        let rest = s.skip(9);
                        assert(release_id@ =~= rest.take(k - 9));
                        assert(base_id@ =~= rest.skip(k - 9 + 1));
                    }
                    DocumentIdKind::Version { release_id, base_id }
                },
                None => DocumentIdKind::Published(String::from_str(id)),
            }
        } else {
            DocumentIdKind::Published(String::from_str(id))
        }
    }

    /// The base (published) document id, with any prefix removed.
    pub fn base_id(&self) -> (r: &str)
        ensures
            r@ == match self {
                DocumentIdKind::Published(id) => id@,
                DocumentIdKind::Draft(id) => id@,
                DocumentIdKind::Version { base_id, .. } => base_id@,
            },
    {
        match self {
            DocumentIdKind::Published(id) => id.as_str(),
            DocumentIdKind::Draft(id) => id.as_str(),
            DocumentIdKind::Version { base_id, .. } => base_id.as_str(),
        }
    }

    /// The full document id, prefix included.
    pub fn full_id(&self) -> (r: String)
        ensures
            r@ == match self {
                DocumentIdKind::Published(id) => id@,
                DocumentIdKind::Draft(id) => "drafts."@ + id@,
                DocumentIdKind::Version { release_id, base_id } => "versions."@ + release_id@
                    + seq!['.'] + base_id@,
            },
    {
        match self {
            DocumentIdKind::Published(id) => id.clone(),
            DocumentIdKind::Draft(id) => {
                let mut s = String::from_str("drafts.");
                s.append(id.as_str());
                s
            },
            DocumentIdKind::Version { release_id, base_id } => {
                let mut s = String::from_str("versions.");
                s.append(release_id.as_str());
                s.append(".");
                s.append(base_id.as_str());
                proof {
                    reveal_strlit(".");
                    assert("."@ =~= seq!['.']);
                    assert(s@ =~= "versions."@ + release_id@ + seq!['.'] + base_id@);
                }
                s
            },
        }
    }

    pub fn is_draft(&self) -> (r: bool)
        ensures
            r == (self is Draft),
    {
        matches!(self, DocumentIdKind::Draft(_))
    }

    pub fn is_published(&self) -> (r: bool)
        ensures
            r == (self is Published),
    {
        matches!(self, DocumentIdKind::Published(_))
    }

    pub fn is_version(&self) -> (r: bool)
        ensures
            r == (self is Version),
    {
        matches!(self, DocumentIdKind::Version { .. })
    }
}

} // verus!
