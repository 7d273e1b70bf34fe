//! The data that flows between the scanner, the index, the analyzer and the
//! export generator.
use vstd::prelude::*;

use crate::sort::Ordered;
use crate::text::{lemma_lex_total, lemma_lex_trans, lex_le, str_lex_le};

verus! {

/// One filesystem entry tracked in the index. `id` and `relative_path` are the
/// path relative to the scan root; `path` is absolute.
#[derive(Debug, Clone)]
pub struct FileNode {
    pub id: String,
    pub parent_id: Option<String>,
    pub name: String,
    pub path: String,
    pub relative_path: String,
    pub is_directory: bool,
    /// Absent until measured.
    pub size: Option<u64>,
    /// Absent until computed; zero for binary content.
    pub token_count: Option<usize>,
    pub selected: bool,
    pub expanded: bool,
}

pub fn copy_string_option(o: &Option<String>) -> (r: Option<String>)
    ensures
        r == *o,
{
    match o {
        Some(s) => Some(s.clone()),
        None => None,
    }
}

impl FileNode {
    /// A field-by-field copy.
    pub fn duplicate(&self) -> (r: FileNode)
        ensures
            r == *self,
    {
        FileNode {
            id: self.id.clone(),
            parent_id: copy_string_option(&self.parent_id),
            name: self.name.clone(),
            path: self.path.clone(),
            relative_path: self.relative_path.clone(),
            is_directory: self.is_directory,
            size: self.size,
            token_count: self.token_count,
            selected: self.selected,
            expanded: self.expanded,
        }
    }
}

/// Directories come before files; within each group names ascend.
pub open spec fn node_precedes(a: &FileNode, b: &FileNode) -> bool {
    if a.is_directory != b.is_directory {
        a.is_directory
    } else {
        lex_le(a.name@, b.name@)
    }
}

impl Ordered for FileNode {
    open spec fn precedes_spec(&self, other: &Self) -> bool {
        node_precedes(self, other)
    }

    proof fn lemma_precedes_total(a: &Self, b: &Self) {
        lemma_lex_total(a.name@, b.name@);
    }

    proof fn lemma_precedes_trans(a: &Self, b: &Self, c: &Self) {
        if a.is_directory == b.is_directory && b.is_directory == c.is_directory {
            lemma_lex_trans(a.name@, b.name@, c.name@);
        }
    }

    fn precedes(&self, other: &Self) -> (r: bool) {
        if self.is_directory != other.is_directory {
            self.is_directory
        } else {
            str_lex_le(self.name.as_str(), other.name.as_str())
        }
    }
}

/// Aggregate totals over a set of files.
#[derive(Debug, Clone)]
pub struct AppStats {
    pub files: usize,
    pub size: u64,
    pub tokens: usize,
}

/// Measured size and token count of one file, produced by background analysis.
#[derive(Debug, Clone)]
pub struct FileUpdate {
    pub id: String,
    pub size: u64,
    pub token_count: usize,
}

/// Progress of an export; `stage` is one of "preparing", "processing",
/// "writing", "completed".
#[derive(Debug, Clone)]
pub struct ProgressEvent {
    pub current: usize,
    pub total: usize,
    pub stage: String,
}

} // verus!
