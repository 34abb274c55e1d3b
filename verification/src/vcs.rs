//! The data model of the version-control reporting interface.
//!
//! The repository work itself is done by an outside collaborator in
//! the embedding application; these are the plain-value shapes it
//! fills in and hands back, so that everything downstream of it can
//! be stated over ordinary fields.

use vstd::prelude::*;

verus! {

/// A detected repository: where it lies, what is checked out, and
/// whether the working tree is dirty.
pub struct GitRepoInfo {
    pub path: String,
    pub branch: Option<String>,
    pub remote_url: Option<String>,
    pub is_dirty: bool,
    pub head_commit: Option<String>,
}

/// The state of one file in the working tree or index.
pub struct GitFileStatus {
    pub path: String,
    pub status: String,
    pub is_staged: bool,
}

/// One commit of the history.
pub struct GitCommitInfo {
    pub id: String,
    pub short_id: String,
    pub message: String,
    pub author_name: String,
    pub author_email: String,
    pub timestamp: i64,
    pub parent_ids: Vec<String>,
    pub refs: Vec<String>,
}

/// One line of a unified diff.
pub struct DiffLine {
    pub line_type: String,
    pub old_line_no: Option<u32>,
    pub new_line_no: Option<u32>,
    pub content: String,
}

/// A whole structured diff of one file.
pub struct StructuredDiff {
    pub file_path: String,
    pub old_content: String,
    pub new_content: String,
    pub lines: Vec<DiffLine>,
    pub stats: DiffStats,
}

/// How many lines a diff adds and deletes.
pub struct DiffStats {
    pub additions: u32,
    pub deletions: u32,
}

/// One branch of the repository.
pub struct BranchInfo {
    pub name: String,
    pub is_head: bool,
    pub is_remote: bool,
}

/// One configured remote.
pub struct RemoteInfo {
    pub name: String,
    pub url: String,
}

/// One stash entry.
pub struct StashInfo {
    pub index: usize,
    pub message: String,
    pub commit_id: String,
}

/// The blame attribution of one line.
pub struct BlameInfo {
    pub line_number: usize,
    pub commit_id: String,
    pub short_id: String,
    pub author: String,
    pub timestamp: i64,
    pub line_content: String,
}

/// One tag, lightweight or annotated.
pub struct TagInfo {
    pub name: String,
    pub commit_id: String,
    pub message: Option<String>,
    pub tagger: Option<String>,
    pub timestamp: Option<i64>,
}

/// One conflicted path and the three object identifiers involved.
pub struct ConflictFile {
    pub path: String,
    pub ancestor_oid: Option<String>,
    pub our_oid: Option<String>,
    pub their_oid: Option<String>,
}

/// One row of a side-by-side diff view.
pub struct SideBySideLine {
    pub left_line_num: Option<usize>,
    pub right_line_num: Option<usize>,
    pub left_content: String,
    pub right_content: String,
    pub change_type: String,
}

/// Counts a diff's added and deleted lines from its line types; a
/// diff's stats are exactly these counts.
pub open spec fn diff_counts(lines: Seq<DiffLine>) -> (int, int)
    decreases lines.len(),
{
    if lines.len() == 0 {
        (0, 0)
    } else {
        let (a, d) = diff_counts(lines.drop_last());
        if lines.last().line_type@ == "add"@ {
            (a + 1, d)
        } else if lines.last().line_type@ == "delete"@ {
            (a + 1 - 1, d + 1)
        } else {
            (a, d)
        }
    }
}

/// Computes the statistics of a diff from its lines: one addition for
/// each `add` line, one deletion for each `delete` line.
pub fn diff_stats_of(lines: &Vec<DiffLine>) -> (r: DiffStats)
    requires
        lines@.len() < 0x1_0000_0000,
    ensures
        ({
            let (a, d) = diff_counts(lines@);
            r.additions == a && r.deletions == d
        }),
{
    let mut additions: u32 = 0;
    let mut deletions: u32 = 0;
    let mut i: usize = 0;
    while i < lines.len()
        invariant
            i <= lines@.len() < 0x1_0000_0000,
            ({
                let (a, d) = diff_counts(lines@.take(i as int));
                additions == a && deletions == d && a <= i && d <= i
            }),
        decreases lines@.len() - i,
    {
        proof {
            assert(lines@.take(i as int + 1).drop_last() =~= lines@.take(i as int));
        }
        if compare_str(&lines[i].line_type, &add_str()) {
            additions = additions + 1;
        } else if compare_str(&lines[i].line_type, &delete_str()) {
            deletions = deletions + 1;
        }
        i = i + 1;
    }
    proof {
        assert(lines@.take(lines@.len() as int) =~= lines@);
    }
    DiffStats { additions, deletions }
}

/// The line type marking an added line.
fn add_str() -> (r: String)
    ensures
        r@ == "add"@,
{
    "add".to_owned()
}

/// The line type marking a deleted line.
fn delete_str() -> (r: String)
    ensures
        r@ == "delete"@,
{
    "delete".to_owned()
}

/// String equality by view.
fn compare_str(a: &String, b: &String) -> (r: bool)
    ensures
        r == (a@ == b@),
{
    a.eq(b)
}

} // verus!
