//! The revision-graph adapter: the only place where the version-control
//! backend is called. Each call stands behind a trusted wrapper; what comes
//! back depends on the repository on disk, so the wrappers promise nothing
//! and the verified loader checks everything it builds into the graph.

use vstd::prelude::*;

use crate::bytes::clone_bytes;
use crate::bytes::bytes_eq;
use crate::bytes::ends_with;
use crate::graph::CommitNode;
use crate::graph::RevisionGraph;
use crate::report::ChangedVersions;
use crate::walker::assemble_report;
use crate::walker::assemble_spec;
use crate::walker::WalkConfig;
use crate::walker::WalkError;

verus! {

#[verifier::external_type_specification]
#[verifier::external_body]
pub struct ExRepository(git2::Repository);

#[verifier::external_type_specification]
#[verifier::external_body]
pub struct ExCommit<'a>(git2::Commit<'a>);

/// Relies on git2::Repository::tag_foreach: hands every tag's full ref name
/// to the callback; the callback here only copies the names out.
#[verifier::external_body]
fn tag_ref_names(repo: &git2::Repository) -> (r: Vec<Vec<u8>>) {
    let mut names: Vec<Vec<u8>> = Vec::new();
    let _ = repo.tag_foreach(|_, name| {
        names.push(name.to_vec());
        true
    });
    names
}

/// Relies on git2::Repository::revparse_single to look a ref name up, and on
/// git2::Object::as_tag / as_commit with git2::Tag::target_id to tell an
/// annotated tag from a lightweight one and reach the commit either way.
#[verifier::external_body]
fn peel_to_commit_id(repo: &git2::Repository, name: &Vec<u8>) -> (r: Option<Vec<u8>>) {
    let text = std::str::from_utf8(name).ok()?;
    let obj = repo.revparse_single(text).ok()?;
    if let Some(tag) = obj.as_tag() {
        return Some(tag.target_id().to_string().into_bytes());
    }
    if let Some(commit) = obj.as_commit() {
        return Some(commit.id().to_string().into_bytes());
    }
    None
}

/// Relies on git2::Repository::head and git2::Reference::target: the commit
/// the repository's head currently points to.
#[verifier::external_body]
fn head_commit_id(repo: &git2::Repository) -> (r: Option<Vec<u8>>) {
    let head = repo.head().ok()?;
    Some(head.target()?.to_string().into_bytes())
}

/// Relies on git2::Oid::from_str and git2::Repository::find_commit: looks a
/// commit up by its hex-rendered hash.
#[verifier::external_body]
fn lookup_commit<'a>(repo: &'a git2::Repository, id: &Vec<u8>) -> (r: Option<git2::Commit<'a>>) {
    let oid = git2::Oid::from_str(std::str::from_utf8(id).ok()?).ok()?;
    repo.find_commit(oid).ok()
}

/// Relies on git2::Commit::summary_bytes: the commit's one-line summary.
#[verifier::external_body]
fn summary_of(commit: &git2::Commit) -> (r: Option<Vec<u8>>) {
    Some(commit.summary_bytes()?.to_vec())
}

/// Relies on git2::Commit::parent_id: the commit's first parent, absent for
/// a root of history.
#[verifier::external_body]
fn first_parent_of(commit: &git2::Commit) -> (r: Option<Vec<u8>>) {
    Some(commit.parent_id(0).ok()?.to_string().into_bytes())
}

/// Relies on git2::Repository::diff_tree_to_tree between the parent's tree
/// and the commit's tree, and on git2::DiffFile::path_bytes: the pre-image
/// and post-image path of every changed entry, repetitions included.
#[verifier::external_body]
fn diff_paths(repo: &git2::Repository, commit: &git2::Commit, parent: &git2::Commit) -> (r: Option<
    Vec<Vec<u8>>,
>) {
    let diff = repo.diff_tree_to_tree(
        Some(&parent.tree().ok()?),
        Some(&commit.tree().ok()?),
        None,
    ).ok()?;
    let mut paths: Vec<Vec<u8>> = Vec::new();
    for delta in diff.deltas() {
        if let Some(p) = delta.old_file().path_bytes() {
            paths.push(p.to_vec());
        }
        if let Some(p) = delta.new_file().path_bytes() {
            paths.push(p.to_vec());
        }
    }
    Some(paths)
}

/// Resolves a version tag name against the repository: the first tag, in
/// the backend's stable enumeration order, whose full ref name ends with
/// `target_tag`, peeled to the commit it marks. Absence means no such tag.
pub fn sha_from_tag(repo: &git2::Repository, target_tag: &Vec<u8>) -> (r: Option<Vec<u8>>) {
    let names = tag_ref_names(repo);
    let mut t: usize = 0;
    while t < names.len()
        invariant
            t <= names@.len(),
        decreases names@.len() - t,
    {
        if ends_with(&names[t], target_tag) {
            return peel_to_commit_id(repo, &names[t]);
        }
        t += 1;
    }
    None
}

/// The index of the commit with this hash, if it was loaded.
fn find_hash(commits: &Vec<CommitNode>, id: &Vec<u8>) -> (r: Option<usize>)
    ensures
        r matches Some(i) ==> (i as int) < commits@.len(),
{
    let mut i: usize = 0;
    while i < commits.len()
        invariant
            i <= commits@.len(),
        decreases commits@.len() - i,
    {
        if bytes_eq(&commits[i].hash, id) {
            return Some(i);
        }
        i += 1;
    }
    None
}

/// Loads a read-only snapshot of the repository's first-parent mainline: at
/// most `max_commits` steps back from the head, each commit with its
/// summary, hash and diff against its first parent, plus every tag that
/// points into the loaded chain. Fails when the repository has no head or a
/// commit cannot be read.
pub fn load_repository_graph(repo: &git2::Repository, max_commits: usize) -> (r: Option<
    RevisionGraph,
>)
    ensures
        r matches Some(g) ==> g.wf() && g.tags@.len() < usize::MAX,
{
    let head = match head_commit_id(repo) {
        Some(h) => h,
        None => {
            return None;
        },
    };
    let mut chain: Vec<Vec<u8>> = Vec::new();
    chain.push(head);
    let mut steps: usize = 0;
    while steps < max_commits
        invariant
            chain@.len() == steps + 1,
        decreases max_commits - steps,
    {
        let cur = match lookup_commit(repo, &chain[chain.len() - 1]) {
            Some(c) => c,
            None => {
                return None;
            },
        };
        let next = first_parent_of(&cur);
        match next {
            Some(p) => {
                chain.push(p);
            },
            None => {
                break ;
            },
        }
        steps += 1;
    }
    let n = chain.len();
    let mut commits: Vec<CommitNode> = Vec::new();
    let mut i: usize = 0;
    while i < n
        invariant
            n == chain@.len(),
            1 <= n,
            i <= n,
            commits@.len() == i,
            forall|j: int|
                0 <= j < i ==> match #[trigger] commits@[j].parent {
                    Some(p) => (p as int) < j,
                    None => commits@[j].changed_paths@.len() == 0,
                },
        decreases n - i,
    {
        let id = clone_bytes(&chain[n - 1 - i]);
        let commit = match lookup_commit(repo, &id) {
            Some(c) => c,
            None => {
                return None;
            },
        };
        let summary = match summary_of(&commit) {
            Some(s) => s,
            None => {
                return None;
            },
        };
        let parent: Option<usize> = if i == 0 {
            None
        } else {
            Some(i - 1)
        };
        let changed_paths: Vec<Vec<u8>> = if i == 0 {
            Vec::new()
        } else {
            let parent_commit = match lookup_commit(repo, &chain[n - i]) {
                Some(c) => c,
                None => {
                    return None;
                },
            };
            match diff_paths(repo, &commit, &parent_commit) {
                Some(v) => v,
                None => {
                    return None;
                },
            }
        };
        commits.push(CommitNode { hash: id, summary, parent, changed_paths });
        i += 1;
    }
    let names = tag_ref_names(repo);
    let mut tags: Vec<(Vec<u8>, usize)> = Vec::new();
    let mut t: usize = 0;
    while t < names.len()
        invariant
            t <= names@.len(),
            forall|j: int| 0 <= j < tags@.len() ==> ((#[trigger] tags@[j]).1 as int)
                < commits@.len(),
        decreases names@.len() - t,
    {
        let peeled = peel_to_commit_id(repo, &names[t]);
        if let Some(cid) = peeled {
            if let Some(idx) = find_hash(&commits, &cid) {
                tags.push((clone_bytes(&names[t]), idx));
            }
        }
        t += 1;
    }
    if tags.len() == usize::MAX {
        return None;
    }
    let tip = n - 1;
    let g = RevisionGraph { commits, tags, tip };
    Some(g)
}

/// Rebuilds the changelog of every configured minor version line against
/// the repository as it stands: the graph is loaded once and the report
/// assembled from it, so the result is exactly the assembly of some
/// well-formed graph snapshot. Fails only when the graph cannot be loaded.
pub fn changed_crates_on_repo(repo: &git2::Repository, cfg: &WalkConfig, max_commits: usize) -> (r:
    Option<(ChangedVersions, Vec<(usize, WalkError)>)>)
    requires
        forall|i: int|
            0 <= i < cfg.minor_versions@.len() ==> (#[trigger] cfg.minor_versions@[i]) < usize::MAX,
    ensures
        r matches Some(pair) ==> exists|g: RevisionGraph|
            g.wf() && pair.0@ == (#[trigger] assemble_spec(
                g,
                cfg.version_prefix@,
                cfg.package_root@,
                cfg.minor_versions@,
            )).0 && pair.1@ == assemble_spec(
                g,
                cfg.version_prefix@,
                cfg.package_root@,
                cfg.minor_versions@,
            ).1,
{
    let g = match load_repository_graph(repo, max_commits) {
        Some(g) => g,
        None => {
            return None;
        },
    };
    let pair = assemble_report(&g, cfg);
    proof {
        assert(g.wf() && pair.0@ == assemble_spec(
            g,
            cfg.version_prefix@,
            cfg.package_root@,
            cfg.minor_versions@,
        ).0 && pair.1@ == assemble_spec(
            g,
            cfg.version_prefix@,
            cfg.package_root@,
            cfg.minor_versions@,
        ).1);
    }
    Some(pair)
}

} // verus!
