//! Drives the patch-probing loop across a minor version line and folds the
//! collected ranges into the nested report.
//!
//! For each patch number in turn the walker resolves the patch's own tag,
//! looks ahead for the next patch's tag, and either emits a published patch
//! report, closes the line when the next minor version's first tag exists,
//! or emits the terminal in-flight patch bounded by the repository tip.

use vstd::prelude::*;

use crate::bytes::clone_bytes;
use crate::bytes::dec_digits;
use crate::bytes::format_dec;
use crate::graph::changed_files_spec;
use crate::graph::lemma_range_shape;
use crate::graph::lemma_resolve_in_bounds;
use crate::graph::range_spec;
use crate::graph::resolve_spec;
use crate::graph::RangeError;
use crate::graph::RevisionGraph;
use crate::packages::packages_spec;
use crate::pr_id::extract_pr_id;
use crate::pr_id::extract_pr_id_spec;
use crate::report::ChangedVersions;
use crate::report::MinorVersionChanged;
use crate::report::MinorVersionChangedView;
use crate::report::PatchVersionChanged;
use crate::report::PatchVersionChangedView;
use crate::report::Pr;
use crate::report::PrCommit;
use crate::report::PrCommitView;

verus! {

/// Explicit configuration of a reconstruction run, in place of hard-coded
/// repository-wide constants.
pub struct WalkConfig {
    /// Directory under which the project's packages live, e.g. `packages`.
    pub package_root: Vec<u8>,
    /// Text put before `<minor>.<patch>` to form a tag name, e.g. `v0.`.
    pub version_prefix: Vec<u8>,
    /// The minor version lines to reconstruct, each probed independently.
    pub minor_versions: Vec<usize>,
}

/// The tag name probed for one patch of one minor line.
pub open spec fn tag_name_spec(prefix: Seq<u8>, minor: usize, patch: usize) -> Seq<u8> {
    prefix + dec_digits(minor as nat) + seq![46u8] + dec_digits(patch as nat)
}

pub fn format_tag(prefix: &Vec<u8>, minor: usize, patch: usize) -> (r: Vec<u8>)
    ensures
        r@ == tag_name_spec(prefix@, minor, patch),
{
    let mut r = clone_bytes(prefix);
    let mut m = format_dec(minor);
    r.append(&mut m);
    r.push(46);
    let mut p = format_dec(patch);
    r.append(&mut p);
    proof {
        assert(r@ =~= tag_name_spec(prefix@, minor, patch));
    }
    r
}

/// The report entry of one commit: summary, extracted pull-request number,
/// touched packages, hash, and its position from the oldest commit.
pub open spec fn pr_commit_spec(
    g: RevisionGraph,
    idx: usize,
    head_index: usize,
    root: Seq<u8>,
) -> PrCommitView {
    PrCommitView {
        summary: g.commits@[idx as int].summary@,
        id: match extract_pr_id_spec(g.commits@[idx as int].summary@) {
            Some(n) => Some(n as usize),
            None => None,
        },
        changed_packages: packages_spec(changed_files_spec(g, idx as int), root),
        commit_hash: g.commits@[idx as int].hash@,
        head_index: head_index,
    }
}

/// The commits of a collected range, oldest first, numbered from 0.
pub open spec fn commits_spec(g: RevisionGraph, range: Seq<usize>, root: Seq<u8>) -> Seq<
    PrCommitView,
> {
    Seq::new(range.len(), |k: int| pr_commit_spec(g, range[range.len() - 1 - k], k as usize, root))
}

/// Within one patch report, head indices run 0, 1, ... over the commits,
/// oldest first: they form the contiguous range `[0, len - 1]` with no
/// duplicates.
pub proof fn lemma_head_indices_contiguous(g: RevisionGraph, range: Seq<usize>, root: Seq<u8>)
    requires
        range.len() <= usize::MAX,
    ensures
        forall|k: int|
            0 <= k < commits_spec(g, range, root).len() ==> (#[trigger] commits_spec(
                g,
                range,
                root,
            )[k]).head_index == k,
        forall|k: int, l: int|
            0 <= k < l < commits_spec(g, range, root).len() ==> commits_spec(g, range, root)[k].head_index
                != commits_spec(g, range, root)[l].head_index,
{
    assert forall|k: int| 0 <= k < commits_spec(g, range, root).len() implies (
    #[trigger] commits_spec(g, range, root)[k]).head_index == k by {
        assert(commits_spec(g, range, root)[k].head_index == k as usize);
    }
}

/// Turns a collected range into report entries: reverses the walk to oldest
/// first and numbers the commits from 0.
pub fn collect_pr_between(
    g: &RevisionGraph,
    end_id: usize,
    start_id: usize,
    package_root: &Vec<u8>,
) -> (r: Result<Vec<PrCommit>, RangeError>)
    requires
        g.wf(),
        (end_id as int) < g.commits@.len(),
    ensures
        r matches Ok(v) ==> range_spec(*g, end_id, start_id) is Some && v.deep_view()
            == commits_spec(*g, range_spec(*g, end_id, start_id).unwrap(), package_root@),
        r is Err <==> range_spec(*g, end_id, start_id) is None,
{
    let range = match g.collect_range(end_id, start_id) {
        Ok(v) => v,
        Err(e) => {
            return Err(e);
        },
    };
    proof {
        lemma_range_shape(*g, end_id, start_id);
        assert forall|i: int| 0 <= i < range@.len() implies (range@[i] as int)
            < g.commits@.len() by {
            if i > 0 {
                assert(range@[0] > range@[i]);
            }
        }
    }
    let mut out: Vec<PrCommit> = Vec::new();
    let mut k: usize = 0;
    let ghost full = commits_spec(*g, range@, package_root@);
    while k < range.len()
        invariant
            g.wf(),
            k <= range@.len(),
            forall|i: int| 0 <= i < range@.len() ==> (range@[i] as int) < g.commits@.len(),
            full == commits_spec(*g, range@, package_root@),
            out.deep_view() == full.take(k as int),
        decreases range@.len() - k,
    {
        let idx = range[range.len() - 1 - k];
        let summary = clone_bytes(&g.commits[idx].summary);
        let id = extract_pr_id(&g.commits[idx].summary);
        let files = g.changed_files(idx);
        let pr = Pr { summary, id, changed_files: files, idx: k, hash: clone_bytes(
            &g.commits[idx].hash,
        ) };
        let pkgs = pr.changed_packages(package_root);
        let entry = PrCommit {
            summary: pr.summary,
            id: pr.id,
            changed_packages: pkgs,
            commit_hash: pr.hash,
            head_index: pr.idx,
        };
        proof {
            let ki = k as int;
            assert(entry@.id == pr_commit_spec(*g, range@[range@.len() - 1 - ki], k, package_root@).id)
                by {
                match id {
                    Some(v) => {
                        assert(extract_pr_id_spec(g.commits@[idx as int].summary@) == Some(
                            v as nat,
                        ));
                    },
                    None => {},
                }
            }
            assert(entry@ =~= pr_commit_spec(*g, range@[range@.len() - 1 - ki], k, package_root@));
        }
        let ghost prev = out.deep_view();
        out.push(entry);
        proof {
            assert(out.deep_view() =~= prev.push(entry@));
            assert(out.deep_view() =~= full.take(k + 1)) by {
                assert(full[k as int] == pr_commit_spec(
                    *g,
                    range@[range@.len() - 1 - k],
                    k,
                    package_root@,
                ));
            }
        }
        k += 1;
    }
    proof {
        assert(full.take(k as int) =~= full);
    }
    Ok(out)
}

/// How the probing of one minor line ended.
#[derive(Clone, Copy, Debug, PartialEq, Eq, Structural)]
pub enum MinorStatus {
    /// The first patch tag of the line does not exist: the line never
    /// started, as opposed to being fully released.
    NeverStarted,
    /// A tag for the next minor version exists: the line is closed and no
    /// in-flight tail is emitted.
    Closed,
    /// The terminal patch is in flight: bounded by the repository tip, not
    /// by a release tag.
    Open,
}

/// Failure of one minor line's walk; the other lines are unaffected.
#[derive(Clone, Copy, Debug, PartialEq, Eq, Structural)]
pub enum WalkError {
    /// The patch's lower tag is not a first-parent ancestor of its upper
    /// bound.
    RangeNotReachable { patch: usize },
}

/// One probing step of the walker, continued recursively: resolve the
/// patch's own tag, look ahead for the next patch's tag, and emit a
/// published report, close the line, or emit the in-flight tail.
pub open spec fn walk_spec(
    g: RevisionGraph,
    prefix: Seq<u8>,
    root: Seq<u8>,
    minor: usize,
    patch: usize,
    fuel: nat,
) -> Result<(Seq<PatchVersionChangedView>, MinorStatus), WalkError>
    decreases fuel,
{
    if fuel == 0 {
        Ok((Seq::empty(), MinorStatus::Closed))
    } else {
        match resolve_spec(g, tag_name_spec(prefix, minor, patch)) {
            None => Ok(
                (
                    Seq::empty(),
                    if patch == 0 {
                        MinorStatus::NeverStarted
                    } else {
                        MinorStatus::Closed
                    },
                ),
            ),
            Some(start_idx) => match resolve_spec(
                g,
                tag_name_spec(prefix, minor, ((patch + 1) as usize)),
            ) {
                Some(end_idx) => match range_spec(g, end_idx, start_idx) {
                    None => Err(WalkError::RangeNotReachable { patch }),
                    Some(rng) => match walk_spec(
                        g,
                        prefix,
                        root,
                        minor,
                        ((patch + 1) as usize),
                        (fuel - 1) as nat,
                    ) {
                        Ok(pair) => Ok(
                            (
                                seq![
                                    PatchVersionChangedView {
                                        version: patch,
                                        published: true,
                                        commits: commits_spec(g, rng, root),
                                    },
                                ] + pair.0,
                                pair.1,
                            ),
                        ),
                        Err(e) => Err(e),
                    },
                },
                None => match resolve_spec(g, tag_name_spec(prefix, ((minor + 1) as usize), 0)) {
                    Some(_) => Ok((Seq::empty(), MinorStatus::Closed)),
                    None => match range_spec(g, g.tip, start_idx) {
                        None => Err(WalkError::RangeNotReachable { patch }),
                        Some(rng) => Ok(
                            (
                                seq![
                                    PatchVersionChangedView {
                                        version: patch,
                                        published: false,
                                        commits: commits_spec(g, rng, root),
                                    },
                                ],
                                MinorStatus::Open,
                            ),
                        ),
                    },
                },
            },
        }
    }
}

/// Patch reports of one minor line carry ascending, consecutive patch
/// numbers: probing from `patch`, the k-th emitted report is for patch
/// `patch + k`.
pub proof fn lemma_patches_ascending(
    g: RevisionGraph,
    prefix: Seq<u8>,
    root: Seq<u8>,
    minor: usize,
    patch: usize,
    fuel: nat,
)
    requires
        patch + fuel <= usize::MAX,
        walk_spec(g, prefix, root, minor, patch, fuel) is Ok,
    ensures
        forall|k: int|
            0 <= k < walk_spec(g, prefix, root, minor, patch, fuel).unwrap().0.len()
                ==> (#[trigger] walk_spec(g, prefix, root, minor, patch, fuel).unwrap().0[k]).version
                == patch + k,
    decreases fuel,
{
    if fuel > 0 {
        match resolve_spec(g, tag_name_spec(prefix, minor, patch)) {
            None => {},
            Some(start_idx) => {
                match resolve_spec(g, tag_name_spec(prefix, minor, ((patch + 1) as usize))) {
                    Some(end_idx) => {
                        if range_spec(g, end_idx, start_idx) is Some {
                            lemma_patches_ascending(
                                g,
                                prefix,
                                root,
                                minor,
                                ((patch + 1) as usize),
                                (fuel - 1) as nat,
                            );
                        }
                    },
                    None => {},
                }
            },
        }
    }
}

/// Within one minor line's report, the k-th patch report is for patch k:
/// the probing starts at 0 and ascends one by one.
pub proof fn lemma_minor_patches_numbered(
    g: RevisionGraph,
    prefix: Seq<u8>,
    root: Seq<u8>,
    minor: usize,
)
    requires
        g.tags@.len() < usize::MAX,
        minor_walk_spec(g, prefix, root, minor) is Ok,
    ensures
        forall|k: int|
            0 <= k < minor_walk_spec(g, prefix, root, minor).unwrap().0.len() ==> (
            #[trigger] minor_walk_spec(g, prefix, root, minor).unwrap().0[k]).version == k,
{
    lemma_patches_ascending(g, prefix, root, minor, 0, (g.tags@.len() + 1) as nat);
}

/// Patches already emitted, put before whatever the remaining probes yield.
pub open spec fn walk_compose(
    before: Seq<PatchVersionChangedView>,
    r: Result<(Seq<PatchVersionChangedView>, MinorStatus), WalkError>,
) -> Result<(Seq<PatchVersionChangedView>, MinorStatus), WalkError> {
    match r {
        Ok(pair) => Ok((before + pair.0, pair.1)),
        Err(e) => Err(e),
    }
}

/// What the whole walk of one minor line yields: probing from patch 0 with
/// enough fuel that it can only run out after every tag has answered a
/// probe.
pub open spec fn minor_walk_spec(
    g: RevisionGraph,
    prefix: Seq<u8>,
    root: Seq<u8>,
    minor: usize,
) -> Result<(Seq<PatchVersionChangedView>, MinorStatus), WalkError> {
    walk_spec(g, prefix, root, minor, 0, (g.tags@.len() + 1) as nat)
}

/// Walks all the tags of one minor version line and collects the report of
/// each patch release: patch tags are probed in increasing order; each patch
/// bounded by the following tag is published, and work past the last tag is
/// the in-flight tail unless the next minor version's first tag closes the
/// line. A missing tag at the very first probe reports a line that never
/// started. A range failure aborts this minor line alone.
pub fn collect_prs_for_minor_version(g: &RevisionGraph, minor: usize, cfg: &WalkConfig) -> (r:
    Result<(MinorVersionChanged, MinorStatus), WalkError>)
    requires
        g.wf(),
        minor < usize::MAX,
        g.tags@.len() < usize::MAX,
    ensures
        r matches Ok(p) ==> minor_walk_spec(*g, cfg.version_prefix@, cfg.package_root@, minor)
            matches Ok(q) && p.0@.version == minor && p.0@.patch_versions == q.0 && p.1 == q.1,
        r matches Err(e) ==> minor_walk_spec(*g, cfg.version_prefix@, cfg.package_root@, minor)
            == Err::<(Seq<PatchVersionChangedView>, MinorStatus), WalkError>(e),
{
    let ghost prefix = cfg.version_prefix@;
    let ghost root = cfg.package_root@;
    let ghost goal = minor_walk_spec(*g, prefix, root, minor);
    let bound: usize = g.tags.len() + 1;
    let mut patches: Vec<PatchVersionChanged> = Vec::new();
    let mut patch: usize = 0;
    while patch < bound
        invariant
            g.wf(),
            minor < usize::MAX,
            g.tags@.len() < usize::MAX,
            bound == g.tags@.len() + 1,
            patch <= bound,
            prefix == cfg.version_prefix@,
            root == cfg.package_root@,
            goal == minor_walk_spec(*g, prefix, root, minor),
            goal == walk_compose(
                patches.deep_view(),
                walk_spec(*g, prefix, root, minor, patch, (bound - patch) as nat),
            ),
        decreases bound - patch,
    {
        let ghost step = walk_spec(*g, prefix, root, minor, patch, (bound - patch) as nat);
        let tname = format_tag(&cfg.version_prefix, minor, patch);
        let start_idx = match g.resolve_tag(&tname) {
            None => {
                let status = if patch == 0 {
                    MinorStatus::NeverStarted
                } else {
                    MinorStatus::Closed
                };
                proof {
                    assert(patches.deep_view() + Seq::<PatchVersionChangedView>::empty()
                        =~= patches.deep_view());
                }
                return Ok((MinorVersionChanged { version: minor, patch_versions: patches }, status));
            },
            Some(s) => s,
        };
        proof {
            lemma_resolve_in_bounds(*g, tag_name_spec(prefix, minor, patch), 0);
        }
        let next_name = format_tag(&cfg.version_prefix, minor, patch + 1);
        match g.resolve_tag(&next_name) {
            Some(end_idx) => {
                proof {
                    lemma_resolve_in_bounds(*g, tag_name_spec(prefix, minor, (patch + 1) as usize), 0);
                }
                match collect_pr_between(g, end_idx, start_idx, &cfg.package_root) {
                    Err(_) => {
                        return Err(WalkError::RangeNotReachable { patch });
                    },
                    Ok(commits) => {
                        let entry = PatchVersionChanged { version: patch, published: true, commits };
                        let ghost prev = patches.deep_view();
                        let ghost rng = range_spec(*g, end_idx, start_idx).unwrap();
                        proof {
                            assert(entry@ =~= PatchVersionChangedView {
                                version: patch,
                                published: true,
                                commits: commits_spec(*g, rng, root),
                            });
                        }
                        patches.push(entry);
                        proof {
                            assert(patches.deep_view() =~= prev.push(entry@));
                            let rest = walk_spec(
                                *g,
                                prefix,
                                root,
                                minor,
                                (patch + 1) as usize,
                                (bound - (patch + 1)) as nat,
                            );
                            match rest {
                                Ok(pair) => {
                                    assert(prev + (seq![entry@] + pair.0) =~= prev.push(entry@)
                                        + pair.0);
                                },
                                Err(_) => {},
                            }
                        }
                        patch += 1;
                    },
                }
            },
            None => {
                let next_minor_name = format_tag(&cfg.version_prefix, minor + 1, 0);
                match g.resolve_tag(&next_minor_name) {
                    Some(_) => {
                        proof {
                            assert(patches.deep_view() + Seq::<PatchVersionChangedView>::empty()
                                =~= patches.deep_view());
                        }
                        return Ok(
                            (
                                MinorVersionChanged { version: minor, patch_versions: patches },
                                MinorStatus::Closed,
                            ),
                        );
                    },
                    None => {
                        match collect_pr_between(g, g.tip, start_idx, &cfg.package_root) {
                            Err(_) => {
                                return Err(WalkError::RangeNotReachable { patch });
                            },
                            Ok(commits) => {
                                let entry = PatchVersionChanged {
                                    version: patch,
                                    published: false,
                                    commits,
                                };
                                let ghost prev = patches.deep_view();
                                let ghost rng = range_spec(*g, g.tip, start_idx).unwrap();
                                proof {
                                    assert(entry@ =~= PatchVersionChangedView {
                                        version: patch,
                                        published: false,
                                        commits: commits_spec(*g, rng, root),
                                    });
                                }
                                patches.push(entry);
                                proof {
                                    assert(patches.deep_view() =~= prev.push(entry@));
                                    assert(prev + seq![entry@] =~= prev.push(entry@));
                                }
                                return Ok(
                                    (
                                        MinorVersionChanged {
                                            version: minor,
                                            patch_versions: patches,
                                        },
                                        MinorStatus::Open,
                                    ),
                                );
                            },
                        }
                    },
                }
            },
        }
    }
    proof {
        assert(patches.deep_view() + Seq::<PatchVersionChangedView>::empty()
            =~= patches.deep_view());
    }
    Ok((MinorVersionChanged { version: minor, patch_versions: patches }, MinorStatus::Closed))
}

/// The report entries and the diagnostics that walking each minor line in
/// turn yields: a line that walks successfully contributes its report; a
/// line whose walk fails contributes a diagnostic and nothing else.
pub open spec fn assemble_spec(
    g: RevisionGraph,
    prefix: Seq<u8>,
    root: Seq<u8>,
    minors: Seq<usize>,
) -> (Seq<(usize, MinorVersionChangedView)>, Seq<(usize, WalkError)>)
    decreases minors.len(),
{
    if minors.len() == 0 {
        (Seq::empty(), Seq::empty())
    } else {
        let prior = assemble_spec(g, prefix, root, minors.drop_last());
        let m = minors.last();
        match minor_walk_spec(g, prefix, root, m) {
            Ok(pair) => (
                prior.0.push((m, MinorVersionChangedView { version: m, patch_versions: pair.0 })),
                prior.1,
            ),
            Err(e) => (prior.0, prior.1.push((m, e))),
        }
    }
}

/// Rebuilds the whole report: every configured minor version line is walked
/// independently; a failed line is absent from the report and recorded in
/// the returned diagnostics instead of aborting the others.
pub fn assemble_report(g: &RevisionGraph, cfg: &WalkConfig) -> (r: (
    ChangedVersions,
    Vec<(usize, WalkError)>,
))
    requires
        g.wf(),
        g.tags@.len() < usize::MAX,
        forall|i: int|
            0 <= i < cfg.minor_versions@.len() ==> (#[trigger] cfg.minor_versions@[i]) < usize::MAX,
    ensures
        r.0@ == assemble_spec(*g, cfg.version_prefix@, cfg.package_root@, cfg.minor_versions@).0,
        r.1@ == assemble_spec(*g, cfg.version_prefix@, cfg.package_root@, cfg.minor_versions@).1,
{
    let ghost prefix = cfg.version_prefix@;
    let ghost root = cfg.package_root@;
    let mut reports: Vec<(usize, MinorVersionChanged)> = Vec::new();
    let mut diags: Vec<(usize, WalkError)> = Vec::new();
    let mut i: usize = 0;
    while i < cfg.minor_versions.len()
        invariant
            g.wf(),
            g.tags@.len() < usize::MAX,
            forall|j: int|
                0 <= j < cfg.minor_versions@.len() ==> (#[trigger] cfg.minor_versions@[j])
                    < usize::MAX,
            i <= cfg.minor_versions@.len(),
            prefix == cfg.version_prefix@,
            root == cfg.package_root@,
            reports.deep_view() == assemble_spec(
                *g,
                prefix,
                root,
                cfg.minor_versions@.take(i as int),
            ).0,
            diags@ == assemble_spec(*g, prefix, root, cfg.minor_versions@.take(i as int)).1,
        decreases cfg.minor_versions@.len() - i,
    {
        let m = cfg.minor_versions[i];
        proof {
            assert(cfg.minor_versions@.take(i + 1).drop_last() =~= cfg.minor_versions@.take(
                i as int,
            ));
            assert(cfg.minor_versions@.take(i + 1).last() == cfg.minor_versions@[i as int]);
        }
        match collect_prs_for_minor_version(g, m, cfg) {
            Ok(p) => {
                let ghost prev = reports.deep_view();
                let ghost pair = minor_walk_spec(*g, prefix, root, m).unwrap();
                let entry = (m, p.0);
                proof {
                    assert(entry.deep_view() =~= (
                        m,
                        MinorVersionChangedView { version: m, patch_versions: pair.0 },
                    ));
                }
                reports.push(entry);
                proof {
                    assert(reports.deep_view() =~= prev.push(
                        (m, MinorVersionChangedView { version: m, patch_versions: pair.0 }),
                    ));
                }
            },
            Err(e) => {
                diags.push((m, e));
            },
        }
        i += 1;
    }
    proof {
        assert(cfg.minor_versions@.take(i as int) =~= cfg.minor_versions@);
    }
    (ChangedVersions { version: reports }, diags)
}

/// Reconstructing the same ranges twice against an unmodified graph is
/// deterministic: the assembled report and diagnostics are a function of
/// the graph and the configuration alone, so two reconstructions agree
/// exactly, entry for entry.
pub proof fn lemma_reconstruction_deterministic(
    g: RevisionGraph,
    prefix: Seq<u8>,
    root: Seq<u8>,
    minors: Seq<usize>,
    a: (Seq<(usize, MinorVersionChangedView)>, Seq<(usize, WalkError)>),
    b: (Seq<(usize, MinorVersionChangedView)>, Seq<(usize, WalkError)>),
)
    requires
        a == assemble_spec(g, prefix, root, minors),
        b == assemble_spec(g, prefix, root, minors),
    ensures
        a == b,
{
}

} // verus!
