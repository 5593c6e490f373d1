//! The assembled changelog data model: for each minor release line, its
//! patch releases, and for each patch release the commits that landed in it.

use vstd::prelude::*;

use crate::packages::map_changed_packages;
use crate::packages::crate_paths;
use crate::packages::packages_spec;
use crate::bytes::clone_bytes;
use crate::bytes::lemma_deep_view_elem;

verus! {

/// One commit of a collected range, before assembly into a `PrCommit`.
#[derive(Debug, Clone, PartialEq, Eq)]
pub struct Pr {
    /// The commit's one-line summary.
    pub summary: Vec<u8>,
    /// The `#id` of the originating pull request, if the summary names one.
    pub id: Option<usize>,
    /// Every file path the commit's diff touches.
    pub changed_files: Vec<Vec<u8>>,
    /// Position of the commit counted from the oldest commit of the range.
    pub idx: usize,
    /// The commit's hash, rendered in hexadecimal.
    pub hash: Vec<u8>,
}

impl Pr {
    /// The changed paths that lie under the package root.
    pub fn changed_crates(&self, package_root: &Vec<u8>) -> (r: Vec<Vec<u8>>)
        ensures
            r.deep_view() == crate_paths(self.changed_files.deep_view(), package_root@),
    {
        let mut out: Vec<Vec<u8>> = Vec::new();
        let mut i: usize = 0;
        while i < self.changed_files.len()
            invariant
                i <= self.changed_files@.len(),
                out.deep_view() == crate_paths(
                    self.changed_files.deep_view().take(i as int),
                    package_root@,
                ),
            decreases self.changed_files@.len() - i,
        {
            proof {
                assert(self.changed_files.deep_view().take(i + 1).drop_last()
                    =~= self.changed_files.deep_view().take(i as int));
                assert(self.changed_files.deep_view().take(i + 1).last()
                    == self.changed_files.deep_view()[i as int]);
                lemma_deep_view_elem(self.changed_files, i as int);
            }
            let keep = crate::bytes::has_prefix(&self.changed_files[i], package_root);
            let is_under: bool = if keep {
                self.changed_files[i].len() == package_root.len() || self.changed_files[i][package_root.len()]
                    == 47
            } else {
                false
            };
            if is_under {
                let ghost prev = out.deep_view();
                let x = clone_bytes(&self.changed_files[i]);
                out.push(x);
                proof {
                    assert(out.deep_view() =~= prev.push(
                        self.changed_files.deep_view()[i as int],
                    )) by {
                        assert forall|k: int| 0 <= k < out.deep_view().len() implies out.deep_view()[k]
                            == prev.push(self.changed_files.deep_view()[i as int])[k] by {
                            if k == prev.len() {
                                assert(out@[k].deep_view() =~= out@[k]@);
                            }
                        }
                    }
                    assert(out.deep_view() =~= crate_paths(
                        self.changed_files.deep_view().take(i + 1),
                        package_root@,
                    ));
                }
            } else {
                proof {
                    assert(out.deep_view() =~= crate_paths(
                        self.changed_files.deep_view().take(i + 1),
                        package_root@,
                    ));
                }
            }
            i += 1;
        }
        proof {
            assert(self.changed_files.deep_view().take(i as int)
                =~= self.changed_files.deep_view());
        }
        out
    }

    /// The distinct top-level packages the commit touches: the component
    /// after the package root of each changed path, each name once.
    pub fn changed_packages(&self, package_root: &Vec<u8>) -> (r: Vec<Vec<u8>>)
        ensures
            r.deep_view() == packages_spec(self.changed_files.deep_view(), package_root@),
    {
        map_changed_packages(&self.changed_files, package_root)
    }
}

/// One commit inside a patch release.
#[derive(Debug, Clone, PartialEq, Eq)]
pub struct PrCommit {
    /// The commit's one-line summary.
    pub summary: Vec<u8>,
    /// The `#id` of the originating pull request, if the summary names one;
    /// a commit pushed without a pull request carries none.
    pub id: Option<usize>,
    /// The distinct top-level packages the commit's diff touches.
    pub changed_packages: Vec<Vec<u8>>,
    /// The commit's hash, rendered in hexadecimal.
    pub commit_hash: Vec<u8>,
    /// Position of this commit counted from the oldest commit of the range:
    /// the oldest is 0, strictly increasing along first-parent order.
    pub head_index: usize,
}

#[verifier::ext_equal]
pub struct PrCommitView {
    pub summary: Seq<u8>,
    pub id: Option<usize>,
    pub changed_packages: Seq<Seq<u8>>,
    pub commit_hash: Seq<u8>,
    pub head_index: usize,
}

impl View for PrCommit {
    type V = PrCommitView;

    open spec fn view(&self) -> PrCommitView {
        PrCommitView {
            summary: self.summary@,
            id: self.id,
            changed_packages: self.changed_packages.deep_view(),
            commit_hash: self.commit_hash@,
            head_index: self.head_index,
        }
    }
}

impl DeepView for PrCommit {
    type V = PrCommitView;

    open spec fn deep_view(&self) -> PrCommitView {
        self.view()
    }
}

/// One patch release of a minor line.
#[derive(Debug, Clone, PartialEq, Eq)]
pub struct PatchVersionChanged {
    /// The patch number.
    pub version: usize,
    /// True exactly when a tag for the next patch (or the next minor's
    /// first patch) bounded the range; false for the in-flight tail.
    pub published: bool,
    /// The commits of the range, oldest first.
    pub commits: Vec<PrCommit>,
}

/// Every package name any commit of the list contributes, in order, with
/// repetitions.
pub open spec fn all_packages(commits: Seq<PrCommitView>) -> Seq<Seq<u8>>
    decreases commits.len(),
{
    if commits.len() == 0 {
        Seq::empty()
    } else {
        all_packages(commits.drop_last()) + commits.last().changed_packages
    }
}

impl PatchVersionChanged {
    /// The distinct packages touched anywhere in this patch release, in
    /// order of first contribution across its commits.
    pub fn changed_packages(&self) -> (r: Vec<Vec<u8>>)
        ensures
            r.deep_view() == crate::bytes::dedup_spec(all_packages(self@.commits)),
    {
        let mut flat: Vec<Vec<u8>> = Vec::new();
        let mut i: usize = 0;
        while i < self.commits.len()
            invariant
                i <= self.commits@.len(),
                flat.deep_view() == all_packages(self.commits.deep_view().take(i as int)),
            decreases self.commits@.len() - i,
        {
            proof {
                assert(self.commits.deep_view().take(i + 1).drop_last()
                    =~= self.commits.deep_view().take(i as int));
                assert(self.commits.deep_view().take(i + 1).last()
                    == self.commits.deep_view()[i as int]);
            }
            let ghost before = flat.deep_view();
            let ghost commit_pkgs = self.commits@[i as int].changed_packages.deep_view();
            let mut j: usize = 0;
            while j < self.commits[i].changed_packages.len()
                invariant
                    i < self.commits@.len(),
                    j <= self.commits@[i as int].changed_packages@.len(),
                    commit_pkgs == self.commits@[i as int].changed_packages.deep_view(),
                    flat.deep_view() == before + commit_pkgs.take(j as int),
                decreases self.commits@[i as int].changed_packages@.len() - j,
            {
                let ghost prev = flat.deep_view();
                let x = clone_bytes(&self.commits[i].changed_packages[j]);
                flat.push(x);
                proof {
                    lemma_deep_view_elem(self.commits@[i as int].changed_packages, j as int);
                    assert(flat.deep_view() =~= prev.push(commit_pkgs[j as int])) by {
                        assert forall|k: int| 0 <= k < flat.deep_view().len() implies flat.deep_view()[k]
                            == prev.push(commit_pkgs[j as int])[k] by {
                            if k == prev.len() {
                                assert(flat@[k].deep_view() =~= flat@[k]@);
                            }
                        }
                    }
                    assert(prev.push(commit_pkgs[j as int]) =~= before + commit_pkgs.take(j + 1));
                }
                j += 1;
            }
            proof {
                assert(commit_pkgs.take(j as int) =~= commit_pkgs);
                assert(self.commits.deep_view()[i as int].changed_packages == commit_pkgs);
                assert(flat.deep_view() =~= all_packages(
                    self.commits.deep_view().take(i + 1),
                ));
            }
            i += 1;
        }
        proof {
            assert(self.commits.deep_view().take(i as int) =~= self.commits.deep_view());
        }
        crate::bytes::dedup_bytes(&flat)
    }
}

#[verifier::ext_equal]
pub struct PatchVersionChangedView {
    pub version: usize,
    pub published: bool,
    pub commits: Seq<PrCommitView>,
}

impl View for PatchVersionChanged {
    type V = PatchVersionChangedView;

    open spec fn view(&self) -> PatchVersionChangedView {
        PatchVersionChangedView {
            version: self.version,
            published: self.published,
            commits: self.commits.deep_view(),
        }
    }
}

impl DeepView for PatchVersionChanged {
    type V = PatchVersionChangedView;

    open spec fn deep_view(&self) -> PatchVersionChangedView {
        self.view()
    }
}

/// Every patch release discovered for one minor version line.
#[derive(Debug, Clone, PartialEq, Eq)]
pub struct MinorVersionChanged {
    /// The minor number.
    pub version: usize,
    /// The patch releases, ascending patch number.
    pub patch_versions: Vec<PatchVersionChanged>,
}

#[verifier::ext_equal]
pub struct MinorVersionChangedView {
    pub version: usize,
    pub patch_versions: Seq<PatchVersionChangedView>,
}

impl View for MinorVersionChanged {
    type V = MinorVersionChangedView;

    open spec fn view(&self) -> MinorVersionChangedView {
        MinorVersionChangedView {
            version: self.version,
            patch_versions: self.patch_versions.deep_view(),
        }
    }
}

impl DeepView for MinorVersionChanged {
    type V = MinorVersionChangedView;

    open spec fn deep_view(&self) -> MinorVersionChangedView {
        self.view()
    }
}

/// The root artifact: one entry per minor version studied, in the order the
/// minor versions were asked for.
#[derive(Debug, Clone, PartialEq, Eq)]
pub struct ChangedVersions {
    pub version: Vec<(usize, MinorVersionChanged)>,
}

impl View for ChangedVersions {
    type V = Seq<(usize, MinorVersionChangedView)>;

    open spec fn view(&self) -> Seq<(usize, MinorVersionChangedView)> {
        self.version.deep_view()
    }
}

} // verus!
