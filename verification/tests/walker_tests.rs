use doxie::graph::{CommitNode, RangeError, RevisionGraph};
use doxie::report::{PatchVersionChanged, PrCommit};
use doxie::walker::{
    assemble_report, collect_pr_between, collect_prs_for_minor_version, MinorStatus, WalkConfig,
    WalkError,
};

fn text(s: &str) -> Vec<u8> {
    s.as_bytes().to_vec()
}

fn node(hash: &str, summary: &str, parent: Option<usize>, changed: &[&str]) -> CommitNode {
    CommitNode {
        hash: text(hash),
        summary: text(summary),
        parent,
        changed_paths: changed.iter().map(|p| text(p)).collect(),
    }
}

fn config(minors: &[usize]) -> WalkConfig {
    WalkConfig {
        package_root: text("packages"),
        version_prefix: text("v0."),
        minor_versions: minors.to_vec(),
    }
}

/// A straight chain c0..c4: c0 tagged v0.5.0, c1 tagged v0.5.1, three
/// commits past the last tag, tip at c4.
fn open_line_graph() -> RevisionGraph {
    RevisionGraph {
        commits: vec![
            node("c0", "start the line", None, &[]),
            node("c1", "patch release (#100)", Some(0), &["packages/core/lib.x"]),
            node("c2", "feature work (#101)", Some(1), &["packages/web/mod.x"]),
            node("c3", "docs only", Some(2), &["docs/readme.md"]),
            node("c4", "more core work (#103)", Some(3), &["packages/core/other.x"]),
        ],
        tags: vec![(text("refs/tags/v0.5.0"), 0), (text("refs/tags/v0.5.1"), 1)],
        tip: 4,
    }
}

/// Like `open_line_graph`, but v0.6.0 on the tip closes the 0.5 line.
fn closed_line_graph() -> RevisionGraph {
    let mut g = open_line_graph();
    g.tags.push((text("refs/tags/v0.6.0"), 4));
    g
}

#[test]
fn open_minor_line_emits_published_then_in_flight() {
    let g = open_line_graph();
    let (mv, status) = collect_prs_for_minor_version(&g, 5, &config(&[5])).unwrap();
    assert_eq!(status, MinorStatus::Open);
    assert_eq!(mv.version, 5);
    assert_eq!(mv.patch_versions.len(), 2);
    assert_eq!(mv.patch_versions[0].version, 0);
    assert!(mv.patch_versions[0].published);
    assert_eq!(mv.patch_versions[1].version, 1);
    assert!(!mv.patch_versions[1].published);
    // The published range is bounded by the two tags, both included.
    let first = &mv.patch_versions[0].commits;
    assert_eq!(first.len(), 2);
    assert_eq!(first[0].summary, text("start the line"));
    assert_eq!(first[1].summary, text("patch release (#100)"));
    assert_eq!(first[1].id, Some(100));
    assert_eq!(first[1].changed_packages, vec![text("core")]);
    // The in-flight tail runs from the tip back to the last tag, included.
    let tail = &mv.patch_versions[1].commits;
    assert_eq!(tail.len(), 4);
    assert_eq!(tail[0].summary, text("patch release (#100)"));
    assert_eq!(tail[3].summary, text("more core work (#103)"));
    assert_eq!(tail[2].id, None);
    assert_eq!(tail[2].changed_packages, Vec::<Vec<u8>>::new());
}

#[test]
fn head_indices_are_contiguous_from_zero() {
    let g = open_line_graph();
    let (mv, _) = collect_prs_for_minor_version(&g, 5, &config(&[5])).unwrap();
    for patch in &mv.patch_versions {
        for (k, commit) in patch.commits.iter().enumerate() {
            assert_eq!(commit.head_index, k);
        }
    }
}

#[test]
fn next_minor_tag_closes_the_line() {
    let g = closed_line_graph();
    let (mv, status) = collect_prs_for_minor_version(&g, 5, &config(&[5])).unwrap();
    assert_eq!(status, MinorStatus::Closed);
    assert_eq!(mv.patch_versions.len(), 1);
    assert_eq!(mv.patch_versions[0].version, 0);
    assert!(mv.patch_versions[0].published);
}

#[test]
fn absent_first_tag_means_never_started() {
    let g = open_line_graph();
    let (mv, status) = collect_prs_for_minor_version(&g, 7, &config(&[7])).unwrap();
    assert_eq!(status, MinorStatus::NeverStarted);
    assert!(mv.patch_versions.is_empty());
}

#[test]
fn unreachable_range_fails_that_line_only() {
    // c1 sits on a side branch: not a first-parent ancestor of the tip.
    let g = RevisionGraph {
        commits: vec![
            node("c0", "root", None, &[]),
            node("c1", "side branch", Some(0), &["packages/core/x"]),
            node("c2", "mainline", Some(0), &["packages/web/y"]),
        ],
        tags: vec![(text("refs/tags/v0.9.0"), 1)],
        tip: 2,
    };
    let err = collect_prs_for_minor_version(&g, 9, &config(&[9])).unwrap_err();
    assert_eq!(err, WalkError::RangeNotReachable { patch: 0 });
    let (report, diags) = assemble_report(&g, &config(&[9]));
    assert!(report.version.is_empty());
    assert_eq!(diags, vec![(9, WalkError::RangeNotReachable { patch: 0 })]);
}

#[test]
fn report_covers_each_requested_minor() {
    let g = closed_line_graph();
    let (report, diags) = assemble_report(&g, &config(&[5, 6, 7]));
    assert!(diags.is_empty());
    assert_eq!(report.version.len(), 3);
    assert_eq!(report.version[0].0, 5);
    assert_eq!(report.version[0].1.patch_versions.len(), 1);
    // 0.6 is open at the tip with no commits past its first tag but the tag
    // commit itself; 0.7 never started.
    assert_eq!(report.version[1].0, 6);
    assert_eq!(report.version[1].1.patch_versions.len(), 1);
    assert!(!report.version[1].1.patch_versions[0].published);
    assert_eq!(report.version[2].0, 7);
    assert!(report.version[2].1.patch_versions.is_empty());
}

#[test]
fn reconstruction_is_deterministic() {
    let g = open_line_graph();
    let cfg = config(&[4, 5]);
    let first = assemble_report(&g, &cfg);
    let second = assemble_report(&g, &cfg);
    assert_eq!(first.0, second.0);
    assert_eq!(first.1, second.1);
}

#[test]
fn collects_prs_for_5() {
    let g = open_line_graph();
    let (mv, _) = collect_prs_for_minor_version(&g, 5, &config(&[5])).unwrap();
    assert_eq!(mv.version, 5);
    assert!(!mv.patch_versions.is_empty());
}

#[test]
fn changed_crates_between() {
    let g = open_line_graph();
    let start = g.resolve_tag(&text("v0.5.0")).unwrap();
    let end = g.resolve_tag(&text("v0.5.1")).unwrap();
    let commits = collect_pr_between(&g, end, start, &text("packages")).unwrap();
    assert_eq!(commits.len(), 2);
    assert_eq!(commits[0].summary, text("start the line"));
    assert_eq!(commits[1].changed_packages, vec![text("core")]);
}

#[test]
fn two_digit_versions_resolve_exactly() {
    // Twelve tags v0.12.0 .. v0.12.11 on a chain of thirteen commits: probe
    // names with multi-digit numbers must match their own tag and no other.
    let mut commits = vec![node("d0", "root", None, &[])];
    for i in 1..13usize {
        commits.push(node(
            &format!("d{}", i),
            &format!("work (#{})", i),
            Some(i - 1),
            &[],
        ));
    }
    let tags = (0..12usize)
        .map(|p| (text(&format!("refs/tags/v0.12.{}", p)), p))
        .collect();
    let g = RevisionGraph { commits, tags, tip: 12 };
    let (mv, status) = collect_prs_for_minor_version(&g, 12, &config(&[12])).unwrap();
    assert_eq!(status, MinorStatus::Open);
    assert_eq!(mv.patch_versions.len(), 12);
    for p in 0..11usize {
        assert!(mv.patch_versions[p].published);
        assert_eq!(mv.patch_versions[p].version, p);
        assert_eq!(mv.patch_versions[p].commits.len(), 2);
    }
    assert!(!mv.patch_versions[11].published);
    assert_eq!(mv.patch_versions[11].version, 11);
}

#[test]
fn range_between_boundaries_counts_each_commit_once() {
    let g = open_line_graph();
    let commits = collect_pr_between(&g, 4, 0, &text("packages")).unwrap();
    assert_eq!(commits.len(), 5);
    for (k, c) in commits.iter().enumerate() {
        assert_eq!(c.head_index, k);
        assert_eq!(c.commit_hash, text(&format!("c{}", k)));
    }
}

#[test]
fn range_to_unreachable_start_is_an_error() {
    let g = open_line_graph();
    // Walking from c2 can never reach c3.
    assert!(collect_pr_between(&g, 2, 3, &text("packages")).is_err());
}

#[test]
fn collect_range_is_newest_first() {
    let g = open_line_graph();
    let range = g.collect_range(3, 1).unwrap();
    assert_eq!(range, vec![3, 2, 1]);
    assert_eq!(g.collect_range(1, 3).unwrap_err(), RangeError::RangeNotReachable);
}

#[test]
fn resolve_tag_takes_first_match_in_enumeration_order() {
    let mut g = open_line_graph();
    g.tags.push((text("refs/tags-archive/v0.5.1"), 3));
    // The first entry whose full ref name ends with the probe wins.
    assert_eq!(g.resolve_tag(&text("v0.5.1")), Some(1));
    assert_eq!(g.resolve_tag(&text("v0.5.2")), None);
}

#[test]
fn patch_aggregates_packages_across_commits() {
    let commit = |hash: &str, pkgs: &[&str], head_index: usize| PrCommit {
        summary: text("work"),
        id: None,
        changed_packages: pkgs.iter().map(|p| text(p)).collect(),
        commit_hash: text(hash),
        head_index,
    };
    let patch = PatchVersionChanged {
        version: 0,
        published: true,
        commits: vec![
            commit("e0", &["core"], 0),
            commit("e1", &["web", "core"], 1),
            commit("e2", &[], 2),
        ],
    };
    assert_eq!(patch.changed_packages(), vec![text("core"), text("web")]);
}

#[test]
fn changed_files_are_deduplicated() {
    let g = RevisionGraph {
        commits: vec![
            node("c0", "root", None, &[]),
            node("c1", "rename", Some(0), &["packages/a/x", "packages/a/x", "packages/b/y"]),
        ],
        tags: vec![],
        tip: 1,
    };
    let files = g.changed_files(1);
    assert_eq!(files, vec![text("packages/a/x"), text("packages/b/y")]);
    assert_eq!(g.changed_files(0), Vec::<Vec<u8>>::new());
}
