use doxie::repo::{changed_crates_on_repo, load_repository_graph, sha_from_tag};
use doxie::walker::{MinorStatus, WalkConfig};
use git2::{IndexEntry, IndexTime, Oid, Repository, Signature};

fn text(s: &str) -> Vec<u8> {
    s.as_bytes().to_vec()
}

fn entry_for(path: &str, size: u32) -> IndexEntry {
    IndexEntry {
        ctime: IndexTime::new(0, 0),
        mtime: IndexTime::new(0, 0),
        dev: 0,
        ino: 0,
        mode: 0o100644,
        uid: 0,
        gid: 0,
        file_size: size,
        id: Oid::zero(),
        flags: 0,
        flags_extended: 0,
        path: path.as_bytes().to_vec(),
    }
}

/// Writes one commit whose tree holds exactly the given files, moving HEAD.
fn commit_files(repo: &Repository, parent: Option<Oid>, message: &str, files: &[(&str, &str)]) -> Oid {
    let sig = Signature::now("dev", "dev@invalid").unwrap();
    let mut index = repo.index().unwrap();
    index.clear().unwrap();
    for (path, content) in files {
        index
            .add_frombuffer(&entry_for(path, content.len() as u32), content.as_bytes())
            .unwrap();
    }
    let tree_oid = index.write_tree().unwrap();
    let tree = repo.find_tree(tree_oid).unwrap();
    match parent {
        Some(p) => {
            let parent_commit = repo.find_commit(p).unwrap();
            repo.commit(None, &sig, &sig, message, &tree, &[&parent_commit]).unwrap()
        }
        None => repo.commit(None, &sig, &sig, message, &tree, &[]).unwrap(),
    }
}

/// Builds a small release history: a fresh root chain per run, tags moved
/// onto it, so repeated runs see the same shape.
fn build_history(repo: &Repository) -> (Oid, Oid, Oid) {
    let c1 = commit_files(repo, None, "begin the line", &[("readme.md", "hello")]);
    let c2 = commit_files(
        repo,
        Some(c1),
        "core fix (#512)",
        &[("readme.md", "hello"), ("packages/core/lib.x", "one")],
    );
    let c3 = commit_files(
        repo,
        Some(c2),
        "web feature (#513)",
        &[("readme.md", "hello"), ("packages/core/lib.x", "one"), ("packages/web/ui.x", "two")],
    );
    repo.reference("refs/heads/main", c3, true, "advance the mainline").unwrap();
    repo.set_head("refs/heads/main").unwrap();
    let o1 = repo.find_object(c1, None).unwrap();
    repo.tag_lightweight("v0.5.0", &o1, true).unwrap();
    let o2 = repo.find_object(c2, None).unwrap();
    repo.tag_lightweight("v0.5.1", &o2, true).unwrap();
    (c1, c2, c3)
}

#[test]
fn reconstructs_a_real_repository() {
    let repo = Repository::init_bare("/tmp/doxie_repo_reconstruct").unwrap();
    let (c1, c2, _c3) = build_history(&repo);

    assert_eq!(sha_from_tag(&repo, &text("v0.5.0")), Some(c1.to_string().into_bytes()));
    assert_eq!(sha_from_tag(&repo, &text("v0.5.1")), Some(c2.to_string().into_bytes()));
    assert_eq!(sha_from_tag(&repo, &text("v0.4.9")), None);

    let graph = load_repository_graph(&repo, 1000).unwrap();
    assert_eq!(graph.commits.len(), 3);
    assert_eq!(graph.commits[0].summary, text("begin the line"));
    assert_eq!(graph.tip, 2);

    let cfg = WalkConfig {
        package_root: text("packages"),
        version_prefix: text("v0."),
        minor_versions: vec![5],
    };
    let (report, diags) = changed_crates_on_repo(&repo, &cfg, 1000).unwrap();
    assert!(diags.is_empty());
    assert_eq!(report.version.len(), 1);
    let (minor, mv) = &report.version[0];
    assert_eq!(*minor, 5);
    assert_eq!(mv.patch_versions.len(), 2);

    let published = &mv.patch_versions[0];
    assert_eq!(published.version, 0);
    assert!(published.published);
    assert_eq!(published.commits.len(), 2);
    assert_eq!(published.commits[0].summary, text("begin the line"));
    assert_eq!(published.commits[0].head_index, 0);
    assert_eq!(published.commits[1].summary, text("core fix (#512)"));
    assert_eq!(published.commits[1].id, Some(512));
    assert_eq!(published.commits[1].changed_packages, vec![text("core")]);

    let in_flight = &mv.patch_versions[1];
    assert_eq!(in_flight.version, 1);
    assert!(!in_flight.published);
    assert_eq!(in_flight.commits.len(), 2);
    assert_eq!(in_flight.commits[1].summary, text("web feature (#513)"));
    assert_eq!(in_flight.commits[1].id, Some(513));
    assert_eq!(in_flight.commits[1].changed_packages, vec![text("web")]);
}

#[test]
fn walker_stops_at_minor_line_never_started() {
    let repo = Repository::init_bare("/tmp/doxie_repo_never_started").unwrap();
    build_history(&repo);
    let cfg = WalkConfig {
        package_root: text("packages"),
        version_prefix: text("v0."),
        minor_versions: vec![8],
    };
    let graph = load_repository_graph(&repo, 1000).unwrap();
    let (mv, status) = doxie::walker::collect_prs_for_minor_version(&graph, 8, &cfg).unwrap();
    assert_eq!(status, MinorStatus::NeverStarted);
    assert!(mv.patch_versions.is_empty());
}
