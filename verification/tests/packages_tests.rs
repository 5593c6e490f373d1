use doxie::packages::map_changed_packages;
use doxie::report::Pr;

fn text(s: &str) -> Vec<u8> {
    s.as_bytes().to_vec()
}

fn paths(names: &[&str]) -> Vec<Vec<u8>> {
    names.iter().map(|n| text(n)).collect()
}

fn sample_pr(files: &[&str]) -> Pr {
    Pr {
        summary: text("sample"),
        id: None,
        changed_files: paths(files),
        idx: 0,
        hash: text("0000"),
    }
}

#[test]
fn package_root_file_maps_to_package() {
    let pr = sample_pr(&["packages/core/src/lib.x", "docs/readme.md"]);
    assert_eq!(pr.changed_packages(&text("packages")), vec![text("core")]);
}

#[test]
fn duplicate_paths_do_not_change_the_mapping() {
    let once = paths(&["packages/core/a.x", "docs/readme.md", "packages/web/b.x"]);
    let mut twice = once.clone();
    twice.extend(once.clone());
    let root = text("packages");
    assert_eq!(
        map_changed_packages(&once, &root),
        map_changed_packages(&twice, &root)
    );
}

#[test]
fn one_package_counted_once() {
    let pr = sample_pr(&["packages/core/a.x", "packages/core/deep/b.x"]);
    assert_eq!(pr.changed_packages(&text("packages")), vec![text("core")]);
}

#[test]
fn packages_keep_first_contribution_order() {
    let pr = sample_pr(&["packages/web/a.x", "packages/core/b.x", "packages/web/c.x"]);
    assert_eq!(
        pr.changed_packages(&text("packages")),
        vec![text("web"), text("core")]
    );
}

#[test]
fn similarly_named_directory_contributes_nothing() {
    let pr = sample_pr(&["packagesfoo/core/a.x", "packages"]);
    assert_eq!(pr.changed_packages(&text("packages")), Vec::<Vec<u8>>::new());
}

#[test]
fn empty_component_contributes_nothing() {
    let pr = sample_pr(&["packages//a.x", "packages/"]);
    assert_eq!(pr.changed_packages(&text("packages")), Vec::<Vec<u8>>::new());
}

#[test]
fn changed_crates_keeps_only_package_paths() {
    let pr = sample_pr(&["packages/core/a.x", "docs/readme.md", "packagesfoo/b.x", "packages"]);
    assert_eq!(
        pr.changed_crates(&text("packages")),
        paths(&["packages/core/a.x", "packages"])
    );
}
