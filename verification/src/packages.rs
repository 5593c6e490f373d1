//! Maps changed file paths to the names of the top-level packages they
//! belong to.
//!
//! A path contributes a package name exactly when it begins with the
//! project's package-root directory component; the name is the single path
//! component immediately after that root. Paths outside the package root
//! contribute nothing, and the result carries each name once, in the order
//! of first contribution.

use vstd::prelude::*;

use crate::bytes::copy_range;
use crate::bytes::dedup_bytes;
use crate::bytes::dedup_spec;
use crate::bytes::first_byte_from;
use crate::bytes::has_prefix;
use crate::bytes::lemma_dedup_spec_set;
use crate::bytes::lemma_deep_view_elem;
use crate::bytes::lemma_first_byte_char;

verus! {

/// True of a path that lies under the package root: the root itself, or the
/// root followed by a `/` separator.
pub open spec fn under_root(p: Seq<u8>, root: Seq<u8>) -> bool {
    root.is_prefix_of(p) && (p.len() == root.len() || p[root.len() as int] == 47)
}

/// The package name a path contributes: the non-empty component after
/// `root/`, or nothing.
pub open spec fn package_of(p: Seq<u8>, root: Seq<u8>) -> Option<Seq<u8>> {
    if p.len() > root.len() + 1 && root.is_prefix_of(p) && p[root.len() as int] == 47 {
        let e = first_byte_from(p, root.len() + 1 as int, 47);
        if e > root.len() + 1 as int {
            Some(p.subrange(root.len() + 1 as int, e))
        } else {
            None
        }
    } else {
        None
    }
}

/// The paths of `paths` that lie under the package root, in order.
pub open spec fn crate_paths(paths: Seq<Seq<u8>>, root: Seq<u8>) -> Seq<Seq<u8>>
    decreases paths.len(),
{
    if paths.len() == 0 {
        Seq::empty()
    } else {
        crate_paths(paths.drop_last(), root) + (if under_root(paths.last(), root) {
            seq![paths.last()]
        } else {
            Seq::empty()
        })
    }
}

/// The package names the paths contribute, in order, with repetitions.
pub open spec fn package_list(paths: Seq<Seq<u8>>, root: Seq<u8>) -> Seq<Seq<u8>>
    decreases paths.len(),
{
    if paths.len() == 0 {
        Seq::empty()
    } else {
        package_list(paths.drop_last(), root) + (match package_of(paths.last(), root) {
            Some(name) => seq![name],
            None => Seq::empty(),
        })
    }
}

/// What mapping a set of changed paths returns: each contributed package
/// name once, in order of first contribution.
pub open spec fn packages_spec(paths: Seq<Seq<u8>>, root: Seq<u8>) -> Seq<Seq<u8>> {
    dedup_spec(package_list(paths, root))
}

/// The package name of one path, exactly as `package_of` gives it.
pub fn path_package(p: &Vec<u8>, root: &Vec<u8>) -> (r: Option<Vec<u8>>)
    ensures
        r is Some <==> package_of(p@, root@) is Some,
        r matches Some(v) ==> package_of(p@, root@) == Some(v@),
{
    if p.len() > root.len() && p.len() - root.len() > 1 && has_prefix(p, root) {
        if p[root.len()] != 47 {
            return None;
        }
        let mut e: usize = root.len() + 1;
        while e < p.len() && p[e] != 47
            invariant
                root@.len() + 1 <= e <= p@.len(),
                forall|k: int| root@.len() + 1 <= k < e ==> p@[k] != 47,
            decreases p@.len() - e,
        {
            e += 1;
        }
        proof {
            lemma_first_byte_char(p@, root@.len() + 1 as int, e as int, 47);
        }
        if e > root.len() + 1 {
            Some(copy_range(p, root.len() + 1, e))
        } else {
            None
        }
    } else {
        None
    }
}

/// Maps a list of changed file paths to the distinct packages they touch.
pub fn map_changed_packages(paths: &Vec<Vec<u8>>, root: &Vec<u8>) -> (r: Vec<Vec<u8>>)
    ensures
        r.deep_view() == packages_spec(paths.deep_view(), root@),
{
    let mut names: Vec<Vec<u8>> = Vec::new();
    let mut i: usize = 0;
    while i < paths.len()
        invariant
            i <= paths@.len(),
            names.deep_view() == package_list(paths.deep_view().take(i as int), root@),
        decreases paths@.len() - i,
    {
        proof {
            assert(paths.deep_view().take(i + 1).drop_last() =~= paths.deep_view().take(i as int));
            assert(paths.deep_view().take(i + 1).last() == paths.deep_view()[i as int]);
            lemma_deep_view_elem(*paths, i as int);
        }
        let name = path_package(&paths[i], root);
        if let Some(v) = name {
            let ghost prev = names.deep_view();
            names.push(v);
            proof {
                assert(names.deep_view() =~= prev.push(package_of(
                    paths.deep_view()[i as int],
                    root@,
                ).unwrap())) by {
                    assert forall|k: int| 0 <= k < names.deep_view().len() implies names.deep_view()[k]
                        == prev.push(package_of(paths.deep_view()[i as int], root@).unwrap())[k] by {
                        if k == prev.len() {
                            assert(names@[k].deep_view() =~= names@[k]@);
                        }
                    }
                }
                assert(names.deep_view() =~= package_list(
                    paths.deep_view().take(i + 1),
                    root@,
                ));
            }
        } else {
            proof {
                assert(names.deep_view() =~= package_list(
                    paths.deep_view().take(i + 1),
                    root@,
                ));
            }
        }
        i += 1;
    }
    proof {
        assert(paths.deep_view().take(i as int) =~= paths.deep_view());
    }
    dedup_bytes(&names)
}

pub proof fn lemma_package_list_concat(a: Seq<Seq<u8>>, b: Seq<Seq<u8>>, root: Seq<u8>)
    ensures
        package_list(a + b, root) == package_list(a, root) + package_list(b, root),
    decreases b.len(),
{
    if b.len() == 0 {
        assert(a + b =~= a);
        assert(package_list(a, root) + package_list(b, root) =~= package_list(a, root));
    } else {
        assert((a + b).drop_last() =~= a + b.drop_last());
        assert((a + b).last() == b.last());
        lemma_package_list_concat(a, b.drop_last(), root);
        assert(package_list(a, root) + package_list(b, root) =~= package_list(a, root) + (
        package_list(b.drop_last(), root) + (match package_of(b.last(), root) {
            Some(name) => seq![name],
            None => Seq::<Seq<u8>>::empty(),
        })));
    }
}

/// Appending elements that already occur leaves the deduplication unchanged.
pub proof fn lemma_dedup_absorb(x: Seq<Seq<u8>>, y: Seq<Seq<u8>>)
    requires
        forall|e: Seq<u8>| y.contains(e) ==> x.contains(e),
    ensures
        dedup_spec(x + y) == dedup_spec(x),
    decreases y.len(),
{
    if y.len() == 0 {
        assert(x + y =~= x);
    } else {
        assert((x + y).drop_last() =~= x + y.drop_last());
        assert forall|e: Seq<u8>| y.drop_last().contains(e) implies x.contains(e) by {
            let k = choose|k: int| 0 <= k < y.drop_last().len() && y.drop_last()[k] == e;
            assert(y[k] == e);
        }
        lemma_dedup_absorb(x, y.drop_last());
        assert(y.contains(y.last())) by {
            assert(y[y.len() - 1] == y.last());
        }
        lemma_dedup_spec_set(x);
        assert((x + y).last() == y.last());
    }
}

/// Mapping is insensitive to duplicated input paths: a path list with itself
/// appended yields exactly the same packages.
pub proof fn lemma_map_duplicate_insensitive(paths: Seq<Seq<u8>>, root: Seq<u8>)
    ensures
        packages_spec(paths + paths, root) == packages_spec(paths, root),
{
    lemma_package_list_concat(paths, paths, root);
    let l = package_list(paths, root);
    assert forall|e: Seq<u8>| l.contains(e) implies l.contains(e) by {}
    lemma_dedup_absorb(l, l);
}

} // verus!
