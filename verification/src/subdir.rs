//! Whether one path lies below another, and where.
use crate::path::{
    component_equal, component_views, components, components_of, components_text, is_plain_name,
    lemma_components_shape, lemma_components_text_round_trip, path_text, Component,
    ComponentView,
};
use vstd::prelude::*;
use vstd::slice::{slice_subrange, slice_to_vec};

verus! {

/// Whether `full` starts with all the components of `lead`.
pub open spec fn starts_with(full: Seq<ComponentView>, lead: Seq<ComponentView>) -> bool {
    lead.len() <= full.len() && full.take(lead.len() as int) =~= lead
}

/// Whether two texts are the same path: they have the same components.
pub open spec fn same_path(a: Seq<u8>, b: Seq<u8>) -> bool {
    components_of(a) =~= components_of(b)
}

/// What is left of `path` when the components of `base` are taken from its
/// start, or nothing when `path` does not start with them.
pub open spec fn stripped(path: Seq<u8>, base: Seq<u8>) -> Option<Seq<u8>> {
    let full = components_of(path);
    let lead = components_of(base);
    if starts_with(full, lead) {
        Some(components_text(full.skip(lead.len() as int)))
    } else {
        None
    }
}

/// The path only when it is not empty.
pub open spec fn non_empty(path: Seq<u8>) -> Option<Seq<u8>> {
    if path.len() == 0 {
        None
    } else {
        Some(path)
    }
}

/// Where `path` lies below `root`, going by the two texts as they stand.
pub open spec fn direct_subdir(root: Seq<u8>, path: Seq<u8>) -> Option<Seq<u8>> {
    match stripped(path, root) {
        Some(rest) => non_empty(rest),
        None => None,
    }
}

/// Where `path` lies below `root`. The two texts decide when they are the
/// same path or when one visibly lies below the other; only otherwise the
/// canonical forms of the two, where there are any, are asked.
pub open spec fn subdir_of(
    root: Seq<u8>,
    path: Seq<u8>,
    canonical: Option<(Seq<u8>, Seq<u8>)>,
) -> Option<Seq<u8>> {
    if same_path(root, path) {
        None
    } else {
        match direct_subdir(root, path) {
            Some(rest) => Some(rest),
            None => match canonical {
                Some((real_root, real_path)) => direct_subdir(real_root, real_path),
                None => None,
            },
        }
    }
}

/// A path lies directly below a root exactly when its components start
/// with those of the root and go on after them. What is returned then is
/// the text of the components that follow: split again, it gives them back.
pub proof fn lemma_direct_subdir(root: Seq<u8>, path: Seq<u8>)
    ensures
        ({
            let full = components_of(path);
            let lead = components_of(root);
            &&& direct_subdir(root, path) is Some <==> (starts_with(full, lead) && lead.len()
                < full.len())
            &&& direct_subdir(root, path) matches Some(rest) ==> {
                &&& rest.len() > 0
                &&& components_of(rest) == full.skip(lead.len() as int)
            }
        }),
{
    let full = components_of(path);
    let lead = components_of(root);
    lemma_components_shape(path);
    if starts_with(full, lead) {
        let rest = full.skip(lead.len() as int);
        assert forall|i: int| 0 <= i < rest.len() implies (match #[trigger] rest[i] {
            ComponentView::Normal(name) => is_plain_name(name),
            ComponentView::RootDir => i == 0,
            ComponentView::CurDir => i == 0,
            ComponentView::ParentDir => true,
        }) by {
            assert(rest[i] == full[i + lead.len()]);
        }
        lemma_components_text_round_trip(rest);
    }
}

/// A path does not lie directly below itself.
pub proof fn lemma_no_subdir_of_itself(root: Seq<u8>, path: Seq<u8>)
    requires
        same_path(root, path),
    ensures
        direct_subdir(root, path) is None,
        forall|canonical: Option<(Seq<u8>, Seq<u8>)>| subdir_of(root, path, canonical) is None,
{
    lemma_direct_subdir(root, path);
}

/// Whether the two texts are the same path.
pub fn paths_equal(a: &[u8], b: &[u8]) -> (same: bool)
    ensures
        same == same_path(a@, b@),
{
    let left: Vec<Component> = components(a);
    let right: Vec<Component> = components(b);
    if left.len() != right.len() {
        return false;
    }
    let mut i: usize = 0;
    while i < left.len()
        invariant
            i <= left.len(),
            left.len() == right.len(),
            component_views(left@) == components_of(a@),
            component_views(right@) == components_of(b@),
            forall|j: int| 0 <= j < i ==> left@[j]@ == right@[j]@,
        decreases left.len() - i,
    {
        if !component_equal(&left[i], &right[i]) {
            proof {
                let l = components_of(a@);
                let r = components_of(b@);
                assert(l[i as int] == left@[i as int]@);
                assert(r[i as int] == right@[i as int]@);
                assert(l != r);
            }
            return false;
        }
        i = i + 1;
    }
    assert(component_views(left@) =~= component_views(right@));
    true
}

/// Takes the components of `base` from the start of `path` and returns the
/// text of those that follow, or nothing when `path` does not start with
/// them. Components are compared whole: `/repo` is no start of `/repository`.
pub fn strip_prefix(path: &[u8], base: &[u8]) -> (r: Option<Vec<u8>>)
    ensures
        match stripped(path@, base@) {
            Some(rest) => r matches Some(out) && out@ == rest,
            None => r is None,
        },
{
    let full: Vec<Component> = components(path);
    let lead: Vec<Component> = components(base);
    if lead.len() > full.len() {
        return None;
    }
    let mut i: usize = 0;
    while i < lead.len()
        invariant
            i <= lead.len() <= full.len(),
            component_views(full@) == components_of(path@),
            component_views(lead@) == components_of(base@),
            forall|j: int| 0 <= j < i ==> full@[j]@ == lead@[j]@,
        decreases lead.len() - i,
    {
        if !component_equal(&full[i], &lead[i]) {
            proof {
                let f = components_of(path@);
                let l = components_of(base@);
                assert(f[i as int] == full@[i as int]@);
                assert(l[i as int] == lead@[i as int]@);
                assert(f.take(l.len() as int)[i as int] != l[i as int]);
            }
            return None;
        }
        i = i + 1;
    }
    assert(component_views(full@).take(lead@.len() as int) =~= component_views(lead@));
    let rest: &[Component] = slice_subrange(full.as_slice(), lead.len(), full.len());
    assert(component_views(rest@) =~= component_views(full@).skip(lead@.len() as int));
    Some(path_text(rest))
}

/// A copy of the path, unless the path is empty.
pub fn non_empty_path(path: &[u8]) -> (r: Option<Vec<u8>>)
    ensures
        match non_empty(path@) {
            Some(text) => r matches Some(out) && out@ == text,
            None => r is None,
        },
{
    if path.len() == 0 {
        None
    } else {
        Some(slice_to_vec(path))
    }
}

/// Where `path` lies below `root`, going by the two texts alone.
pub fn direct_repo_subdir(root: &[u8], path: &[u8]) -> (r: Option<Vec<u8>>)
    ensures
        match direct_subdir(root@, path@) {
            Some(rest) => r matches Some(out) && out@ == rest,
            None => r is None,
        },
{
    match strip_prefix(path, root) {
        Some(rest) => non_empty_path(rest.as_slice()),
        None => None,
    }
}

/// Whether the canonical forms of the two paths are needed to tell where
/// `repo_path` lies: the texts are not the same path, and they do not show
/// the one below the other.
pub fn needs_canonical_paths(repo_root: &[u8], repo_path: &[u8]) -> (needed: bool)
    ensures
        needed == (!same_path(repo_root@, repo_path@) && direct_subdir(repo_root@, repo_path@)
            is None),
{
    if paths_equal(repo_root, repo_path) {
        return false;
    }
    direct_repo_subdir(repo_root, repo_path).is_none()
}

/// The path of `repo_path` relative to `repo_root`, when `repo_path` lies
/// strictly below `repo_root`.
///
/// `canonical` holds the canonical forms of the root and of the path, in
/// this order, where both could be found; it is looked at only when
/// [`needs_canonical_paths`] holds of the two texts. A path is never its own
/// subdirectory, and what is returned is never empty.
pub fn repo_subdir(repo_root: &[u8], repo_path: &[u8], canonical: Option<(&[u8], &[u8])>) -> (r:
    Option<Vec<u8>>)
    ensures
        match subdir_of(
            repo_root@,
            repo_path@,
            match canonical {
                Some((real_root, real_path)) => Some((real_root@, real_path@)),
                None => None,
            },
        ) {
            Some(rest) => r matches Some(out) && out@ == rest,
            None => r is None,
        },
        r matches Some(out) ==> out@.len() > 0,
        same_path(repo_root@, repo_path@) ==> r is None,
{
    if paths_equal(repo_root, repo_path) {
        return None;
    }
    match direct_repo_subdir(repo_root, repo_path) {
        Some(rest) => Some(rest),
        None => match canonical {
            Some((real_root, real_path)) => direct_repo_subdir(real_root, real_path),
            None => None,
        },
    }
}

} // verus!
