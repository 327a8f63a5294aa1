//! Paths moved under a prefix.
use crate::path::{
    append_bytes, body_components, components_of, has_root, lemma_segment_content,
    lemma_segment_len_is, segment_components, segment_len, ComponentView, SEPARATOR,
};
use vstd::prelude::*;
use vstd::slice::slice_to_vec;

verus! {

/// The path that `path` names when it is read from `base`: an absolute
/// `path` stands for itself, and a relative one follows `base`, after a
/// separator unless `base` is empty or ends with one.
pub open spec fn joined_path(base: Seq<u8>, path: Seq<u8>) -> Seq<u8> {
    if has_root(path) {
        path
    } else if base.len() > 0 && base.last() != SEPARATOR {
        base + seq![SEPARATOR] + path
    } else {
        base + path
    }
}

/// A path under an optional prefix.
pub open spec fn prefixed(prefix: Option<Seq<u8>>, path: Seq<u8>) -> Seq<u8> {
    match prefix {
        Some(base) => joined_path(base, path),
        None => path,
    }
}

/// The components of two texts with a separator between them are those of
/// the first and then those of the second, read as what follows.
pub proof fn lemma_body_components_concat(a: Seq<u8>, b: Seq<u8>, leading: bool)
    ensures
        body_components(a + seq![SEPARATOR] + b, leading) == body_components(a, leading)
            + body_components(b, false),
    decreases a.len(),
{
    let s = a + seq![SEPARATOR] + b;
    let n = segment_len(a) as int;
    lemma_segment_content(a);
    assert forall|i: int| 0 <= i < n implies s[i] != SEPARATOR by {
        assert(s[i] == a[i]);
    }
    assert(s[n] == SEPARATOR) by {
        if n < a.len() {
            assert(s[n] == a[n]);
        }
    }
    lemma_segment_len_is(s, n);
    assert(s.take(n) =~= a.take(n));
    let head = segment_components(a.take(n), leading);
    if n == a.len() {
        assert(s.skip(n + 1) =~= b);
    } else {
        let rest = a.skip(n + 1);
        assert(s.skip(n + 1) =~= rest + seq![SEPARATOR] + b);
        lemma_body_components_concat(rest, b, false);
        assert(head + (body_components(rest, false) + body_components(b, false)) =~= (head
            + body_components(rest, false)) + body_components(b, false));
    }
}

/// A text with a separator at its end has the components it has without
/// it.
pub proof fn lemma_trailing_separator(a: Seq<u8>)
    ensures
        components_of(a + seq![SEPARATOR]) == if a.len() == 0 {
            seq![ComponentView::RootDir]
        } else {
            components_of(a)
        },
{
    let s = a + seq![SEPARATOR];
    let none = Seq::<u8>::empty();
    assert(body_components(none, false) =~= Seq::<ComponentView>::empty());
    if a.len() == 0 {
        assert(s.skip(1) =~= none);
    } else if has_root(a) {
        assert(s.skip(1) =~= a.skip(1) + seq![SEPARATOR] + none);
        lemma_body_components_concat(a.skip(1), none, false);
        assert(body_components(a.skip(1), false) + Seq::<ComponentView>::empty()
            =~= body_components(a.skip(1), false));
    } else {
        assert(s =~= a + seq![SEPARATOR] + none);
        lemma_body_components_concat(a, none, true);
        assert(body_components(a, true) + Seq::<ComponentView>::empty() =~= body_components(
            a,
            true,
        ));
    }
}

/// A relative path joined onto a base has the components of the base and
/// then its own, but for a `.` at its start, which is passed over. Joined
/// onto the empty base it is unchanged, and an absolute path is unchanged by
/// any base.
pub proof fn lemma_joined_path_components(base: Seq<u8>, path: Seq<u8>)
    ensures
        components_of(joined_path(base, path)) == if has_root(path) || base.len() == 0 {
            components_of(path)
        } else {
            components_of(base) + body_components(path, false)
        },
{
    let joined = joined_path(base, path);
    if has_root(path) {
    } else if base.len() == 0 {
        assert(base + path =~= path);
    } else {
        let stem = if base.last() == SEPARATOR {
            base.drop_last()
        } else {
            base
        };
        assert(joined =~= stem + seq![SEPARATOR] + path);
        if base.last() == SEPARATOR {
            assert(base =~= stem + seq![SEPARATOR]);
            lemma_trailing_separator(stem);
        }
        if stem.len() == 0 {
            assert(joined.skip(1) =~= path);
        } else if has_root(stem) {
            assert(joined.skip(1) =~= stem.skip(1) + seq![SEPARATOR] + path);
            lemma_body_components_concat(stem.skip(1), path, false);
            assert(seq![ComponentView::RootDir] + (body_components(stem.skip(1), false)
                + body_components(path, false)) =~= (seq![ComponentView::RootDir]
                + body_components(stem.skip(1), false)) + body_components(path, false));
        } else {
            lemma_body_components_concat(stem, path, true);
        }
    }
}

/// Joins `path` onto `base`.
pub fn join_path(base: &[u8], path: &[u8]) -> (out: Vec<u8>)
    ensures
        out@ == joined_path(base@, path@),
{
    if path.len() > 0 && path[0] == SEPARATOR {
        return slice_to_vec(path);
    }
    let mut out: Vec<u8> = slice_to_vec(base);
    if base.len() > 0 && base[base.len() - 1] != SEPARATOR {
        out.push(SEPARATOR);
    }
    append_bytes(&mut out, path);
    out
}

/// Moves each of `paths` under `prefix`, in order. Without a prefix the
/// paths are copied as they are.
pub fn apply_repo_prefix_to_force_include(prefix: Option<&[u8]>, paths: &[Vec<u8>]) -> (out: Vec<
    Vec<u8>,
>)
    ensures
        out@.len() == paths@.len(),
        forall|i: int|
            0 <= i < paths@.len() ==> (#[trigger] out@[i])@ == prefixed(
                match prefix {
                    Some(base) => Some(base@),
                    None => None,
                },
                paths@[i]@,
            ),
{
    let mut out: Vec<Vec<u8>> = Vec::new();
    if paths.len() == 0 {
        return out;
    }
    let mut i: usize = 0;
    while i < paths.len()
        invariant
            i <= paths.len(),
            out@.len() == i,
            forall|j: int|
                0 <= j < i ==> (#[trigger] out@[j])@ == prefixed(
                    match prefix {
                        Some(base) => Some(base@),
                        None => None,
                    },
                    paths@[j]@,
                ),
        decreases paths.len() - i,
    {
        let moved: Vec<u8> = match prefix {
            Some(base) => join_path(base, paths[i].as_slice()),
            None => slice_to_vec(paths[i].as_slice()),
        };
        out.push(moved);
        i = i + 1;
    }
    out
}

} // verus!
