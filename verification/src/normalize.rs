//! Lexical normalisation of a relative path.
use crate::errors::{ErrorView, GitToolingError};
use crate::path::{
    append_bytes, body_components, byte_views, component_views, components, components_of,
    has_root, is_plain_name, is_rootless, lemma_components_shape, lemma_segment_len_is,
    Component, ComponentView, SEPARATOR,
};
use vstd::prelude::*;
use vstd::slice::slice_to_vec;

verus! {

/// Why a path cannot be normalised.
#[derive(Debug, Clone, Copy, PartialEq, Eq)]
pub enum PathFault {
    /// The path is empty or starts at the root.
    NotRelative,
    /// A `..` has no name before it to take away.
    EscapesStart,
}

/// The names kept so far after one more component.
pub open spec fn resolve_step(kept: Seq<Seq<u8>>, part: ComponentView) -> Result<
    Seq<Seq<u8>>,
    PathFault,
> {
    match part {
        ComponentView::Normal(name) => Ok(kept.push(name)),
        ComponentView::CurDir => Ok(kept),
        ComponentView::ParentDir => if kept.len() > 0 {
            Ok(kept.drop_last())
        } else {
            Err(PathFault::EscapesStart)
        },
        ComponentView::RootDir => Err(PathFault::NotRelative),
    }
}

/// The names kept after all of `parts`, taken from left to right, or the
/// fault of the first component that cannot be taken.
pub open spec fn resolve_from(kept: Seq<Seq<u8>>, parts: Seq<ComponentView>) -> Result<
    Seq<Seq<u8>>,
    PathFault,
>
    decreases parts.len(),
{
    if parts.len() == 0 {
        Ok(kept)
    } else {
        match resolve_step(kept, parts[0]) {
            Ok(next) => resolve_from(next, parts.skip(1)),
            Err(fault) => Err(fault),
        }
    }
}

/// The names that a sequence of components comes down to. A path without
/// any component is not a relative path.
pub open spec fn resolved(parts: Seq<ComponentView>) -> Result<Seq<Seq<u8>>, PathFault> {
    if parts.len() == 0 {
        Err(PathFault::NotRelative)
    } else {
        resolve_from(seq![], parts)
    }
}

/// The names with one separator between each two of them.
pub open spec fn joined_names(names: Seq<Seq<u8>>) -> Seq<u8>
    decreases names.len(),
{
    if names.len() == 0 {
        seq![]
    } else if names.len() == 1 {
        names[0]
    } else {
        names[0] + seq![SEPARATOR] + joined_names(names.skip(1))
    }
}

/// The normal form of a path, as text.
pub open spec fn normalized(s: Seq<u8>) -> Result<Seq<u8>, PathFault> {
    match resolved(components_of(s)) {
        Ok(names) => Ok(joined_names(names)),
        Err(fault) => Err(fault),
    }
}

/// Joining one more name onto names that are not empty adds a separator and
/// the name.
pub proof fn lemma_joined_names_push(names: Seq<Seq<u8>>, name: Seq<u8>)
    ensures
        joined_names(names.push(name)) == if names.len() == 0 {
            name
        } else {
            joined_names(names) + seq![SEPARATOR] + name
        },
    decreases names.len(),
{
    let more = names.push(name);
    if names.len() == 0 {
    } else if names.len() == 1 {
        assert(more.skip(1) =~= seq![name]);
        assert(joined_names(more.skip(1)) == name);
    } else {
        lemma_joined_names_push(names.skip(1), name);
        assert(more.skip(1) =~= names.skip(1).push(name));
        assert(joined_names(more) =~= joined_names(names) + seq![SEPARATOR] + name);
    }
}

/// By how much a component changes the number of names kept.
pub open spec fn depth_change(part: ComponentView) -> int {
    match part {
        ComponentView::Normal(_) => 1,
        ComponentView::ParentDir => -1,
        _ => 0,
    }
}

/// The number of names in `parts` less the number of `..` in it.
pub open spec fn net_depth(parts: Seq<ComponentView>) -> int
    decreases parts.len(),
{
    if parts.len() == 0 {
        0
    } else {
        depth_change(parts[0]) + net_depth(parts.skip(1))
    }
}

/// Whether every `..` finds a name before it that no earlier `..` took:
/// read up to any point, the path holds at least as many names as `..`.
pub open spec fn stays_inside(parts: Seq<ComponentView>) -> bool {
    forall|k: int| 0 <= k <= parts.len() ==> #[trigger] net_depth(parts.take(k)) >= 0
}

/// Whether every name among the components is plain.
pub open spec fn has_plain_names(parts: Seq<ComponentView>) -> bool {
    forall|i: int|
        0 <= i < parts.len() ==> (#[trigger] parts[i] matches ComponentView::Normal(name)
            ==> is_plain_name(name))
}

/// Whether every name is plain.
pub open spec fn all_plain(names: Seq<Seq<u8>>) -> bool {
    forall|i: int| 0 <= i < names.len() ==> is_plain_name(#[trigger] names[i])
}

/// The names as components.
pub open spec fn as_components(names: Seq<Seq<u8>>) -> Seq<ComponentView> {
    names.map_values(|name: Seq<u8>| ComponentView::Normal(name))
}

/// Without a root among the components, taking them succeeds exactly when
/// the number of names kept never falls below zero, and then as many names
/// are kept as the components add; the only fault is a `..` too many.
pub proof fn lemma_resolve_from_outcome(kept: Seq<Seq<u8>>, parts: Seq<ComponentView>)
    requires
        is_rootless(parts),
    ensures
        match resolve_from(kept, parts) {
            Ok(out) => {
                &&& out.len() == kept.len() + net_depth(parts)
                &&& forall|k: int|
                    0 <= k <= parts.len() ==> kept.len() + #[trigger] net_depth(parts.take(k))
                        >= 0
            },
            Err(fault) => {
                &&& fault == PathFault::EscapesStart
                &&& exists|k: int|
                    0 <= k <= parts.len() && kept.len() + #[trigger] net_depth(parts.take(k))
                        < 0
            },
        },
    decreases parts.len(),
{
    if parts.len() == 0 {
        assert(parts.take(0) =~= parts);
        assert forall|k: int| 0 <= k <= parts.len() implies kept.len() + #[trigger] net_depth(
            parts.take(k),
        ) >= 0 by {
            assert(parts.take(k) =~= parts);
        }
    } else {
        let tail = parts.skip(1);
        assert(!(parts[0] is RootDir));
        assert forall|i: int| 0 <= i < tail.len() implies !(#[trigger] tail[i] is RootDir) by {
            assert(tail[i] == parts[i + 1]);
        }
        assert forall|k: int| 1 <= k <= parts.len() implies #[trigger] net_depth(parts.take(k))
            == depth_change(parts[0]) + net_depth(tail.take(k - 1)) by {
            assert(parts.take(k).skip(1) =~= tail.take(k - 1));
        }
        assert(net_depth(parts.take(0)) == 0);
        match resolve_step(kept, parts[0]) {
            Ok(next) => {
                lemma_resolve_from_outcome(next, tail);
                match resolve_from(next, tail) {
                    Ok(out) => {
                        assert forall|k: int| 0 <= k <= parts.len() implies kept.len()
                            + #[trigger] net_depth(parts.take(k)) >= 0 by {
                            if k > 0 {
                                assert(next.len() + net_depth(tail.take(k - 1)) >= 0);
                            }
                        }
                    },
                    Err(_) => {
                        let k = choose|k: int|
                            0 <= k <= tail.len() && next.len() + #[trigger] net_depth(
                                tail.take(k),
                            ) < 0;
                        assert(kept.len() + net_depth(parts.take(k + 1)) < 0);
                    },
                }
            },
            Err(_) => {
                assert(tail.take(0).len() == 0);
                assert(kept.len() + net_depth(parts.take(1)) < 0);
            },
        }
    }
}

/// Which paths have a normal form. An empty path and one that starts at the
/// root are not relative. Any other path has a normal form exactly when
/// each `..` in it finds a name before it to take away; if not, it escapes.
pub proof fn lemma_normalized_outcome(s: Seq<u8>)
    ensures
        normalized(s) == Err::<Seq<u8>, PathFault>(PathFault::NotRelative) <==> (s.len() == 0
            || has_root(s)),
        normalized(s) == Err::<Seq<u8>, PathFault>(PathFault::EscapesStart) <==> (s.len() > 0
            && !has_root(s) && !stays_inside(components_of(s))),
        normalized(s) is Ok <==> (s.len() > 0 && !has_root(s) && stays_inside(components_of(s))),
{
    let parts = components_of(s);
    lemma_components_shape(s);
    if s.len() > 0 && !has_root(s) {
        assert forall|i: int| 0 <= i < parts.len() implies !(#[trigger] parts[i] is RootDir) by {}
        lemma_resolve_from_outcome(seq![], parts);
    }
}

/// Taking components whose names are plain keeps only plain names.
pub proof fn lemma_resolve_from_plain(kept: Seq<Seq<u8>>, parts: Seq<ComponentView>)
    requires
        all_plain(kept),
        has_plain_names(parts),
    ensures
        resolve_from(kept, parts) matches Ok(out) ==> all_plain(out),
    decreases parts.len(),
{
    if parts.len() > 0 {
        let tail = parts.skip(1);
        assert forall|i: int| 0 <= i < tail.len() implies (#[trigger] tail[i] matches ComponentView::Normal(
            name,
        ) ==> is_plain_name(name)) by {
            assert(tail[i] == parts[i + 1]);
        }
        match resolve_step(kept, parts[0]) {
            Ok(next) => {
                assert(parts[0] matches ComponentView::Normal(name) ==> is_plain_name(name));
                lemma_resolve_from_plain(next, tail);
            },
            Err(_) => {},
        }
    }
}

/// Plain names, joined and read again from a body, are the same names.
pub proof fn lemma_joined_names_body(names: Seq<Seq<u8>>, leading: bool)
    requires
        all_plain(names),
        names.len() > 0,
    ensures
        body_components(joined_names(names), leading) == as_components(names),
        joined_names(names).len() > 0,
        joined_names(names)[0] != SEPARATOR,
    decreases names.len(),
{
    let text = joined_names(names);
    let first = names[0];
    assert(is_plain_name(first));
    assert(first[0] != SEPARATOR);
    if names.len() == 1 {
        lemma_segment_len_is(text, text.len() as int);
        assert(text.take(text.len() as int) =~= first);
        assert(as_components(names) =~= seq![ComponentView::Normal(first)]);
    } else {
        let rest = names.skip(1);
        assert forall|i: int| 0 <= i < rest.len() implies is_plain_name(#[trigger] rest[i]) by {
            assert(rest[i] == names[i + 1]);
        }
        lemma_joined_names_body(rest, false);
        let n = first.len() as int;
        assert(text == first + seq![SEPARATOR] + joined_names(rest));
        assert forall|i: int| 0 <= i < n implies text[i] != SEPARATOR by {
            assert(text[i] == first[i]);
        }
        assert(text[n] == SEPARATOR);
        lemma_segment_len_is(text, n);
        assert(text.take(n) =~= first);
        assert(text.skip(n + 1) =~= joined_names(rest));
        assert(as_components(names) =~= seq![ComponentView::Normal(first)] + as_components(
            rest,
        ));
    }
}

/// Plain names, joined and split again, are the same names.
pub proof fn lemma_joined_names_components(names: Seq<Seq<u8>>)
    requires
        all_plain(names),
    ensures
        components_of(joined_names(names)) == as_components(names),
{
    if names.len() == 0 {
        assert(as_components(names) =~= Seq::<ComponentView>::empty());
    } else {
        lemma_joined_names_body(names, true);
    }
}

/// Taking names only keeps them all.
pub proof fn lemma_resolve_from_names(kept: Seq<Seq<u8>>, names: Seq<Seq<u8>>)
    ensures
        resolve_from(kept, as_components(names)) == Ok::<Seq<Seq<u8>>, PathFault>(kept + names),
    decreases names.len(),
{
    let parts = as_components(names);
    if names.len() == 0 {
        assert(kept + names =~= kept);
    } else {
        lemma_resolve_from_names(kept.push(names[0]), names.skip(1));
        assert(parts.skip(1) =~= as_components(names.skip(1)));
        assert(kept.push(names[0]) + names.skip(1) =~= kept + names);
    }
}

/// The normal form of a path is made of plain names alone: read again, it
/// has exactly the names that were kept, with no `.`, no `..`, no root and
/// no empty name. Unless it is empty, it is its own normal form.
pub proof fn lemma_normal_form(s: Seq<u8>)
    requires
        normalized(s) is Ok,
    ensures
        ({
            let names = resolved(components_of(s))->Ok_0;
            let text = normalized(s)->Ok_0;
            &&& all_plain(names)
            &&& components_of(text) == as_components(names)
            &&& names.len() > 0 ==> normalized(text) == Ok::<Seq<u8>, PathFault>(text)
            &&& names.len() == 0 <==> text.len() == 0
        }),
{
    let parts = components_of(s);
    let names = resolved(parts)->Ok_0;
    let text = joined_names(names);
    lemma_components_shape(s);
    assert(has_plain_names(parts));
    lemma_resolve_from_plain(seq![], parts);
    lemma_joined_names_components(names);
    lemma_resolve_from_names(seq![], names);
    assert(Seq::<Seq<u8>>::empty() + names =~= names);
    if names.len() > 0 {
        lemma_joined_names_body(names, true);
    }
}

/// Taking one sequence of components after another is taking the second
/// from where the first ended.
pub proof fn lemma_resolve_from_concat(
    kept: Seq<Seq<u8>>,
    first: Seq<ComponentView>,
    second: Seq<ComponentView>,
)
    ensures
        resolve_from(kept, first + second) == match resolve_from(kept, first) {
            Ok(mid) => resolve_from(mid, second),
            Err(fault) => Err(fault),
        },
    decreases first.len(),
{
    if first.len() == 0 {
        assert(first + second =~= second);
    } else {
        assert((first + second).skip(1) =~= first.skip(1) + second);
        match resolve_step(kept, first[0]) {
            Ok(next) => lemma_resolve_from_concat(next, first.skip(1), second),
            Err(_) => {},
        }
    }
}

/// A `.` anywhere in a path changes nothing.
pub proof fn lemma_cur_dir_vanishes(
    kept: Seq<Seq<u8>>,
    before: Seq<ComponentView>,
    after: Seq<ComponentView>,
)
    ensures
        resolve_from(kept, before + seq![ComponentView::CurDir] + after) == resolve_from(
            kept,
            before + after,
        ),
{
    let dot = seq![ComponentView::CurDir];
    lemma_resolve_from_concat(kept, before, dot + after);
    lemma_resolve_from_concat(kept, before, after);
    assert(before + dot + after =~= before + (dot + after));
    if resolve_from(kept, before) is Ok {
        assert((dot + after).skip(1) =~= after);
    }
}

/// A name followed by `..` anywhere in a path changes nothing.
pub proof fn lemma_parent_cancels_name(
    kept: Seq<Seq<u8>>,
    before: Seq<ComponentView>,
    name: Seq<u8>,
    after: Seq<ComponentView>,
)
    ensures
        resolve_from(
            kept,
            before + seq![ComponentView::Normal(name), ComponentView::ParentDir] + after,
        ) == resolve_from(kept, before + after),
{
    let pair = seq![ComponentView::Normal(name), ComponentView::ParentDir];
    lemma_resolve_from_concat(kept, before, pair + after);
    lemma_resolve_from_concat(kept, before, after);
    assert(before + pair + after =~= before + (pair + after));
    if resolve_from(kept, before) is Ok {
        let mid = resolve_from(kept, before)->Ok_0;
        let up = seq![ComponentView::ParentDir];
        assert((pair + after).skip(1) =~= up + after);
        assert((up + after).skip(1) =~= after);
        assert(mid.push(name).drop_last() =~= mid);
        assert(resolve_from(mid, pair + after) == resolve_from(mid.push(name), up + after));
        assert(resolve_from(mid.push(name), up + after) == resolve_from(mid, after));
    }
}

/// Takes the components from left to right: a name is kept, `.` changes
/// nothing, `..` takes the last kept name away.
pub fn normalize_components(parts: &[Component]) -> (r: Result<Vec<Vec<u8>>, PathFault>)
    ensures
        match resolved(component_views(parts@)) {
            Ok(names) => r matches Ok(kept) && byte_views(kept@) == names,
            Err(fault) => r == Err::<Vec<Vec<u8>>, PathFault>(fault),
        },
{
    let ghost all = component_views(parts@);
    let mut kept: Vec<Vec<u8>> = Vec::new();
    let mut i: usize = 0;
    assert(byte_views(kept@) =~= Seq::<Seq<u8>>::empty());
    assert(all.skip(0) =~= all);
    while i < parts.len()
        invariant
            i <= parts.len(),
            all == component_views(parts@),
            resolve_from(seq![], all) == resolve_from(byte_views(kept@), all.skip(i as int)),
        decreases parts.len() - i,
    {
        let ghost before = byte_views(kept@);
        assert(all.skip(i as int)[0] == parts@[i as int]@);
        assert(all.skip(i as int).skip(1) =~= all.skip(i + 1));
        match &parts[i] {
            Component::Normal(name) => {
                let copy: Vec<u8> = slice_to_vec(name.as_slice());
                kept.push(copy);
                assert(byte_views(kept@) =~= before.push(name@));
            },
            Component::CurDir => {},
            Component::ParentDir => {
                if kept.len() == 0 {
                    return Err(PathFault::EscapesStart);
                }
                kept.pop();
                assert(byte_views(kept@) =~= before.drop_last());
            },
            Component::RootDir => {
                return Err(PathFault::NotRelative);
            },
        }
        i = i + 1;
    }
    if parts.len() == 0 {
        return Err(PathFault::NotRelative);
    }
    assert(all.skip(i as int) =~= Seq::<ComponentView>::empty());
    Ok(kept)
}

/// Writes the names out with one separator between each two of them.
pub fn join_names(names: &[Vec<u8>]) -> (text: Vec<u8>)
    ensures
        text@ == joined_names(byte_views(names@)),
{
    let mut text: Vec<u8> = Vec::new();
    let mut i: usize = 0;
    assert(byte_views(names@).take(0) =~= Seq::<Seq<u8>>::empty());
    while i < names.len()
        invariant
            i <= names.len(),
            text@ == joined_names(byte_views(names@).take(i as int)),
        decreases names.len() - i,
    {
        let ghost done = byte_views(names@).take(i as int);
        if i > 0 {
            text.push(SEPARATOR);
        }
        let name: &Vec<u8> = &names[i];
        append_bytes(&mut text, name.as_slice());
        proof {
            assert(byte_views(names@).take(i + 1) =~= done.push(name@));
            lemma_joined_names_push(done, name@);
            assert(text@ =~= joined_names(done.push(name@)));
        }
        i = i + 1;
    }
    assert(byte_views(names@).take(names@.len() as int) =~= byte_views(names@));
    text
}

/// Brings a relative path into normal form without looking at the file
/// system: `.` and repeated separators fall away, and each `..` takes the
/// name before it away.
///
/// An empty or absolute path is refused as not relative, and so is a path
/// in which a `..` has no name left to take away. The first component that
/// cannot be taken decides which of the two it is.
pub fn normalize_relative_path(path: &[u8]) -> (r: Result<Vec<u8>, GitToolingError>)
    ensures
        match normalized(path@) {
            Ok(text) => r matches Ok(out) && out@ == text,
            Err(PathFault::NotRelative) => r matches Err(e) && e@ == (
                ErrorView::NonRelativePath { path: path@ }
            ),
            Err(PathFault::EscapesStart) => r matches Err(e) && e@ == (
                ErrorView::PathEscapesRepository { path: path@ }
            ),
        },
        r is Ok <==> path@.len() > 0 && !has_root(path@) && stays_inside(components_of(path@)),
        r matches Err(GitToolingError::NonRelativePath { .. }) <==> path@.len() == 0 || has_root(
            path@,
        ),
        r matches Ok(out) ==> components_of(out@) == as_components(
            resolved(components_of(path@))->Ok_0,
        ),
{
    proof {
        lemma_normalized_outcome(path@);
        if normalized(path@) is Ok {
            lemma_normal_form(path@);
        }
    }
    let parts: Vec<Component> = components(path);
    match normalize_components(parts.as_slice()) {
        Ok(names) => Ok(join_names(names.as_slice())),
        Err(PathFault::NotRelative) => Err(
            GitToolingError::NonRelativePath { path: slice_to_vec(path) },
        ),
        Err(PathFault::EscapesStart) => Err(
            GitToolingError::PathEscapesRepository { path: slice_to_vec(path) },
        ),
    }
}

} // verus!
