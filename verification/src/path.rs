//! The lexical structure of a path: its components, and the text of a
//! sequence of components.
use vstd::prelude::*;

verus! {

/// The byte that separates the components of a path.
pub const SEPARATOR: u8 = 0x2f;

/// The byte of which the names `.` and `..` are made.
pub const DOT: u8 = 0x2e;

/// One component of a path, holding its own copy of a name.
#[derive(Debug, Clone, PartialEq, Eq)]
pub enum Component {
    /// The leading separator of an absolute path.
    RootDir,
    /// A leading `.`.
    CurDir,
    /// A `..`.
    ParentDir,
    /// Any other name.
    Normal(Vec<u8>),
}

/// The mathematical value of a [`Component`].
pub ghost enum ComponentView {
    RootDir,
    CurDir,
    ParentDir,
    Normal(Seq<u8>),
}

impl View for Component {
    type V = ComponentView;

    open spec fn view(&self) -> ComponentView {
        match self {
            Component::RootDir => ComponentView::RootDir,
            Component::CurDir => ComponentView::CurDir,
            Component::ParentDir => ComponentView::ParentDir,
            Component::Normal(name) => ComponentView::Normal(name@),
        }
    }
}

/// The values of a sequence of components, in order.
pub open spec fn component_views(parts: Seq<Component>) -> Seq<ComponentView> {
    parts.map_values(|c: Component| c@)
}

/// The values of a sequence of byte vectors, in order.
pub open spec fn byte_views(items: Seq<Vec<u8>>) -> Seq<Seq<u8>> {
    items.map_values(|v: Vec<u8>| v@)
}

/// Whether the text starts at the root.
pub open spec fn has_root(s: Seq<u8>) -> bool {
    s.len() > 0 && s[0] == SEPARATOR
}

/// The number of bytes before the first separator, or the whole length when
/// there is no separator.
pub open spec fn segment_len(s: Seq<u8>) -> nat
    decreases s.len(),
{
    if s.len() == 0 || s[0] == SEPARATOR {
        0
    } else {
        1 + segment_len(s.skip(1))
    }
}

/// What one stretch of bytes between separators contributes: nothing when it
/// is empty, nothing when it is `.` anywhere but at the very start of a
/// relative path, and one component otherwise.
pub open spec fn segment_components(segment: Seq<u8>, leading: bool) -> Seq<ComponentView> {
    if segment.len() == 0 {
        seq![]
    } else if segment =~= seq![DOT] {
        if leading {
            seq![ComponentView::CurDir]
        } else {
            seq![]
        }
    } else if segment =~= seq![DOT, DOT] {
        seq![ComponentView::ParentDir]
    } else {
        seq![ComponentView::Normal(segment)]
    }
}

/// The components of a text that is read segment by segment; `leading` says
/// that the text is the start of a relative path.
pub open spec fn body_components(s: Seq<u8>, leading: bool) -> Seq<ComponentView>
    decreases s.len(),
{
    let n = segment_len(s) as int;
    let head = segment_components(s.take(n), leading);
    if n >= s.len() {
        head
    } else {
        head + body_components(s.skip(n + 1), false)
    }
}

/// The components of a path.
pub open spec fn components_of(s: Seq<u8>) -> Seq<ComponentView> {
    if has_root(s) {
        seq![ComponentView::RootDir] + body_components(s.skip(1), false)
    } else {
        body_components(s, true)
    }
}

/// A name that can stand as a `Normal` component: not empty, free of
/// separators, and neither `.` nor `..`.
pub open spec fn is_plain_name(name: Seq<u8>) -> bool {
    &&& name.len() > 0
    &&& forall|i: int| 0 <= i < name.len() ==> name[i] != SEPARATOR
    &&& !(name =~= seq![DOT])
    &&& !(name =~= seq![DOT, DOT])
}

/// A stretch of `k` bytes without a separator, ended by a separator or by the
/// end of the text, is the first segment.
pub proof fn lemma_segment_len_is(s: Seq<u8>, k: int)
    requires
        0 <= k <= s.len(),
        forall|i: int| 0 <= i < k ==> s[i] != SEPARATOR,
        k == s.len() || s[k] == SEPARATOR,
    ensures
        segment_len(s) == k,
    decreases k,
{
    if k > 0 {
        lemma_segment_len_is(s.skip(1), k - 1);
    }
}

/// The first segment holds no separator, and a separator follows it unless
/// the text ends there.
pub proof fn lemma_segment_content(s: Seq<u8>)
    ensures
        segment_len(s) <= s.len(),
        forall|i: int| 0 <= i < segment_len(s) ==> s[i] != SEPARATOR,
        segment_len(s) < s.len() ==> s[segment_len(s) as int] == SEPARATOR,
    decreases s.len(),
{
    if s.len() > 0 && s[0] != SEPARATOR {
        let rest = s.skip(1);
        lemma_segment_content(rest);
        assert forall|i: int| 0 <= i < segment_len(s) implies s[i] != SEPARATOR by {
            if i > 0 {
                assert(s[i] == rest[i - 1]);
            }
        }
        if segment_len(s) < s.len() {
            assert(s[segment_len(s) as int] == rest[segment_len(rest) as int]);
        }
    }
}

/// What a sequence of components looks like when it was read from a text:
/// every name is plain, and a root or a `.` can only come first.
pub open spec fn well_formed(parts: Seq<ComponentView>) -> bool {
    forall|i: int|
        0 <= i < parts.len() ==> match #[trigger] parts[i] {
            ComponentView::Normal(name) => is_plain_name(name),
            ComponentView::RootDir => i == 0,
            ComponentView::CurDir => i == 0,
            ComponentView::ParentDir => true,
        }
}

/// Whether no component is a root.
pub open spec fn is_rootless(parts: Seq<ComponentView>) -> bool {
    forall|i: int| 0 <= i < parts.len() ==> !(#[trigger] parts[i] is RootDir)
}

/// The components read from the body of a path: names are plain, there is
/// no root among them, and `.` can only be the first of a leading body. A
/// leading body that starts with a name byte has at least one component.
pub proof fn lemma_body_components_shape(s: Seq<u8>, leading: bool)
    ensures
        well_formed(body_components(s, leading)),
        is_rootless(body_components(s, leading)),
        forall|i: int|
            0 <= i < body_components(s, leading).len() && (#[trigger] body_components(
                s,
                leading,
            )[i]) is CurDir ==> leading,
        leading && s.len() > 0 && s[0] != SEPARATOR ==> body_components(s, leading).len() > 0,
    decreases s.len(),
{
    let all = body_components(s, leading);
    let n = segment_len(s) as int;
    lemma_segment_content(s);
    let segment = s.take(n);
    let head = segment_components(segment, leading);
    assert(forall|i: int| 0 <= i < segment.len() ==> segment[i] == s[i]);
    if n < s.len() {
        let rest = body_components(s.skip(n + 1), false);
        lemma_body_components_shape(s.skip(n + 1), false);
        assert(all == head + rest);
        assert forall|i: int| 0 <= i < all.len() implies (match #[trigger] all[i] {
            ComponentView::Normal(name) => is_plain_name(name),
            ComponentView::RootDir => false,
            ComponentView::CurDir => i == 0 && leading,
            ComponentView::ParentDir => true,
        }) by {
            if i >= head.len() {
                assert(all[i] == rest[i - head.len()]);
            }
        }
    }
}

/// The components of a path are well formed, and the first is a root
/// exactly when the path starts with a separator. Only the empty path and
/// paths made of nothing but separators after the root have no further
/// component; a relative path that is not empty has at least one.
pub proof fn lemma_components_shape(s: Seq<u8>)
    ensures
        well_formed(components_of(s)),
        has_root(s) <==> components_of(s).len() > 0 && components_of(s)[0] is RootDir,
        s.len() > 0 ==> components_of(s).len() > 0,
        s.len() == 0 ==> components_of(s).len() == 0,
{
    let all = components_of(s);
    if has_root(s) {
        let rest = body_components(s.skip(1), false);
        lemma_body_components_shape(s.skip(1), false);
        assert forall|i: int| 0 <= i < all.len() implies (match #[trigger] all[i] {
            ComponentView::Normal(name) => is_plain_name(name),
            ComponentView::RootDir => i == 0,
            ComponentView::CurDir => i == 0,
            ComponentView::ParentDir => true,
        }) by {
            if i > 0 {
                assert(all[i] == rest[i - 1]);
            }
        }
    } else {
        lemma_body_components_shape(s, true);
    }
}

/// The bytes that stand for one component.
pub open spec fn component_text(part: ComponentView) -> Seq<u8> {
    match part {
        ComponentView::RootDir => seq![SEPARATOR],
        ComponentView::CurDir => seq![DOT],
        ComponentView::ParentDir => seq![DOT, DOT],
        ComponentView::Normal(name) => name,
    }
}

/// The separator that follows a component when another one comes after it:
/// none after the root, which is a separator itself.
pub open spec fn gap_after(part: ComponentView) -> Seq<u8> {
    if part is RootDir {
        seq![]
    } else {
        seq![SEPARATOR]
    }
}

/// The text of a sequence of components.
pub open spec fn components_text(parts: Seq<ComponentView>) -> Seq<u8>
    decreases parts.len(),
{
    if parts.len() == 0 {
        seq![]
    } else if parts.len() == 1 {
        component_text(parts[0])
    } else {
        component_text(parts[0]) + gap_after(parts[0]) + components_text(parts.skip(1))
    }
}

/// The text of a sequence with one more component at its end.
pub proof fn lemma_components_text_push(parts: Seq<ComponentView>, part: ComponentView)
    ensures
        components_text(parts.push(part)) == if parts.len() == 0 {
            component_text(part)
        } else {
            components_text(parts) + gap_after(parts.last()) + component_text(part)
        },
    decreases parts.len(),
{
    let more = parts.push(part);
    if parts.len() == 0 {
    } else if parts.len() == 1 {
        assert(more.skip(1) =~= seq![part]);
        assert(components_text(more.skip(1)) == component_text(part));
    } else {
        lemma_components_text_push(parts.skip(1), part);
        assert(more.skip(1) =~= parts.skip(1).push(part));
        assert(parts.skip(1).last() == parts.last());
        assert(components_text(more) =~= components_text(parts) + gap_after(parts.last())
            + component_text(part));
    }
}

/// Whether the components can be those of a body: plain names, no root,
/// and `.` only as the first component of a leading body.
pub open spec fn is_body(parts: Seq<ComponentView>, leading: bool) -> bool {
    forall|i: int|
        0 <= i < parts.len() ==> match #[trigger] parts[i] {
            ComponentView::Normal(name) => is_plain_name(name),
            ComponentView::RootDir => false,
            ComponentView::CurDir => i == 0 && leading,
            ComponentView::ParentDir => true,
        }
}

/// The text of the components of a body, read again, gives the same
/// components.
pub proof fn lemma_components_text_body(parts: Seq<ComponentView>, leading: bool)
    requires
        is_body(parts, leading),
        parts.len() > 0,
    ensures
        body_components(components_text(parts), leading) == parts,
        components_text(parts).len() > 0,
        components_text(parts)[0] != SEPARATOR,
    decreases parts.len(),
{
    let text = components_text(parts);
    let first = component_text(parts[0]);
    let n = first.len() as int;
    assert(is_plain_name(first) || first =~= seq![DOT] || first =~= seq![DOT, DOT]);
    assert(forall|i: int| 0 <= i < n ==> first[i] != SEPARATOR);
    assert(segment_components(first, leading) =~= seq![parts[0]]);
    if parts.len() == 1 {
        lemma_segment_len_is(text, n);
        assert(text.take(n) =~= first);
        assert(parts =~= seq![parts[0]]);
    } else {
        let rest = parts.skip(1);
        assert forall|i: int| 0 <= i < rest.len() implies (match #[trigger] rest[i] {
            ComponentView::Normal(name) => is_plain_name(name),
            ComponentView::RootDir => false,
            ComponentView::CurDir => false,
            ComponentView::ParentDir => true,
        }) by {
            assert(rest[i] == parts[i + 1]);
        }
        lemma_components_text_body(rest, false);
        assert(text == first + seq![SEPARATOR] + components_text(rest));
        assert forall|i: int| 0 <= i < n implies text[i] != SEPARATOR by {
            assert(text[i] == first[i]);
        }
        assert(text[n] == SEPARATOR);
        lemma_segment_len_is(text, n);
        assert(text.take(n) =~= first);
        assert(text.skip(n + 1) =~= components_text(rest));
        assert(parts =~= seq![parts[0]] + rest);
    }
}

/// The text of well formed components, split again, gives the same
/// components; and the text is empty only when there is no component.
pub proof fn lemma_components_text_round_trip(parts: Seq<ComponentView>)
    requires
        well_formed(parts),
    ensures
        components_of(components_text(parts)) == parts,
        components_text(parts).len() == 0 <==> parts.len() == 0,
{
    let text = components_text(parts);
    if parts.len() == 0 {
    } else if parts[0] is RootDir {
        let rest = parts.skip(1);
        assert forall|i: int| 0 <= i < rest.len() implies (match #[trigger] rest[i] {
            ComponentView::Normal(name) => is_plain_name(name),
            ComponentView::RootDir => false,
            ComponentView::CurDir => false,
            ComponentView::ParentDir => true,
        }) by {
            assert(rest[i] == parts[i + 1]);
        }
        if rest.len() == 0 {
            assert(text.skip(1) =~= Seq::<u8>::empty());
            assert(parts =~= seq![ComponentView::RootDir]);
        } else {
            lemma_components_text_body(rest, false);
            assert(text =~= seq![SEPARATOR] + components_text(rest));
            assert(text.skip(1) =~= components_text(rest));
            assert(parts =~= seq![ComponentView::RootDir] + rest);
        }
    } else {
        assert forall|i: int| 0 <= i < parts.len() implies (match #[trigger] parts[i] {
            ComponentView::Normal(name) => is_plain_name(name),
            ComponentView::RootDir => false,
            ComponentView::CurDir => i == 0,
            ComponentView::ParentDir => true,
        }) by {}
        lemma_components_text_body(parts, true);
    }
}

/// The end of the segment that starts at `start`.
fn segment_end(path: &[u8], start: usize) -> (end: usize)
    requires
        start <= path.len(),
    ensures
        start <= end <= path.len(),
        end - start == segment_len(path@.skip(start as int)),
{
    let mut end: usize = start;
    while end < path.len() && path[end] != SEPARATOR
        invariant
            start <= end <= path.len(),
            forall|i: int| start <= i < end ==> path@[i] != SEPARATOR,
        decreases path.len() - end,
    {
        end = end + 1;
    }
    proof {
        lemma_segment_len_is(path@.skip(start as int), end - start);
    }
    end
}

/// Whether the bytes from `start` to `end` are exactly those of `word`.
fn span_is(path: &[u8], start: usize, end: usize, word: &[u8]) -> (same: bool)
    requires
        start <= end <= path.len(),
    ensures
        same == (path@.subrange(start as int, end as int) == word@),
{
    if end - start != word.len() {
        return false;
    }
    let mut i: usize = 0;
    while i < word.len()
        invariant
            start <= end <= path.len(),
            end - start == word.len(),
            i <= word.len(),
            forall|j: int| 0 <= j < i ==> path@[start + j] == word@[j],
        decreases word.len() - i,
    {
        if path[start + i] != word[i] {
            assert(path@.subrange(start as int, end as int)[i as int] != word@[i as int]);
            return false;
        }
        i = i + 1;
    }
    assert(path@.subrange(start as int, end as int) =~= word@);
    true
}

/// A copy of the bytes from `start` to `end`.
fn copy_span(path: &[u8], start: usize, end: usize) -> (out: Vec<u8>)
    requires
        start <= end <= path.len(),
    ensures
        out@ == path@.subrange(start as int, end as int),
{
    let mut out: Vec<u8> = Vec::new();
    let mut i: usize = start;
    while i < end
        invariant
            start <= i <= end <= path.len(),
            out@ == path@.subrange(start as int, i as int),
        decreases end - i,
    {
        out.push(path[i]);
        assert(out@ =~= path@.subrange(start as int, i + 1));
        i = i + 1;
    }
    out
}

/// Splits a path into its components.
///
/// A leading separator gives `RootDir`. Repeated and trailing separators are
/// passed over, and so is `.` unless the path starts with it.
pub fn components(path: &[u8]) -> (parts: Vec<Component>)
    ensures
        component_views(parts@) == components_of(path@),
{
    let n: usize = path.len();
    let mut parts: Vec<Component> = Vec::new();
    let mut pos: usize = 0;
    let mut leading: bool = true;
    if n > 0 && path[0] == SEPARATOR {
        parts.push(Component::RootDir);
        pos = 1;
        leading = false;
        assert(component_views(parts@) =~= seq![ComponentView::RootDir]);
    } else {
        assert(component_views(parts@) =~= Seq::<ComponentView>::empty());
        assert(path@.skip(0) =~= path@);
    }
    let mut done: bool = false;
    while !done
        invariant
            n == path.len(),
            pos <= n,
            !done ==> components_of(path@) == component_views(parts@) + body_components(
                path@.skip(pos as int),
                leading,
            ),
            done ==> components_of(path@) == component_views(parts@),
        decreases n - pos + (if done { 0int } else { 1int }),
    {
        let end: usize = segment_end(path, pos);
        let ghost rest = path@.skip(pos as int);
        let ghost before = component_views(parts@);
        proof {
            assert(rest.take(end - pos) =~= path@.subrange(pos as int, end as int));
        }
        let dot: [u8; 1] = [DOT];
        let dots: [u8; 2] = [DOT, DOT];
        if end == pos {
        } else if span_is(path, pos, end, &dot) {
            assert(dot@ =~= seq![DOT]);
            if leading {
                parts.push(Component::CurDir);
            }
        } else if span_is(path, pos, end, &dots) {
            assert(dot@ =~= seq![DOT]);
            assert(dots@ =~= seq![DOT, DOT]);
            parts.push(Component::ParentDir);
        } else {
            assert(dot@ =~= seq![DOT]);
            assert(dots@ =~= seq![DOT, DOT]);
            let name: Vec<u8> = copy_span(path, pos, end);
            parts.push(Component::Normal(name));
        }
        proof {
            assert(component_views(parts@) =~= before + segment_components(
                rest.take(end - pos),
                leading,
            ));
        }
        if end >= n {
            done = true;
        } else {
            proof {
                assert(rest.skip(end - pos + 1) =~= path@.skip(end + 1));
            }
            pos = end + 1;
            leading = false;
        }
    }
    parts
}

/// Whether two byte strings are the same.
pub fn bytes_equal(a: &[u8], b: &[u8]) -> (same: bool)
    ensures
        same == (a@ == b@),
{
    if a.len() != b.len() {
        return false;
    }
    assert(a@.subrange(0, a@.len() as int) =~= a@);
    span_is(a, 0, a.len(), b)
}

/// Whether two components are the same.
pub fn component_equal(a: &Component, b: &Component) -> (same: bool)
    ensures
        same == (a@ == b@),
{
    match (a, b) {
        (Component::RootDir, Component::RootDir) => true,
        (Component::CurDir, Component::CurDir) => true,
        (Component::ParentDir, Component::ParentDir) => true,
        (Component::Normal(x), Component::Normal(y)) => bytes_equal(x.as_slice(), y.as_slice()),
        _ => false,
    }
}

/// Appends the bytes of `tail` to `text`.
pub fn append_bytes(text: &mut Vec<u8>, tail: &[u8])
    ensures
        final(text)@ == old(text)@ + tail@,
{
    let ghost start = text@;
    let mut i: usize = 0;
    assert(tail@.take(0) =~= Seq::<u8>::empty());
    assert(text@ =~= start + tail@.take(0));
    while i < tail.len()
        invariant
            i <= tail.len(),
            text@ == start + tail@.take(i as int),
        decreases tail.len() - i,
    {
        text.push(tail[i]);
        assert(text@ =~= start + tail@.take(i + 1));
        i = i + 1;
    }
    assert(tail@.take(tail@.len() as int) =~= tail@);
}

/// Writes a sequence of components out as a path.
pub fn path_text(parts: &[Component]) -> (text: Vec<u8>)
    ensures
        text@ == components_text(component_views(parts@)),
{
    let ghost all = component_views(parts@);
    let mut text: Vec<u8> = Vec::new();
    let mut i: usize = 0;
    assert(all.take(0) =~= Seq::<ComponentView>::empty());
    while i < parts.len()
        invariant
            i <= parts.len(),
            all == component_views(parts@),
            text@ == components_text(all.take(i as int)),
        decreases parts.len() - i,
    {
        let ghost done = all.take(i as int);
        proof {
            assert(all.take(i + 1) =~= done.push(parts@[i as int]@));
            lemma_components_text_push(done, parts@[i as int]@);
            if i > 0 {
                assert(done.last() == parts@[i - 1]@);
            }
        }
        if i > 0 {
            match &parts[i - 1] {
                Component::RootDir => {},
                _ => {
                    text.push(SEPARATOR);
                },
            }
        }
        let ghost gapped = text@;
        match &parts[i] {
            Component::RootDir => {
                text.push(SEPARATOR);
            },
            Component::CurDir => {
                text.push(DOT);
            },
            Component::ParentDir => {
                text.push(DOT);
                text.push(DOT);
            },
            Component::Normal(name) => {
                append_bytes(&mut text, name.as_slice());
            },
        }
        assert(text@ =~= gapped + component_text(parts@[i as int]@));
        assert(text@ =~= components_text(all.take(i + 1)));
        i = i + 1;
    }
    assert(all.take(parts@.len() as int) =~= all);
    text
}

} // verus!
