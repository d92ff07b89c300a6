//! Paths as bytes.
//!
//! A path is compared the way `std::path` compares paths on Unix: component by
//! component. Repeated slashes, a trailing slash, and a `.` anywhere but at the
//! very start make no difference.

use vstd::prelude::*;

verus! {

/// The byte `/`.
pub const SLASH: u8 = 0x2f;

/// The byte `.`.
pub const DOT: u8 = 0x2e;

/// The pieces of a path between its slashes. There is always at least one.
pub open spec fn pieces(path: Seq<u8>) -> Seq<Seq<u8>>
    decreases path.len(),
{
    if path.len() == 0 {
        seq![Seq::<u8>::empty()]
    } else {
        let before = pieces(path.drop_last());
        if path.last() == SLASH {
            before.push(Seq::<u8>::empty())
        } else {
            before.drop_last().push(before.last().push(path.last()))
        }
    }
}

/// Whether a piece with `preceding` pieces before it is a component: it is not
/// empty, and it is a `.` only in the very first place.
pub open spec fn is_component(piece: Seq<u8>, preceding: nat) -> bool {
    piece.len() > 0 && (piece == seq![DOT] ==> preceding == 0)
}

/// The components among a path's pieces, in order.
pub open spec fn components_among(pieces: Seq<Seq<u8>>) -> Seq<Seq<u8>>
    decreases pieces.len(),
{
    if pieces.len() == 0 {
        Seq::<Seq<u8>>::empty()
    } else {
        let before = components_among(pieces.drop_last());
        if is_component(pieces.last(), (pieces.len() - 1) as nat) {
            before.push(pieces.last())
        } else {
            before
        }
    }
}

/// The components of a path, without its root.
pub open spec fn components(path: Seq<u8>) -> Seq<Seq<u8>> {
    components_among(pieces(path))
}

/// Whether a path starts at the root.
pub open spec fn is_rooted(path: Seq<u8>) -> bool {
    path.len() > 0 && path[0] == SLASH
}

/// Components with one slash between each two.
pub open spec fn with_slashes(components: Seq<Seq<u8>>) -> Seq<u8>
    decreases components.len(),
{
    if components.len() == 0 {
        Seq::<u8>::empty()
    } else if components.len() == 1 {
        components[0]
    } else {
        with_slashes(components.drop_last()).push(SLASH) + components.last()
    }
}

/// The one spelling that all equal paths share.
pub open spec fn canonical(path: Seq<u8>) -> Seq<u8> {
    if is_rooted(path) {
        seq![SLASH] + with_slashes(components(path))
    } else {
        with_slashes(components(path))
    }
}

/// `name` as seen from `base`. A rooted name stands for itself; otherwise the
/// name follows the base, with a slash between them if the base lacks one.
pub open spec fn joined(base: Seq<u8>, name: Seq<u8>) -> Seq<u8> {
    if is_rooted(name) {
        name
    } else if base.len() > 0 && base.last() != SLASH {
        base.push(SLASH) + name
    } else {
        base + name
    }
}

/// The last component, unless it is `.` or `..` or there is none.
pub open spec fn final_name(path: Seq<u8>) -> Option<Seq<u8>> {
    let all = components(path);
    if all.len() == 0 || all.last() == seq![DOT] || all.last() == seq![DOT, DOT] {
        None
    } else {
        Some(all.last())
    }
}

/// A path has at least one piece.
pub(crate) proof fn lemma_pieces_nonempty(path: Seq<u8>)
    ensures
        pieces(path).len() > 0,
    decreases path.len(),
{
    if path.len() > 0 {
        lemma_pieces_nonempty(path.drop_last());
    }
}

/// The index ranges of a path's components.
pub(crate) fn component_ranges(path: &[u8]) -> (ranges: Vec<(usize, usize)>)
    ensures
        ranges.len() == components(path@).len(),
        forall|k: int|
            0 <= k < ranges.len() ==> {
                &&& (#[trigger] ranges[k]).0 <= ranges[k].1 <= path@.len()
                &&& path@.subrange(ranges[k].0 as int, ranges[k].1 as int) == components(path@)[k]
            },
{
    let mut ranges: Vec<(usize, usize)> = Vec::new();
    let ghost mut done: Seq<Seq<u8>> = Seq::empty();
    let mut start: usize = 0;
    let mut first: bool = true;
    let mut i: usize = 0;
    proof {
        assert(path@.take(0) =~= Seq::<u8>::empty());
        assert(done.push(path@.subrange(0, 0)) =~= seq![Seq::<u8>::empty()]);
    }
    while i < path.len()
        invariant
            start <= i <= path@.len(),
            first == (done.len() == 0),
            pieces(path@.take(i as int)) == done.push(path@.subrange(start as int, i as int)),
            ranges.len() == components_among(done).len(),
            forall|k: int|
                0 <= k < ranges.len() ==> {
                    &&& (#[trigger] ranges[k]).0 <= ranges[k].1 <= path@.len()
                    &&& path@.subrange(ranges[k].0 as int, ranges[k].1 as int)
                        == components_among(done)[k]
                },
        decreases path.len() - i,
    {
        let ghost piece = path@.subrange(start as int, i as int);
        assert(path@.take(i + 1).drop_last() =~= path@.take(i as int));
        if path[i] == SLASH {
            if counts(path, start, i, first) {
                ranges.push((start, i));
            }
            proof {
                assert(done.push(piece).drop_last() =~= done);
                done = done.push(piece);
                assert(path@.subrange(i + 1, i + 1) =~= Seq::<u8>::empty());
            }
            start = i + 1;
            first = false;
        } else {
            proof {
                assert(done.push(piece).drop_last() =~= done);
                assert(piece.push(path@[i as int]) =~= path@.subrange(start as int, i + 1));
            }
        }
        i = i + 1;
    }
    proof {
        assert(path@.take(i as int) =~= path@);
        assert(done.push(path@.subrange(start as int, i as int)).drop_last() =~= done);
    }
    if counts(path, start, i, first) {
        ranges.push((start, i));
    }
    ranges
}

/// Whether `path[start..end]` is a component.
fn counts(path: &[u8], start: usize, end: usize, first: bool) -> (yes: bool)
    requires
        start <= end <= path@.len(),
    ensures
        forall|preceding: nat|
            first == (preceding == 0) ==> yes == #[trigger] is_component(
                path@.subrange(start as int, end as int),
                preceding,
            ),
{
    let ghost piece = path@.subrange(start as int, end as int);
    if start == end {
        return false;
    }
    if end - start == 1 && path[start] == DOT {
        assert(piece =~= seq![DOT]);
        return first;
    }
    assert(piece == seq![DOT] ==> piece.len() == 1 && piece[0] == DOT);
    true
}

/// Appends bytes to a vector.
pub(crate) fn append_bytes(bytes: &mut Vec<u8>, more: &[u8])
    ensures
        final(bytes)@ == old(bytes)@ + more@,
{
    let ghost before = bytes@;
    let mut i: usize = 0;
    assert(before + more@.take(0) =~= before);
    while i < more.len()
        invariant
            i <= more@.len(),
            bytes@ == before + more@.take(i as int),
        decreases more.len() - i,
    {
        bytes.push(more[i]);
        assert(more@.take(i + 1) =~= more@.take(i as int).push(more@[i as int]));
        assert(bytes@ =~= before + more@.take(i + 1));
        i = i + 1;
    }
    assert(more@.take(i as int) =~= more@);
}

/// A copy of some bytes.
pub(crate) fn copy_bytes(bytes: &[u8]) -> (copy: Vec<u8>)
    ensures
        copy@ == bytes@,
{
    let mut copy: Vec<u8> = Vec::new();
    append_bytes(&mut copy, bytes);
    assert(copy@ =~= bytes@);
    copy
}

/// Whether two runs of bytes are the same.
pub(crate) fn same_bytes(a: &[u8], b: &[u8]) -> (same: bool)
    ensures
        same == (a@ == b@),
{
    if a.len() != b.len() {
        return false;
    }
    let mut i: usize = 0;
    while i < a.len()
        invariant
            i <= a@.len(),
            a@.len() == b@.len(),
            forall|k: int| 0 <= k < i ==> a@[k] == b@[k],
        decreases a.len() - i,
    {
        if a[i] != b[i] {
            return false;
        }
        i = i + 1;
    }
    assert(a@ =~= b@);
    true
}

/// Whether a path starts at the root.
pub fn has_root(path: &[u8]) -> (rooted: bool)
    ensures
        rooted == is_rooted(path@),
{
    path.len() > 0 && path[0] == SLASH
}

/// Joins a name to a base path, as `std::path::Path::join` does on Unix.
pub fn join(base: &[u8], name: &[u8]) -> (path: Vec<u8>)
    ensures
        path@ == joined(base@, name@),
{
    if has_root(name) {
        return copy_bytes(name);
    }
    let mut path = copy_bytes(base);
    if base.len() > 0 && base[base.len() - 1] != SLASH {
        path.push(SLASH);
    }
    append_bytes(&mut path, name);
    path
}

/// The spelling by which a path is compared.
pub fn canonicalize(path: &[u8]) -> (spelling: Vec<u8>)
    ensures
        spelling@ == canonical(path@),
{
    let ranges = component_ranges(path);
    let ghost all = components(path@);
    let mut spelling: Vec<u8> = Vec::new();
    if has_root(path) {
        spelling.push(SLASH);
    }
    let ghost root = spelling@;
    let mut k: usize = 0;
    assert(spelling@ =~= root + with_slashes(all.take(0)));
    while k < ranges.len()
        invariant
            k <= ranges.len(),
            all == components(path@),
            ranges.len() == all.len(),
            forall|j: int|
                0 <= j < ranges.len() ==> {
                    &&& (#[trigger] ranges[j]).0 <= ranges[j].1 <= path@.len()
                    &&& path@.subrange(ranges[j].0 as int, ranges[j].1 as int) == all[j]
                },
            spelling@ == root + with_slashes(all.take(k as int)),
        decreases ranges.len() - k,
    {
        let ghost before = spelling@;
        if k > 0 {
            spelling.push(SLASH);
        }
        let (start, end) = ranges[k];
        append_bytes(&mut spelling, vstd::slice::slice_subrange(path, start, end));
        proof {
            assert(ranges[k as int].0 == start);
            assert(all.take(k + 1).drop_last() =~= all.take(k as int));
            assert(all.take(k + 1).last() == all[k as int]);
            assert(spelling@ =~= root + with_slashes(all.take(k + 1)));
        }
        k = k + 1;
    }
    assert(all.take(k as int) =~= all);
    assert(!is_rooted(path@) ==> spelling@ =~= with_slashes(all));
    spelling
}

/// The last component of a path, if it is an ordinary name; as
/// `std::path::Path::file_name` gives it.
pub fn file_name(path: &[u8]) -> (name: Option<Vec<u8>>)
    ensures
        match name {
            Some(bytes) => final_name(path@) == Some(bytes@),
            None => final_name(path@) is None,
        },
{
    let ranges = component_ranges(path);
    if ranges.len() == 0 {
        return None;
    }
    let (start, end) = ranges[ranges.len() - 1];
    let last = vstd::slice::slice_subrange(path, start, end);
    assert(ranges[ranges.len() - 1].0 == start);
    if is_dots(last) {
        return None;
    }
    Some(copy_bytes(last))
}

/// Whether a name is `.` or `..`.
pub fn is_dots(name: &[u8]) -> (yes: bool)
    ensures
        yes == (name@ == seq![DOT] || name@ == seq![DOT, DOT]),
{
    if name.len() == 1 && name[0] == DOT {
        assert(name@ =~= seq![DOT]);
        return true;
    }
    if name.len() == 2 && name[0] == DOT && name[1] == DOT {
        assert(name@ =~= seq![DOT, DOT]);
        return true;
    }
    assert(seq![DOT].len() == 1 && seq![DOT][0] == DOT);
    assert(seq![DOT, DOT].len() == 2 && seq![DOT, DOT][0] == DOT && seq![DOT, DOT][1] == DOT);
    false
}

} // verus!
