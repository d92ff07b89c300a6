//! What holds of paths and their spellings.

use vstd::prelude::*;

use crate::path::{
    canonical, components, components_among, final_name, is_component, is_rooted, joined,
    lemma_pieces_nonempty, pieces, with_slashes, DOT, SLASH,
};

verus! {

/// A name as a directory may hold it: not empty, without a slash, and not `.`.
pub open spec fn is_name(name: Seq<u8>) -> bool {
    &&& name.len() > 0
    &&& no_slash(name)
    &&& name != seq![DOT]
}

/// No byte is a slash.
pub open spec fn no_slash(bytes: Seq<u8>) -> bool {
    forall|i: int| 0 <= i < bytes.len() ==> bytes[i] != SLASH
}

/// The pieces on both sides of a slash are those of the two sides.
proof fn lemma_pieces_split(before: Seq<u8>, after: Seq<u8>)
    ensures
        pieces(before.push(SLASH) + after) == pieces(before) + pieces(after),
    decreases after.len(),
{
    let whole = before.push(SLASH) + after;
    if after.len() == 0 {
        assert(whole =~= before.push(SLASH));
        assert(whole.drop_last() =~= before);
        assert(pieces(whole) =~= pieces(before) + pieces(after));
    } else {
        lemma_pieces_split(before, after.drop_last());
        lemma_pieces_nonempty(after.drop_last());
        assert(whole.drop_last() =~= before.push(SLASH) + after.drop_last());
        let left = pieces(before);
        let right = pieces(after.drop_last());
        assert((left + right).last() == right.last());
        assert((left + right).drop_last() =~= left + right.drop_last());
        assert(pieces(whole) =~= left + pieces(after));
    }
}

/// Bytes without a slash are one piece.
proof fn lemma_pieces_no_slash(bytes: Seq<u8>)
    requires
        no_slash(bytes),
    ensures
        pieces(bytes) == seq![bytes],
    decreases bytes.len(),
{
    if bytes.len() == 0 {
        assert(bytes =~= Seq::<u8>::empty());
    } else {
        lemma_pieces_no_slash(bytes.drop_last());
        assert(bytes.drop_last().push(bytes.last()) =~= bytes);
        assert(pieces(bytes) =~= seq![bytes]);
    }
}

/// No piece holds a slash, and the first one is empty in a rooted path.
proof fn lemma_pieces_hold_no_slash(path: Seq<u8>)
    ensures
        forall|i: int| 0 <= i < pieces(path).len() ==> no_slash(#[trigger] pieces(path)[i]),
        is_rooted(path) ==> pieces(path)[0].len() == 0 && pieces(path).len() > 1,
        !is_rooted(path) && path.len() > 0 ==> pieces(path)[0].len() > 0,
    decreases path.len(),
{
    if path.len() > 0 {
        let short = path.drop_last();
        lemma_pieces_hold_no_slash(short);
        lemma_pieces_nonempty(short);
        let before = pieces(short);
        assert forall|i: int| 0 <= i < pieces(path).len() implies no_slash(
            #[trigger] pieces(path)[i],
        ) by {
            if i < before.len() - 1 {
                assert(pieces(path)[i] == before[i]);
            } else if path.last() != SLASH {
                let last = before.last();
                assert(no_slash(before[before.len() - 1]));
                assert(pieces(path)[i] == last.push(path.last()));
            } else if i < before.len() {
                assert(pieces(path)[i] == before[i]);
            }
        }
        if path.len() == 1 {
            assert(short =~= Seq::<u8>::empty());
        } else {
            assert(short[0] == path[0]);
        }
    }
}

/// Every component is free of slashes and not empty; a `.` is one only in the
/// first place of a path that does not start at the root.
proof fn lemma_components_shape(parts: Seq<Seq<u8>>)
    requires
        forall|i: int| 0 <= i < parts.len() ==> no_slash(#[trigger] parts[i]),
    ensures
        components_among(parts).len() <= parts.len(),
        forall|i: int|
            0 <= i < components_among(parts).len() ==> {
                let part = #[trigger] components_among(parts)[i];
                &&& part.len() > 0
                &&& no_slash(part)
                &&& part == seq![DOT] ==> i == 0 && parts[0] == seq![DOT]
            },
    decreases parts.len(),
{
    if parts.len() > 0 {
        let short = parts.drop_last();
        assert forall|i: int| 0 <= i < short.len() implies no_slash(#[trigger] short[i]) by {
            assert(short[i] == parts[i]);
        }
        lemma_components_shape(short);
        let before = components_among(short);
        assert forall|i: int| 0 <= i < components_among(parts).len() implies {
            let part = #[trigger] components_among(parts)[i];
            &&& part.len() > 0
            &&& no_slash(part)
            &&& part == seq![DOT] ==> i == 0 && parts[0] == seq![DOT]
        } by {
            if i < before.len() {
                assert(components_among(parts)[i] == before[i]);
            } else {
                assert(components_among(parts)[i] == parts.last());
                assert(parts.last() == parts[parts.len() - 1]);
            }
        }
    }
}

/// Components spelled out and split again are the same components.
proof fn lemma_split_spelling(parts: Seq<Seq<u8>>)
    requires
        parts.len() > 0,
        forall|i: int| 0 <= i < parts.len() ==> no_slash(#[trigger] parts[i]),
    ensures
        pieces(with_slashes(parts)) == parts,
    decreases parts.len(),
{
    if parts.len() == 1 {
        lemma_pieces_no_slash(parts[0]);
        assert(parts =~= seq![parts[0]]);
    } else {
        let short = parts.drop_last();
        assert forall|i: int| 0 <= i < short.len() implies no_slash(#[trigger] short[i]) by {
            assert(short[i] == parts[i]);
        }
        lemma_split_spelling(short);
        assert(parts.last() == parts[parts.len() - 1]);
        lemma_pieces_no_slash(parts.last());
        lemma_pieces_split(with_slashes(short), parts.last());
        assert(short + seq![parts.last()] =~= parts);
    }
}

/// Pieces that are all components are their own components.
proof fn lemma_all_components(parts: Seq<Seq<u8>>, preceding: Seq<Seq<u8>>)
    requires
        components_among(preceding).len() == 0,
        forall|i: int|
            0 <= i < parts.len() ==> is_component(#[trigger] parts[i], (preceding.len() + i) as nat),
    ensures
        components_among(preceding + parts) == parts,
    decreases parts.len(),
{
    if parts.len() == 0 {
        assert(preceding + parts =~= preceding);
        assert(components_among(preceding + parts) =~= parts);
    } else {
        let short = parts.drop_last();
        assert forall|i: int| 0 <= i < short.len() implies is_component(
            #[trigger] short[i],
            (preceding.len() + i) as nat,
        ) by {
            assert(short[i] == parts[i]);
        }
        lemma_all_components(short, preceding);
        assert((preceding + parts).drop_last() =~= preceding + short);
        assert(is_component(parts[parts.len() - 1], (preceding.len() + parts.len() - 1) as nat));
        assert(components_among(preceding + parts) =~= parts);
    }
}

/// A path and its canonical spelling have the same root and components.
pub proof fn law_canonical_keeps_components(path: Seq<u8>)
    ensures
        is_rooted(canonical(path)) == is_rooted(path),
        components(canonical(path)) == components(path),
        canonical(canonical(path)) == canonical(path),
{
    reveal_with_fuel(components_among, 2);
    let all = components(path);
    let text = with_slashes(all);
    lemma_pieces_hold_no_slash(path);
    lemma_pieces_nonempty(path);
    lemma_components_shape(pieces(path));
    if all.len() > 0 {
        lemma_split_spelling(all);
    } else {
        lemma_pieces_no_slash(text);
    }
    let dot: Seq<u8> = seq![DOT];
    assert(dot.len() == 1);
    if is_rooted(path) {
        let root: Seq<u8> = seq![SLASH];
        let nothing = Seq::<u8>::empty();
        assert(root + text =~= nothing.push(SLASH) + text);
        lemma_pieces_split(nothing, text);
        let lead = pieces(nothing);
        assert(lead =~= seq![nothing]);
        assert(lead.drop_last() =~= Seq::<Seq<u8>>::empty());
        assert(components_among(lead).len() == 0);
        if all.len() > 0 {
            assert forall|i: int| 0 <= i < all.len() implies is_component(
                #[trigger] all[i],
                (lead.len() + i) as nat,
            ) by {}
            lemma_all_components(all, lead);
        } else {
            let both = lead + pieces(text);
            assert(both.drop_last() =~= lead);
            assert(components_among(both) =~= all);
        }
    } else {
        let none = Seq::<Seq<u8>>::empty();
        if all.len() > 0 {
            assert forall|i: int| 0 <= i < all.len() implies is_component(
                #[trigger] all[i],
                (none.len() + i) as nat,
            ) by {}
            lemma_all_components(all, none);
            assert(none + all =~= all);
            assert(all[0].len() > 0 && no_slash(all[0]));
            lemma_pieces_hold_no_slash(text);
            assert(pieces(text)[0] == all[0]);
        } else {
            assert(seq![text].drop_last() =~= none);
            assert(components_among(seq![text]) =~= all);
        }
    }
}

/// Two paths have one spelling exactly when both or neither start at the root
/// and their components are the same.
pub proof fn law_same_path(a: Seq<u8>, b: Seq<u8>)
    ensures
        canonical(a) == canonical(b) <==> is_rooted(a) == is_rooted(b) && components(a)
            == components(b),
{
    law_canonical_keeps_components(a);
    law_canonical_keeps_components(b);
}

/// Joining a name adds it as one more component.
pub proof fn law_join_adds_component(base: Seq<u8>, name: Seq<u8>)
    requires
        is_name(name),
    ensures
        components(joined(base, name)) == components(base).push(name),
        is_rooted(joined(base, name)) == is_rooted(base),
{
    let whole = joined(base, name);
    lemma_pieces_no_slash(name);
    lemma_pieces_nonempty(base);
    assert(!is_rooted(name));
    if base.len() == 0 {
        assert(whole =~= name);
        assert(pieces(whole).drop_last() =~= Seq::<Seq<u8>>::empty());
        assert(pieces(base).drop_last() =~= Seq::<Seq<u8>>::empty());
        assert(components(whole) =~= components(base).push(name));
    } else if base.last() != SLASH {
        lemma_pieces_split(base, name);
        assert(pieces(whole).drop_last() =~= pieces(base));
        assert(whole[0] == base[0]);
    } else {
        let short = base.drop_last();
        assert(base =~= short.push(SLASH));
        lemma_pieces_split(short, name);
        lemma_pieces_nonempty(short);
        assert(pieces(whole) =~= pieces(short).push(name));
        assert(pieces(whole).drop_last() =~= pieces(short));
        assert(pieces(base).drop_last() =~= pieces(short));
        assert(whole[0] == base[0]);
    }
}

/// Names joined to one base, or to equal bases, give equal paths exactly when
/// the names are the same.
pub proof fn law_join_tells_names_apart(base: Seq<u8>, other: Seq<u8>, a: Seq<u8>, b: Seq<u8>)
    requires
        canonical(base) == canonical(other),
        is_name(a),
        is_name(b),
    ensures
        canonical(joined(base, a)) == canonical(joined(other, b)) <==> a == b,
{
    law_same_path(base, other);
    law_same_path(joined(base, a), joined(other, b));
    law_join_adds_component(base, a);
    law_join_adds_component(other, b);
    if components(base).push(a) == components(base).push(b) {
        assert(components(base).push(a).last() == components(base).push(b).last());
    }
}

/// A path starts at the root exactly if its first byte is a slash.
pub proof fn law_slash_is_the_root(path: Seq<u8>)
    ensures
        path.len() == 0 ==> !is_rooted(path),
        path.len() > 0 ==> (is_rooted(path) <==> path[0] == 0x2f),
{
}

/// A joined path begins with the base and ends with the name, byte for byte, with
/// one slash between them. A name that starts at the root stands for itself.
pub proof fn law_join_puts_name_behind_base(base: Seq<u8>, name: Seq<u8>)
    ensures
        ({
            let path = joined(base, name);
            if name.len() > 0 && name[0] == 0x2f || base.len() == 0 {
                path == name
            } else {
                let between = if base.last() == 0x2f {
                    0
                } else {
                    1int
                };
                &&& path.len() == base.len() + between + name.len()
                &&& path.take(base.len() as int) == base
                &&& path.skip(base.len() + between) == name
                &&& path[base.len() + between - 1] == 0x2f
            }
        }),
{
    let path = joined(base, name);
    if !(name.len() > 0 && name[0] == 0x2f || base.len() == 0) {
        let between = if base.last() == 0x2f {
            0
        } else {
            1int
        };
        assert(path.take(base.len() as int) =~= base);
        assert(path.skip(base.len() + between) =~= name);
    } else {
        assert(path =~= name);
    }
}

/// Bytes without a slash are one component, unless there are none.
pub proof fn law_bytes_without_slash_are_one_component(bytes: Seq<u8>)
    requires
        forall|i: int| 0 <= i < bytes.len() ==> bytes[i] != 0x2f,
    ensures
        bytes.len() == 0 ==> components(bytes).len() == 0,
        bytes.len() > 0 ==> components(bytes) == seq![bytes],
{
    reveal_with_fuel(components_among, 2);
    lemma_pieces_no_slash(bytes);
    let all = pieces(bytes);
    assert(all.drop_last() =~= Seq::<Seq<u8>>::empty());
    assert(all.last() == bytes);
    if bytes.len() > 0 {
        assert(components(bytes) =~= seq![bytes]);
    }
}

/// The components behind some pieces are those of the rest, but for a leading `.`.
proof fn lemma_components_behind(preceding: Seq<Seq<u8>>, rest: Seq<Seq<u8>>)
    requires
        preceding.len() > 0,
    ensures
        ({
            let found = components_among(rest);
            let dot: Seq<u8> = seq![DOT];
            components_among(preceding + rest) == components_among(preceding) + (if found.len() > 0
                && found[0] == dot {
                found.skip(1)
            } else {
                found
            })
        }),
    decreases rest.len(),
{
    let found = components_among(rest);
    let dot: Seq<u8> = seq![DOT];
    if rest.len() == 0 {
        assert(preceding + rest =~= preceding);
        assert(components_among(preceding) + found =~= components_among(preceding));
    } else {
        let short = rest.drop_last();
        lemma_components_behind(preceding, short);
        assert((preceding + rest).drop_last() =~= preceding + short);
        assert((preceding + rest).last() == rest.last());
        let fewer = components_among(short);
        let left = components_among(preceding);
        if rest.len() == 1 {
            assert(short =~= Seq::<Seq<u8>>::empty());
            assert(fewer =~= Seq::<Seq<u8>>::empty());
            if rest.last() == dot {
                assert(found =~= seq![dot]);
                assert(found.skip(1) =~= fewer);
                assert(left + found.skip(1) =~= left + fewer);
            } else if rest.last().len() > 0 {
                assert(found =~= seq![rest.last()]);
                assert((left + fewer).push(rest.last()) =~= left + found);
            }
        } else if is_component(rest.last(), (rest.len() - 1) as nat) {
            assert(found =~= fewer.push(rest.last()));
            if fewer.len() > 0 {
                assert(found[0] == fewer[0]);
                assert(fewer.skip(1).push(rest.last()) =~= found.skip(1));
                if fewer[0] == dot {
                    assert((left + fewer.skip(1)).push(rest.last()) =~= left + found.skip(1));
                } else {
                    assert((left + fewer).push(rest.last()) =~= left + found);
                }
            } else {
                assert(found[0] == rest.last());
                assert((left + fewer).push(rest.last()) =~= left + found);
            }
        }
    }
}

/// The components of a path are those on both sides of any of its slashes, but
/// for a `.` that starts the second side. So repeated slashes, a slash at the end
/// and a `.` behind a slash make no difference, and nothing else is left out.
pub proof fn law_components_are_between_slashes(before: Seq<u8>, after: Seq<u8>)
    ensures
        components(before.push(0x2f) + after) == components(before) + (if components(after).len()
            > 0 && components(after)[0].len() == 1 && components(after)[0][0] == 0x2e {
            components(after).skip(1)
        } else {
            components(after)
        }),
{
    lemma_pieces_split(before, after);
    lemma_pieces_nonempty(before);
    lemma_components_behind(pieces(before), pieces(after));
    let found = components(after);
    let dot: Seq<u8> = seq![DOT];
    assert(dot.len() == 1 && dot[0] == 0x2e);
    if found.len() > 0 && found[0].len() == 1 && found[0][0] == 0x2e {
        assert(found[0] =~= dot);
    }
}

/// A path that is joined with a name is another path than the one that it was
/// joined to, and the name is the last component of it.
pub proof fn law_joined_name_is_final(base: Seq<u8>, name: Seq<u8>)
    requires
        name.len() > 0,
        forall|i: int| 0 <= i < name.len() ==> name[i] != 0x2f,
        !(name.len() == 1 && name[0] == 0x2e),
    ensures
        components(joined(base, name)) == components(base).push(name),
        canonical(joined(base, name)) != canonical(base),
        name.len() == 2 && name[0] == 0x2e && name[1] == 0x2e ==> final_name(
            joined(base, name),
        ) is None,
        !(name.len() == 2 && name[0] == 0x2e && name[1] == 0x2e) ==> final_name(joined(base, name))
            == Some(name),
{
    let dot: Seq<u8> = seq![DOT];
    let dots: Seq<u8> = seq![DOT, DOT];
    assert(dot.len() == 1 && dot[0] == 0x2e);
    assert(dots.len() == 2 && dots[0] == 0x2e && dots[1] == 0x2e);
    if name.len() == 2 && name[0] == 0x2e && name[1] == 0x2e {
        assert(name =~= dots);
    }
    law_join_adds_component(base, name);
    law_same_path(joined(base, name), base);
    assert(components(joined(base, name)).len() == components(base).len() + 1);
}

/// A path has a final name exactly if it has components and the last of them is
/// neither `.` nor `..`; that is then the name.
pub proof fn law_final_name_is_last_component(path: Seq<u8>)
    ensures
        components(path).len() == 0 ==> final_name(path) is None,
        components(path).len() > 0 ==> {
            let last = components(path).last();
            let is_dots = last.len() == 1 && last[0] == 0x2e || last.len() == 2 && last[0] == 0x2e
                && last[1] == 0x2e;
            &&& is_dots ==> final_name(path) is None
            &&& !is_dots ==> final_name(path) == Some(last)
        },
{
    let dot: Seq<u8> = seq![DOT];
    let dots: Seq<u8> = seq![DOT, DOT];
    assert(dot.len() == 1 && dot[0] == 0x2e);
    assert(dots.len() == 2 && dots[0] == 0x2e && dots[1] == 0x2e);
    if components(path).len() > 0 {
        let last = components(path).last();
        if last.len() == 1 && last[0] == 0x2e {
            assert(last =~= dot);
        }
        if last.len() == 2 && last[0] == 0x2e && last[1] == 0x2e {
            assert(last =~= dots);
        }
    }
}

} // verus!
