//! Paths as the entries of an archive write them: pieces parted by `/`.
use vstd::prelude::*;

use crate::text::{chars_of, string_of};

verus! {

/// What stands between the slashes of `s`, in order.
pub open spec fn pieces(s: Seq<char>) -> Seq<Seq<char>>
    decreases s.len(),
{
    if s.len() == 0 {
        seq![Seq::empty()]
    } else {
        let before = pieces(s.drop_last());
        if s.last() == '/' {
            before.push(Seq::empty())
        } else {
            before.drop_last().push(before.last().push(s.last()))
        }
    }
}

/// Whether a piece names something: it is not empty, and neither `.` nor `..`.
pub open spec fn is_normal(piece: Seq<char>) -> bool {
    piece.len() > 0 && piece != seq!['.'] && piece != seq!['.', '.']
}

/// The pieces that name something.
pub open spec fn normal_pieces(all: Seq<Seq<char>>) -> Seq<Seq<char>>
    decreases all.len(),
{
    if all.len() == 0 {
        Seq::empty()
    } else if is_normal(all.last()) {
        normal_pieces(all.drop_last()).push(all.last())
    } else {
        normal_pieces(all.drop_last())
    }
}

/// The pieces with one slash between each and the next.
pub open spec fn joined(all: Seq<Seq<char>>) -> Seq<char>
    decreases all.len(),
{
    if all.len() == 0 {
        Seq::empty()
    } else if all.len() == 1 {
        all[0]
    } else {
        joined(all.drop_last()).push('/') + all.last()
    }
}

/// The path made of the pieces of `s` that name something.
pub open spec fn normal_path(s: Seq<char>) -> Seq<char> {
    joined(normal_pieces(pieces(s)))
}

/// How many levels below its start the pieces lead, or `None` if they lead
/// above it on the way.
pub open spec fn depth(all: Seq<Seq<char>>) -> Option<nat>
    decreases all.len(),
{
    if all.len() == 0 {
        Some(0)
    } else {
        match depth(all.drop_last()) {
            None => None,
            Some(d) => if all.last() == seq!['.', '.'] {
                if d == 0 {
                    None
                } else {
                    Some((d - 1) as nat)
                }
            } else if is_normal(all.last()) {
                Some(d + 1)
            } else {
                Some(d)
            },
        }
    }
}

/// Whether a path stays below where it starts: it holds no NUL, is not
/// absolute, and never leads above its start.
pub open spec fn is_enclosed(s: Seq<char>) -> bool {
    !s.contains('\0') && !(s.len() > 0 && s[0] == '/') && depth(pieces(s)) is Some
}

/// What stands before the first NUL.
pub open spec fn before_nul(s: Seq<char>) -> Seq<char> {
    match s.index_of_first('\0') {
        Some(i) => s.take(i),
        None => s,
    }
}

/// Both kinds of slashes made one.
pub open spec fn slashes_unified(s: Seq<char>) -> Seq<char> {
    s.map_values(|c: char|
        if c == '\\' {
            '/'
        } else {
            c
        })
}

/// The path that is left of a name when all that could lead elsewhere is taken
/// out of it.
pub open spec fn sanitized(s: Seq<char>) -> Seq<char> {
    normal_path(slashes_unified(before_nul(s)))
}

/// The views of a vector of vectors.
pub open spec fn views(v: Seq<Vec<char>>) -> Seq<Seq<char>> {
    v.map_values(|p: Vec<char>| p@)
}

/// Splits a path at its slashes.
pub fn split_path(s: &[char]) -> (all: Vec<Vec<char>>)
    ensures
        views(all@) == pieces(s@),
{
    let mut all: Vec<Vec<char>> = Vec::new();
    let mut piece: Vec<char> = Vec::new();
    let mut i: usize = 0;
    assert(pieces(s@.take(0)) == seq![Seq::<char>::empty()]);
    assert(views(all@).push(piece@) =~= pieces(s@.take(0)));
    while i < s.len()
        invariant
            i <= s.len(),
            views(all@).push(piece@) == pieces(s@.take(i as int)),
        decreases s.len() - i,
    {
        let ghost so_far = pieces(s@.take(i as int));
        assert(s@.take(i + 1).drop_last() == s@.take(i as int));
        assert(s@.take(i + 1).last() == s@[i as int]);
        assert(so_far.last() == piece@);
        assert(so_far.drop_last() == views(all@));
        if s[i] == '/' {
            all.push(piece);
            piece = Vec::new();
            assert(views(all@) =~= so_far);
        } else {
            piece.push(s[i]);
        }
        i += 1;
    }
    assert(s@.take(s@.len() as int) == s@);
    all.push(piece);
    assert(views(all@) =~= pieces(s@));
    all
}

/// Whether a piece is `..`.
fn is_parent(piece: &Vec<char>) -> (r: bool)
    ensures
        r == (piece@ == seq!['.', '.']),
{
    if piece.len() == 2 && piece[0] == '.' && piece[1] == '.' {
        assert(piece@ =~= seq!['.', '.']);
        true
    } else {
        assert(piece@ == seq!['.', '.'] ==> piece@.len() == 2 && piece@[0] == '.' && piece@[1]
            == '.');
        false
    }
}

/// Whether a piece names something.
fn names_something(piece: &Vec<char>) -> (r: bool)
    ensures
        r == is_normal(piece@),
{
    if piece.len() == 1 && piece[0] == '.' {
        assert(piece@ =~= seq!['.']);
        false
    } else {
        assert(piece@ == seq!['.'] ==> piece@.len() == 1 && piece@[0] == '.');
        piece.len() > 0 && !is_parent(piece)
    }
}

proof fn joined_nonempty(all: Seq<Seq<char>>)
    requires
        forall|i: int| 0 <= i < all.len() ==> (#[trigger] all[i]).len() > 0,
    ensures
        joined(all).len() == 0 <==> all.len() == 0,
{
}

proof fn normal_pieces_are_normal(all: Seq<Seq<char>>)
    ensures
        forall|i: int|
            0 <= i < normal_pieces(all).len() ==> is_normal(#[trigger] normal_pieces(all)[i]),
    decreases all.len(),
{
    if all.len() > 0 {
        normal_pieces_are_normal(all.drop_last());
        let before = normal_pieces(all.drop_last());
        assert forall|i: int| 0 <= i < normal_pieces(all).len() implies is_normal(
            #[trigger] normal_pieces(all)[i],
        ) by {
            if i < before.len() {
                assert(is_normal(before[i]));
            }
        }
    }
}

/// Leaves of a path only the pieces that name something.
///
/// The separator of the result is `/`; a starting `/`, `.` and `..` are left
/// out.
pub fn normalize(s: &[char]) -> (r: Vec<char>)
    ensures
        r@ == normal_path(s@),
{
    let all = split_path(s);
    let mut r: Vec<char> = Vec::new();
    let mut i: usize = 0;
    while i < all.len()
        invariant
            i <= all.len(),
            r@ == joined(normal_pieces(views(all@).take(i as int))),
        decreases all.len() - i,
    {
        let ghost before = views(all@).take(i as int);
        let ghost after = views(all@).take(i + 1);
        assert(after.drop_last() == before);
        assert(after.last() == all@[i as int]@);
        if names_something(&all[i]) {
            proof {
                normal_pieces_are_normal(before);
                joined_nonempty(normal_pieces(before));
                assert(normal_pieces(after).drop_last() == normal_pieces(before));
            }
            if r.len() > 0 {
                r.push('/');
            }
            let ghost start = r@;
            extend_chars(&mut r, &all[i]);
            assert(start.len() == 0 ==> r@ =~= all@[i as int]@);
        }
        i += 1;
    }
    assert(views(all@).take(all@.len() as int) == views(all@));
    r
}

/// Appends characters.
fn extend_chars(r: &mut Vec<char>, more: &Vec<char>)
    ensures
        final(r)@ == old(r)@ + more@,
{
    let mut i: usize = 0;
    while i < more.len()
        invariant
            i <= more.len(),
            r@ == old(r)@ + more@.take(i as int),
        decreases more.len() - i,
    {
        assert(more@.take(i + 1) == more@.take(i as int).push(more@[i as int]));
        r.push(more[i]);
        i += 1;
    }
    assert(more@.take(more@.len() as int) == more@);
}

/// Whether a path stays below where it starts.
pub fn stays_enclosed(s: &str) -> (r: bool)
    ensures
        r == is_enclosed(s@),
{
    let chars = chars_of(s);
    let mut i: usize = 0;
    while i < chars.len()
        invariant
            i <= chars.len(),
            chars@ == s@,
            forall|j: int| 0 <= j < i ==> chars@[j] != '\0',
        decreases chars.len() - i,
    {
        if chars[i] == '\0' {
            assert(s@.contains('\0'));
            return false;
        }
        i += 1;
    }
    if chars.len() > 0 && chars[0] == '/' {
        return false;
    }
    let all = split_path(chars.as_slice());
    let mut level: usize = 0;
    let mut k: usize = 0;
    while k < all.len()
        invariant
            k <= all.len(),
            views(all@) == pieces(s@),
            level <= k,
            depth(views(all@).take(k as int)) == Some(level as nat),
        decreases all.len() - k,
    {
        assert(views(all@).take(k + 1).drop_last() == views(all@).take(k as int));
        assert(views(all@).take(k + 1).last() == all@[k as int]@);
        if is_parent(&all[k]) {
            if level == 0 {
                proof {
                    depth_stays_none(views(all@), k + 1);
                }
                return false;
            }
            level -= 1;
        } else if names_something(&all[k]) {
            level += 1;
        }
        k += 1;
    }
    assert(views(all@).take(all@.len() as int) == views(all@));
    true
}

proof fn depth_stays_none(all: Seq<Seq<char>>, k: int)
    requires
        0 <= k <= all.len(),
        depth(all.take(k)) is None,
    ensures
        depth(all) is None,
    decreases all.len(),
{
    if k == all.len() {
        assert(all.take(k) == all);
    } else {
        assert(all.drop_last().take(k) == all.take(k));
        depth_stays_none(all.drop_last(), k);
    }
}

/// What is left of a name when all that could lead elsewhere is taken out.
pub fn sanitize(s: &str) -> (r: String)
    ensures
        r@ == sanitized(s@),
{
    let chars = chars_of(s);
    let mut clean: Vec<char> = Vec::new();
    let mut i: usize = 0;
    proof {
        s@.index_of_first_ensures('\0');
    }
    while i < chars.len() && chars[i] != '\0'
        invariant
            i <= chars.len(),
            chars@ == s@,
            clean@ == slashes_unified(s@.take(i as int)),
            forall|j: int| 0 <= j < i ==> s@[j] != '\0',
        decreases chars.len() - i,
    {
        assert(s@.take(i + 1) == s@.take(i as int).push(s@[i as int]));
        let c = chars[i];
        if c == '\\' {
            clean.push('/');
        } else {
            clean.push(c);
        }
        assert(clean@ =~= slashes_unified(s@.take(i + 1)));
        i += 1;
    }
    proof {
        if i < s@.len() {
            assert(s@[i as int] == '\0');
            assert(s@.contains('\0'));
            let first = s@.index_of_first('\0')->0;
            if first > i {
                assert(s@.take(first)[i as int] == '\0');
            }
        } else {
            assert(s@.take(i as int) == s@);
        }
    }
    string_of(normalize(clean.as_slice()).as_slice())
}

/// The path made of the pieces of `path` that name something.
pub fn path_to_string(path: &str) -> (r: String)
    ensures
        r@ == normal_path(path@),
{
    string_of(normalize(chars_of(path).as_slice()).as_slice())
}

/// What stands between the slashes of a path holds no slash, and the path is made of it, with one
/// slash between each and the next.
pub proof fn pieces_make_the_path(s: Seq<char>)
    ensures
        pieces(s).len() > 0,
        joined(pieces(s)) == s,
        forall|i: int| 0 <= i < pieces(s).len() ==> !(#[trigger] pieces(s)[i]).contains('/'),
    decreases s.len(),
{
    if s.len() == 0 {
        assert(joined(pieces(s)) =~= s);
        assert(!pieces(s)[0].contains('/'));
    } else {
        let before = pieces(s.drop_last());
        let all = pieces(s);
        let c = s.last();
        pieces_make_the_path(s.drop_last());
        assert(s.drop_last().push(c) =~= s);
        if c == '/' {
            assert(all.drop_last() =~= before);
            assert(joined(all) =~= joined(before).push('/'));
            assert forall|i: int| 0 <= i < all.len() implies !(#[trigger] all[i]).contains('/') by {
                if i < before.len() {
                    assert(!before[i].contains('/'));
                }
            }
        } else {
            let grown = before.last().push(c);
            assert(all.drop_last() =~= before.drop_last());
            assert(joined(all) =~= joined(before).push(c));
            assert forall|i: int| 0 <= i < all.len() implies !(#[trigger] all[i]).contains('/') by {
                if i < before.len() - 1 {
                    assert(!before[i].contains('/'));
                } else {
                    let last = before.last();
                    assert(!before[before.len() - 1].contains('/'));
                    assert forall|j: int| 0 <= j < grown.len() implies grown[j] != '/' by {
                        if j < last.len() {
                            assert(last.contains(last[j]));
                        }
                    }
                }
            }
        }
    }
}

/// The pieces of a path after which a slash and more comes are the pieces of both.
proof fn pieces_go_on(s: Seq<char>, t: Seq<char>)
    ensures
        pieces(s.push('/') + t) == pieces(s) + pieces(t),
    decreases t.len(),
{
    let whole = s.push('/') + t;
    if t.len() == 0 {
        assert(whole =~= s.push('/'));
        assert(s.push('/').drop_last() =~= s);
        assert(pieces(whole) =~= pieces(s) + pieces(t));
    } else {
        pieces_go_on(s, t.drop_last());
        pieces_make_the_path(t.drop_last());
        assert(whole.drop_last() =~= s.push('/') + t.drop_last());
        assert(whole.last() == t.last());
        assert(pieces(whole) =~= pieces(s) + pieces(t));
    }
}

/// A piece without a slash is one piece.
proof fn one_piece(s: Seq<char>)
    requires
        !s.contains('/'),
    ensures
        pieces(s) == seq![s],
    decreases s.len(),
{
    if s.len() > 0 {
        assert(s.contains(s.last()));
        assert(!s.drop_last().contains('/')) by {
            if s.drop_last().contains('/') {
                let j = choose|j: int| 0 <= j < s.drop_last().len() && s.drop_last()[j] == '/';
                assert(s[j] == '/');
            }
        }
        one_piece(s.drop_last());
        assert(s.drop_last().push(s.last()) =~= s);
        assert(pieces(s) =~= seq![s]);
    } else {
        assert(s =~= Seq::empty());
    }
}

/// Pieces without slashes that are joined are parted again into the same.
pub proof fn joined_pieces_part_again(all: Seq<Seq<char>>)
    requires
        all.len() > 0,
        forall|i: int| 0 <= i < all.len() ==> !(#[trigger] all[i]).contains('/'),
    ensures
        pieces(joined(all)) == all,
    decreases all.len(),
{
    if all.len() == 1 {
        one_piece(all[0]);
        assert(all =~= seq![all[0]]);
    } else {
        let before = all.drop_last();
        assert forall|i: int| 0 <= i < before.len() implies !(#[trigger] before[i]).contains(
            '/',
        ) by {
            assert(before[i] == all[i]);
        }
        joined_pieces_part_again(before);
        assert(!all[all.len() - 1].contains('/'));
        one_piece(all.last());
        pieces_go_on(joined(before), all.last());
        assert(before + seq![all.last()] =~= all);
    }
}

/// Which pieces name something: all but the empty one, `.` and `..`. They are kept in their order,
/// and no others are.
pub proof fn normal_pieces_are_kept(a: Seq<Seq<char>>, b: Seq<Seq<char>>, piece: Seq<char>)
    ensures
        normal_pieces(a + b) == normal_pieces(a) + normal_pieces(b),
        piece.len() > 0 && piece != seq!['.'] && piece != seq!['.', '.'] ==> normal_pieces(
            seq![piece],
        ) == seq![piece],
        piece.len() == 0 || piece == seq!['.'] || piece == seq!['.', '.'] ==> normal_pieces(
            seq![piece],
        ).len() == 0,
    decreases b.len(),
{
    reveal_with_fuel(normal_pieces, 2);
    let one = seq![piece];
    assert(one.drop_last() =~= Seq::empty());
    assert(one.last() == piece);
    if is_normal(piece) {
        assert(normal_pieces(one) =~= one);
    }
    if b.len() == 0 {
        assert(a + b =~= a);
        assert(normal_pieces(a) + normal_pieces(b) =~= normal_pieces(a));
    } else {
        normal_pieces_are_kept(a, b.drop_last(), piece);
        assert((a + b).drop_last() =~= a + b.drop_last());
        assert((a + b).last() == b.last());
        assert(normal_pieces(a + b) =~= normal_pieces(a) + normal_pieces(b));
    }
}

/// Where every piece names something, all are kept.
proof fn all_normal_kept(all: Seq<Seq<char>>)
    requires
        forall|i: int| 0 <= i < all.len() ==> is_normal(#[trigger] all[i]),
    ensures
        normal_pieces(all) == all,
    decreases all.len(),
{
    if all.len() > 0 {
        let before = all.drop_last();
        assert forall|i: int| 0 <= i < before.len() implies is_normal(#[trigger] before[i]) by {
            assert(before[i] == all[i]);
        }
        all_normal_kept(before);
        assert(is_normal(all[all.len() - 1]));
        assert(before.push(all.last()) =~= all);
    }
}

/// Pieces that are kept are among those that there are.
proof fn normal_pieces_from(all: Seq<Seq<char>>)
    requires
        forall|i: int| 0 <= i < all.len() ==> !(#[trigger] all[i]).contains('/'),
    ensures
        forall|i: int|
            0 <= i < normal_pieces(all).len() ==> !(#[trigger] normal_pieces(all)[i]).contains('/'),
    decreases all.len(),
{
    if all.len() > 0 {
        let before = all.drop_last();
        assert forall|i: int| 0 <= i < before.len() implies !(#[trigger] before[i]).contains(
            '/',
        ) by {
            assert(before[i] == all[i]);
        }
        normal_pieces_from(before);
        assert(!all[all.len() - 1].contains('/'));
        let kept = normal_pieces(before);
        assert forall|i: int| 0 <= i < normal_pieces(all).len() implies !(
        #[trigger] normal_pieces(all)[i]).contains('/') by {
            if i < kept.len() {
                assert(!kept[i].contains('/'));
            }
        }
    }
}

/// A normal path is made of the pieces that name something: those that stand between the slashes
/// of the path, in their order, but for empty ones, `.` and `..`. A path that has no others stays
/// as it is.
pub proof fn normal_path_keeps_names(s: Seq<char>)
    ensures
        normal_pieces(pieces(s)).len() > 0 ==> pieces(normal_path(s)) == normal_pieces(pieces(s)),
        normal_pieces(pieces(s)).len() == 0 ==> normal_path(s).len() == 0,
        (forall|i: int|
            0 <= i < pieces(s).len() ==> (#[trigger] pieces(s)[i]).len() > 0 && pieces(s)[i]
                != seq!['.'] && pieces(s)[i] != seq!['.', '.']) ==> normal_path(s) == s,
        normal_path(normal_path(s)) == normal_path(s),
{
    let kept = normal_pieces(pieces(s));
    pieces_make_the_path(s);
    normal_pieces_from(pieces(s));
    normal_pieces_are_normal(pieces(s));
    if kept.len() > 0 {
        joined_pieces_part_again(kept);
        all_normal_kept(kept);
    } else {
        let empty = normal_path(s);
        assert(empty =~= Seq::empty());
        reveal_with_fuel(normal_pieces, 2);
        let one = pieces(empty);
        assert(one =~= seq![Seq::empty()]);
        assert(one.drop_last() =~= Seq::empty());
        assert(normal_pieces(one) =~= Seq::empty());
    }
    if forall|i: int|
        0 <= i < pieces(s).len() ==> (#[trigger] pieces(s)[i]).len() > 0 && pieces(s)[i] != seq![
            '.',
        ] && pieces(s)[i] != seq!['.', '.'] {
        all_normal_kept(pieces(s));
    }
}

/// How many of the pieces name something.
pub open spec fn downs(all: Seq<Seq<char>>) -> nat
    decreases all.len(),
{
    if all.len() == 0 {
        0
    } else {
        downs(all.drop_last()) + if all.last().len() > 0 && all.last() != seq!['.'] && all.last()
            != seq!['.', '.'] {
            1nat
        } else {
            0
        }
    }
}

/// How many of the pieces lead up.
pub open spec fn ups(all: Seq<Seq<char>>) -> nat
    decreases all.len(),
{
    if all.len() == 0 {
        0
    } else {
        ups(all.drop_last()) + if all.last() == seq!['.', '.'] {
            1nat
        } else {
            0
        }
    }
}

/// Pieces lead above their start if and only if, at some point, more of them have led up than
/// down.
pub proof fn depth_counts(all: Seq<Seq<char>>)
    ensures
        depth(all) is Some <==> forall|k: int|
            0 <= k <= all.len() ==> #[trigger] ups(all.take(k)) <= downs(all.take(k)),
        depth(all) matches Some(d) ==> d == downs(all) - ups(all),
    decreases all.len(),
{
    if all.len() == 0 {
        assert forall|k: int| 0 <= k <= all.len() implies #[trigger] ups(all.take(k)) <= downs(
            all.take(k),
        ) by {}
    } else {
        let before = all.drop_last();
        depth_counts(before);
        assert(all.take(all.len() as int) =~= all);
        assert(forall|k: int| 0 <= k <= before.len() ==> #[trigger] before.take(k) =~= all.take(k));
        assert(seq!['.', '.'].len() == 2 && seq!['.'].len() == 1);
        if depth(before) is Some {
            assert forall|k: int| 0 <= k < all.len() implies #[trigger] ups(all.take(k)) <= downs(
                all.take(k),
            ) by {
                assert(before.take(k) =~= all.take(k));
                assert(ups(before.take(k)) <= downs(before.take(k)));
            }
            assert(all.take(before.len() as int) =~= before);
            assert(ups(all.take(all.len() as int)) == ups(all));
        } else {
            let k = choose|k: int|
                0 <= k <= before.len() && !(#[trigger] ups(before.take(k)) <= downs(
                    before.take(k),
                ));
            assert(before.take(k) =~= all.take(k));
            assert(!(ups(all.take(k)) <= downs(all.take(k))));
        }
    }
}

/// Pieces that all name something never lead up.
proof fn normal_is_deep(all: Seq<Seq<char>>)
    requires
        forall|i: int| 0 <= i < all.len() ==> is_normal(#[trigger] all[i]),
    ensures
        depth(all) == Some(all.len()),
    decreases all.len(),
{
    if all.len() > 0 {
        let before = all.drop_last();
        assert forall|i: int| 0 <= i < before.len() implies is_normal(#[trigger] before[i]) by {
            assert(before[i] == all[i]);
        }
        normal_is_deep(before);
        assert(is_normal(all[all.len() - 1]));
    }
}

/// A name that is sanitized stays below where it starts, whatever it was: it holds no NUL and no
/// backslash, is not absolute, and leads nowhere but down. A name that is clean to begin with stays
/// as it is, with backslashes for slashes.
pub proof fn sanitized_is_enclosed(s: Seq<char>)
    ensures
        is_enclosed(sanitized(s)),
        !sanitized(s).contains('\0') && !sanitized(s).contains('\\'),
        sanitized(s).len() > 0 ==> sanitized(s)[0] != '/' && sanitized(s).last() != '/',
        forall|i: int|
            0 <= i < pieces(sanitized(s)).len() && sanitized(s).len() > 0 ==> is_normal(
                #[trigger] pieces(sanitized(s))[i],
            ),
        !s.contains('\0') && !s.contains('\\') && (forall|i: int|
            0 <= i < pieces(s).len() ==> is_normal(#[trigger] pieces(s)[i])) ==> sanitized(s) == s,
{
    let cut = before_nul(s);
    let t = slashes_unified(cut);
    let r = sanitized(s);
    s.index_of_first_ensures('\0');
    assert(!cut.contains('\0')) by {
        if cut.contains('\0') {
            let j = choose|j: int| 0 <= j < cut.len() && cut[j] == '\0';
            assert(s[j] == '\0');
            assert(s.contains('\0'));
            let first = s.index_of_first('\0')->0;
            assert(cut == s.take(first));
            assert(j < first);
        }
    }
    assert forall|j: int| 0 <= j < t.len() implies t[j] != '\0' && t[j] != '\\' by {
        assert(cut.contains(cut[j]));
    }
    normal_path_keeps_names(t);
    pieces_make_the_path(t);
    normal_pieces_are_normal(pieces(t));
    kept_chars(pieces(t), t);
    let kept = normal_pieces(pieces(t));
    if kept.len() > 0 {
        assert(pieces(r) == kept);
        normal_is_deep(kept);
        pieces_make_the_path(r);
        edges_are_normal(r);
    } else {
        assert(r =~= Seq::empty());
        assert(pieces(r) =~= seq![Seq::empty()]);
        reveal_with_fuel(depth, 2);
        let one = pieces(r);
        assert(one.drop_last() =~= Seq::empty());
        assert(one.last().len() == 0);
        assert(seq!['.', '.'].len() == 2);
        assert(depth(one) == Some(0nat));
    }
    if !s.contains('\0') && !s.contains('\\') && (forall|i: int|
        0 <= i < pieces(s).len() ==> is_normal(#[trigger] pieces(s)[i])) {
        assert(cut == s);
        assert(t =~= s) by {
            assert forall|j: int| 0 <= j < s.len() implies t[j] == s[j] by {
                assert(s.contains(s[j]));
            }
        }
        assert forall|i: int| 0 <= i < pieces(s).len() implies (#[trigger] pieces(s)[i]).len() > 0
            && pieces(s)[i] != seq!['.'] && pieces(s)[i] != seq!['.', '.'] by {
            assert(is_normal(pieces(s)[i]));
        }
    }
}

/// A path whose pieces all name something neither begins nor ends with a slash.
proof fn edges_are_normal(r: Seq<char>)
    requires
        r.len() > 0,
        forall|i: int| 0 <= i < pieces(r).len() ==> is_normal(#[trigger] pieces(r)[i]),
    ensures
        r[0] != '/',
        r.last() != '/',
{
    let all = pieces(r);
    if r.last() == '/' {
        assert(all.last().len() == 0);
        assert(is_normal(all[all.len() - 1]));
    }
    if r[0] == '/' {
        let t = r.skip(1);
        assert(r =~= Seq::<char>::empty().push('/') + t);
        pieces_go_on(Seq::empty(), t);
        assert(all[0].len() == 0);
        assert(is_normal(all[0]));
    }
}

/// The characters of a normal path are those of the path.
proof fn kept_chars(all: Seq<Seq<char>>, t: Seq<char>)
    requires
        forall|j: int| 0 <= j < t.len() ==> t[j] != '\0' && t[j] != '\\',
        all == pieces(t),
    ensures
        !joined(normal_pieces(all)).contains('\0'),
        !joined(normal_pieces(all)).contains('\\'),
{
    pieces_clean(t);
    normal_clean(all);
    joined_clean(normal_pieces(all));
}

/// Whether a piece holds neither a NUL nor a backslash.
spec fn clean(piece: Seq<char>) -> bool {
    forall|j: int| 0 <= j < piece.len() ==> #[trigger] piece[j] != '\0' && piece[j] != '\\'
}

proof fn pieces_clean(t: Seq<char>)
    requires
        clean(t),
    ensures
        forall|i: int| 0 <= i < pieces(t).len() ==> clean(#[trigger] pieces(t)[i]),
    decreases t.len(),
{
    if t.len() > 0 {
        let before = pieces(t.drop_last());
        pieces_clean(t.drop_last());
        pieces_make_the_path(t.drop_last());
        assert(clean(before[before.len() - 1]));
        assert(t[t.len() - 1] == t.last());
    }
}

proof fn normal_clean(all: Seq<Seq<char>>)
    requires
        forall|i: int| 0 <= i < all.len() ==> clean(#[trigger] all[i]),
    ensures
        forall|i: int| 0 <= i < normal_pieces(all).len() ==> clean(#[trigger] normal_pieces(all)[i]),
    decreases all.len(),
{
    if all.len() > 0 {
        let before = all.drop_last();
        assert forall|i: int| 0 <= i < before.len() implies clean(#[trigger] before[i]) by {
            assert(before[i] == all[i]);
        }
        normal_clean(before);
        assert(clean(all[all.len() - 1]));
        let kept = normal_pieces(before);
        assert forall|i: int| 0 <= i < normal_pieces(all).len() implies clean(
            #[trigger] normal_pieces(all)[i],
        ) by {
            if i < kept.len() {
                assert(clean(kept[i]));
            }
        }
    }
}

proof fn joined_clean(all: Seq<Seq<char>>)
    requires
        forall|i: int| 0 <= i < all.len() ==> clean(#[trigger] all[i]),
    ensures
        clean(joined(all)),
        !joined(all).contains('\0'),
        !joined(all).contains('\\'),
    decreases all.len(),
{
    if all.len() > 0 {
        let before = all.drop_last();
        assert forall|i: int| 0 <= i < before.len() implies clean(#[trigger] before[i]) by {
            assert(before[i] == all[i]);
        }
        joined_clean(before);
        assert(clean(all[all.len() - 1]));
        assert(clean(all[0]));
    }
}

/// A path stays below where it starts if and only if it holds no NUL, does not begin with a slash,
/// and at no point leads up more often than down.
pub proof fn enclosed_says(s: Seq<char>)
    ensures
        is_enclosed(s) <==> {
            &&& forall|i: int| 0 <= i < s.len() ==> #[trigger] s[i] != '\0'
            &&& s.len() > 0 ==> s[0] != '/'
            &&& forall|k: int|
                0 <= k <= pieces(s).len() ==> #[trigger] ups(pieces(s).take(k)) <= downs(
                    pieces(s).take(k),
                )
        },
{
    depth_counts(pieces(s));
}

/// A normal path leads nowhere but down: all of its pieces name something, and it neither begins
/// nor ends with a slash.
pub proof fn normal_path_leads_down(s: Seq<char>)
    requires
        normal_path(s).len() > 0,
    ensures
        forall|i: int|
            0 <= i < pieces(normal_path(s)).len() ==> (
            #[trigger] pieces(normal_path(s))[i]).len() > 0 && pieces(normal_path(s))[i] != seq![
                '.',
            ] && pieces(normal_path(s))[i] != seq!['.', '.'],
        normal_path(s)[0] != '/',
        normal_path(s).last() != '/',
        depth(pieces(normal_path(s))) == Some(pieces(normal_path(s)).len()),
{
    normal_path_keeps_names(s);
    normal_pieces_are_normal(pieces(s));
    let all = pieces(normal_path(s));
    assert forall|i: int| 0 <= i < all.len() implies is_normal(#[trigger] all[i]) by {
        assert(all[i] == normal_pieces(pieces(s))[i]);
    }
    edges_are_normal(normal_path(s));
    normal_is_deep(all);
    assert forall|i: int| 0 <= i < all.len() implies (#[trigger] all[i]).len() > 0 && all[i]
        != seq!['.'] && all[i] != seq!['.', '.'] by {
        assert(is_normal(all[i]));
    }
}

} // verus!
