//! Slash-separated paths, read component by component.
//!
//! A text stands for a path, by the rules of Unix on every system: components are
//! separated by slashes alone, and there are no drive prefixes. Where a system separates
//! them by another character, as Windows does by a backslash, a path is written with
//! slashes first (`slashed`).
//!
//! Two texts name the same path where their components are equal: repeated
//! slashes, a slash at the end and a `.` that is not the first part do not count.

use crate::text;
use crate::text::Rank;
use vstd::prelude::*;

verus! {

/// One component of a path.
pub enum Component {
    Root,
    Current,
    Parent,
    Normal(String),
}

/// One component of a path, in specifications.
pub enum Piece {
    Root,
    Current,
    Parent,
    Normal(Seq<char>),
}

impl View for Component {
    type V = Piece;

    open spec fn view(&self) -> Piece {
        match self {
            Component::Root => Piece::Root,
            Component::Current => Piece::Current,
            Component::Parent => Piece::Parent,
            Component::Normal(name) => Piece::Normal(name@),
        }
    }
}

/// The components of a list, in specifications.
pub open spec fn pieces(list: Seq<Component>) -> Seq<Piece> {
    list.map_values(|item: Component| item@)
}

/// What the part at `i` adds to the components of a path.
pub open spec fn piece_of(list: Seq<Seq<char>>, i: int) -> Seq<Piece> {
    if list[i].len() == 0 {
        if i == 0 && list.len() > 1 {
            seq![Piece::Root]
        } else {
            Seq::empty()
        }
    } else if list[i] == seq!['.'] {
        if i == 0 {
            seq![Piece::Current]
        } else {
            Seq::empty()
        }
    } else if list[i] == seq!['.', '.'] {
        seq![Piece::Parent]
    } else {
        seq![Piece::Normal(list[i])]
    }
}

/// What the first `n` parts add to the components of a path.
pub open spec fn pieces_of(list: Seq<Seq<char>>, n: nat) -> Seq<Piece>
    decreases n,
{
    if n == 0 {
        Seq::empty()
    } else {
        pieces_of(list, (n - 1) as nat) + piece_of(list, n - 1)
    }
}

/// The components of the path that a text names.
pub open spec fn path_of(s: Seq<char>) -> Seq<Piece> {
    pieces_of(text::parts(s, '/'), text::parts(s, '/').len())
}

/// The path `.`.
pub open spec fn here() -> Seq<Piece> {
    seq![Piece::Current]
}

/// The path names `prefix` or something below it.
pub open spec fn under(path: Seq<Piece>, prefix: Seq<Piece>) -> bool {
    prefix.len() <= path.len() && path.take(prefix.len() as int) == prefix
}

/// The text of a component.
pub open spec fn piece_text(piece: Piece) -> Seq<char> {
    match piece {
        Piece::Root => seq!['/'],
        Piece::Current => seq!['.'],
        Piece::Parent => seq!['.', '.'],
        Piece::Normal(name) => name,
    }
}

/// The shortest text that names a path.
pub open spec fn path_text(path: Seq<Piece>) -> Seq<char>
    decreases path.len(),
{
    if path.len() == 0 {
        Seq::empty()
    } else if path.len() == 1 {
        piece_text(path[0])
    } else if path.len() == 2 && path[0] is Root {
        seq!['/'] + piece_text(path[1])
    } else {
        path_text(path.drop_last()).push('/') + piece_text(path.last())
    }
}

/// Where a component stands among the other kinds of components.
pub open spec fn piece_kind(piece: Piece) -> int {
    match piece {
        Piece::Root => 0,
        Piece::Current => 1,
        Piece::Parent => 2,
        Piece::Normal(_) => 3,
    }
}

/// The order of components: the root, then `.`, then `..`, then names.
pub open spec fn piece_rank(a: Piece, b: Piece) -> Rank {
    if piece_kind(a) < piece_kind(b) {
        Rank::Before
    } else if piece_kind(a) > piece_kind(b) {
        Rank::After
    } else {
        text::text_rank(piece_text(a), piece_text(b))
    }
}

/// The order of paths: by the first component in which they differ, a prefix first.
pub open spec fn path_rank(a: Seq<Piece>, b: Seq<Piece>) -> Rank
    decreases a.len(),
{
    if a.len() == 0 && b.len() == 0 {
        Rank::Same
    } else if a.len() == 0 {
        Rank::Before
    } else if b.len() == 0 {
        Rank::After
    } else if piece_rank(a.first(), b.first()) != Rank::Same {
        piece_rank(a.first(), b.first())
    } else {
        path_rank(a.drop_first(), b.drop_first())
    }
}

/// Components rank the same exactly where they are equal, and swapping two turns their rank
/// round.
pub proof fn piece_rank_swaps(a: Piece, b: Piece)
    ensures
        piece_rank(a, b) == Rank::Same <==> a == b,
        piece_rank(a, b) == Rank::Before <==> piece_rank(b, a) == Rank::After,
{
    text::text_rank_swaps(piece_text(a), piece_text(b));
}

/// Paths rank the same exactly where they are equal, and swapping two paths
/// turns their rank round.
pub proof fn path_rank_swaps(a: Seq<Piece>, b: Seq<Piece>)
    ensures
        path_rank(a, b) == Rank::Same <==> a == b,
        path_rank(a, b) == Rank::Before <==> path_rank(b, a) == Rank::After,
    decreases a.len(),
{
    if a.len() > 0 && b.len() > 0 {
        piece_rank_swaps(a.first(), b.first());
        piece_rank_swaps(b.first(), a.first());
        path_rank_swaps(a.drop_first(), b.drop_first());
        assert(a =~= seq![a.first()] + a.drop_first());
        assert(b =~= seq![b.first()] + b.drop_first());
    } else if a.len() == 0 && b.len() == 0 {
        assert(a =~= b);
    }
}

/// The order of paths is transitive.
pub proof fn path_rank_chains(a: Seq<Piece>, b: Seq<Piece>, c: Seq<Piece>)
    requires
        path_rank(a, b) != Rank::After,
        path_rank(b, c) != Rank::After,
    ensures
        path_rank(a, c) != Rank::After,
        path_rank(a, b) == Rank::Before || path_rank(b, c) == Rank::Before ==> path_rank(a, c)
            == Rank::Before,
    decreases a.len(),
{
    if a.len() > 0 && b.len() > 0 && c.len() > 0 {
        let (x, y, z) = (a.first(), b.first(), c.first());
        piece_rank_swaps(x, y);
        piece_rank_swaps(y, z);
        piece_rank_swaps(x, z);
        if piece_kind(x) == piece_kind(y) && piece_kind(y) == piece_kind(z) {
            text::text_rank_chains(piece_text(x), piece_text(y), piece_text(z));
        }
        if x == y && y == z {
            path_rank_chains(a.drop_first(), b.drop_first(), c.drop_first());
        }
    }
}

/// The text with slashes in place of a separator.
pub open spec fn with_slashes(s: Seq<char>, separator: char) -> Seq<char> {
    s.map_values(
        |c: char|
            if c == separator {
                '/'
            } else {
                c
            },
    )
}

/// A path of a system with the separator, written with slashes.
pub fn slashed(path: &str, separator: char) -> (result: String)
    ensures
        result@ == with_slashes(path@, separator),
{
    let chars = text::chars_of(path);
    let mut result = String::new();
    let mut i: usize = 0;
    while i < chars.len()
        invariant
            i <= chars.len(),
            chars@ == path@,
            result@ == with_slashes(path@, separator).take(i as int),
        decreases chars.len() - i,
    {
        let ghost before = result@;
        if chars[i] == separator {
            result.push('/');
        } else {
            result.push(chars[i]);
        }
        assert(with_slashes(path@, separator).take(i + 1) =~= before.push(
            with_slashes(path@, separator)[i as int],
        ));
        i += 1;
    }
    assert(result@ =~= with_slashes(path@, separator));
    result
}

/// Where paths are separated by slashes already, they stay as they are.
pub proof fn slashed_paths_stay(s: Seq<char>)
    ensures
        with_slashes(s, '/') == s,
{
    assert(with_slashes(s, '/') =~= s);
}

/// The components of the path that a text names.
pub fn components(path: &str) -> (result: Vec<Component>)
    ensures
        pieces(result@) == path_of(path@),
{
    let list = text::split(path, '/');
    let mut result: Vec<Component> = Vec::new();
    let mut i: usize = 0;
    let ghost all = text::texts(list@);
    assert(pieces(result@) =~= pieces_of(all, 0));
    while i < list.len()
        invariant
            i <= list.len(),
            all == text::texts(list@),
            pieces(result@) == pieces_of(all, i as nat),
        decreases list.len() - i,
    {
        let part = list[i].clone();
        assert(part@ == all[i as int]);
        proof {
            reveal_strlit(".");
            reveal_strlit("..");
            assert("."@ =~= seq!['.']);
            assert(".."@ =~= seq!['.', '.']);
        }
        let ghost before = result@;
        if part.as_str().is_empty() {
            if i == 0 && list.len() > 1 {
                result.push(Component::Root);
                assert(pieces(result@) =~= pieces(before) + piece_of(all, i as int));
            } else {
                assert(pieces(result@) =~= pieces(before) + piece_of(all, i as int));
            }
        } else if text::same_text(part.as_str(), ".") {
            if i == 0 {
                result.push(Component::Current);
                assert(pieces(result@) =~= pieces(before) + piece_of(all, i as int));
            } else {
                assert(pieces(result@) =~= pieces(before) + piece_of(all, i as int));
            }
        } else if text::same_text(part.as_str(), "..") {
            result.push(Component::Parent);
            assert(pieces(result@) =~= pieces(before) + piece_of(all, i as int));
        } else {
            result.push(Component::Normal(part));
            assert(pieces(result@) =~= pieces(before) + piece_of(all, i as int));
        }
        i += 1;
    }
    result
}

fn component_text(component: &Component) -> (result: String)
    ensures
        result@ == piece_text(component@),
{
    proof {
        reveal_strlit("/");
        reveal_strlit(".");
        reveal_strlit("..");
        assert("/"@ =~= seq!['/']);
        assert("."@ =~= seq!['.']);
        assert(".."@ =~= seq!['.', '.']);
    }
    match component {
        Component::Root => "/".to_owned(),
        Component::Current => ".".to_owned(),
        Component::Parent => "..".to_owned(),
        Component::Normal(name) => name.clone(),
    }
}

fn component_kind(component: &Component) -> (n: u8)
    ensures
        n == piece_kind(component@),
{
    match component {
        Component::Root => 0,
        Component::Current => 1,
        Component::Parent => 2,
        Component::Normal(_) => 3,
    }
}

fn rank_components(a: &Component, b: &Component) -> (rank: Rank)
    ensures
        rank == piece_rank(a@, b@),
{
    let x: u8 = component_kind(a);
    let y: u8 = component_kind(b);
    if x < y {
        Rank::Before
    } else if x > y {
        Rank::After
    } else {
        text::rank_texts(component_text(a).as_str(), component_text(b).as_str())
    }
}

/// Compares two paths.
pub fn rank_paths(a: &str, b: &str) -> (rank: Rank)
    ensures
        rank == path_rank(path_of(a@), path_of(b@)),
{
    let x = components(a);
    let y = components(b);
    let mut i: usize = 0;
    let ghost p = path_of(a@);
    let ghost q = path_of(b@);
    assert(p.skip(0) =~= p);
    assert(q.skip(0) =~= q);
    while i < x.len() && i < y.len()
        invariant
            i <= x.len(),
            i <= y.len(),
            pieces(x@) == p,
            pieces(y@) == q,
            p == path_of(a@),
            q == path_of(b@),
            path_rank(p, q) == path_rank(p.skip(i as int), q.skip(i as int)),
        decreases x.len() - i,
    {
        let rank = rank_components(&x[i], &y[i]);
        assert(p.skip(i as int).first() == x@[i as int]@);
        assert(q.skip(i as int).first() == y@[i as int]@);
        match rank {
            Rank::Same => {},
            _ => {
                return rank;
            },
        }
        assert(p.skip(i as int).drop_first() =~= p.skip(i + 1));
        assert(q.skip(i as int).drop_first() =~= q.skip(i + 1));
        i += 1;
    }
    if i < y.len() {
        Rank::Before
    } else if i < x.len() {
        Rank::After
    } else {
        Rank::Same
    }
}

/// Whether `path` names `prefix` or something below it.
pub fn starts_with(path: &Vec<Component>, prefix: &Vec<Component>) -> (b: bool)
    ensures
        b == under(pieces(path@), pieces(prefix@)),
{
    if prefix.len() > path.len() {
        return false;
    }
    let ghost p = pieces(path@);
    let ghost q = pieces(prefix@);
    let mut i: usize = 0;
    while i < prefix.len()
        invariant
            i <= prefix.len() <= path.len(),
            p == pieces(path@),
            q == pieces(prefix@),
            forall|k: int| 0 <= k < i ==> p[k] == q[k],
        decreases prefix.len() - i,
    {
        let rank = rank_components(&path[i], &prefix[i]);
        proof {
            piece_rank_swaps(p[i as int], q[i as int]);
        }
        match rank {
            Rank::Same => {},
            _ => {
                assert(p.take(q.len() as int)[i as int] != q[i as int]);
                return false;
            },
        }
        i += 1;
    }
    assert(p.take(q.len() as int) =~= q);
    true
}

/// The shortest text of the path that the components from `from` up to `to` make.
pub fn text_between(path: &Vec<Component>, from: usize, to: usize) -> (result: String)
    requires
        from <= to <= path.len(),
    ensures
        result@ == path_text(pieces(path@).subrange(from as int, to as int)),
{
    let ghost p = pieces(path@);
    let mut result = String::new();
    let mut i: usize = from;
    while i < to
        invariant
            from <= i <= to <= path.len(),
            p == pieces(path@),
            result@ == path_text(p.subrange(from as int, i as int)),
        decreases to - i,
    {
        let ghost before = p.subrange(from as int, i as int);
        let ghost now = p.subrange(from as int, i + 1);
        let part = component_text(&path[i]);
        assert(part@ == piece_text(p[i as int]));
        assert(now.drop_last() =~= before);
        assert(now.last() == p[i as int]);
        if i > from {
            let after_root = i - from == 1 && matches!(path[from], Component::Root);
            assert(p[from as int] == path@[from as int]@);
            if !after_root {
                result.push('/');
            } else {
                assert(before =~= seq![Piece::Root]);
            }
        }
        let ghost so_far = result@;
        result.append(part.as_str());
        assert(so_far + part@ =~= path_text(now));
        i += 1;
    }
    result
}

/// Every path stands before the ones that follow it, none of them the same.
pub open spec fn paths_increasing(list: Seq<Seq<char>>) -> bool {
    forall|i: int, j: int|
        0 <= i < j < list.len() ==> path_rank(
            path_of(#[trigger] list[i]),
            path_of(#[trigger] list[j]),
        ) == Rank::Before
}

/// `s` is the first text of the list that names its path.
pub open spec fn first_of_path(list: Seq<Seq<char>>, s: Seq<char>) -> bool {
    exists|k: int|
        #![trigger list[k]]
        0 <= k < list.len() && list[k] == s && forall|m: int|
            #![trigger list[m]]
            0 <= m < k ==> path_of(list[m]) != path_of(s)
}

/// `output` holds each path of `input` once, by its first text, in the order of paths.
pub open spec fn sorted_paths(input: Seq<Seq<char>>, output: Seq<Seq<char>>) -> bool {
    &&& paths_increasing(output)
    &&& forall|s: Seq<char>| #[trigger] output.contains(s) <==> first_of_path(input, s)
}

fn add_path(list: &mut Vec<String>, item: &str, Ghost(seen): Ghost<Seq<Seq<char>>>)
    requires
        sorted_paths(seen, text::texts(old(list)@)),
    ensures
        sorted_paths(seen.push(item@), text::texts(final(list)@)),
{
    let ghost before = text::texts(list@);
    let ghost now = seen.push(item@);
    proof {
        assert forall|s: Seq<char>| first_of_path(seen, s) implies first_of_path(now, s) by {
            let k = choose|k: int|
                #![trigger seen[k]]
                0 <= k < seen.len() && seen[k] == s && forall|m: int|
                    #![trigger seen[m]]
                    0 <= m < k ==> path_of(seen[m]) != path_of(s);
            assert(now[k] == s);
            assert forall|m: int| #![trigger now[m]] 0 <= m < k implies path_of(now[m]) != path_of(
                s,
            ) by {
                assert(now[m] == seen[m]);
            }
        }
        assert forall|s: Seq<char>| first_of_path(now, s) implies first_of_path(seen, s) || s
            == item@ by {
            let k = choose|k: int|
                #![trigger now[k]]
                0 <= k < now.len() && now[k] == s && forall|m: int|
                    #![trigger now[m]]
                    0 <= m < k ==> path_of(now[m]) != path_of(s);
            if k < seen.len() {
                assert(seen[k] == s);
                assert forall|m: int| #![trigger seen[m]] 0 <= m < k implies path_of(seen[m])
                    != path_of(s) by {
                    assert(now[m] == seen[m]);
                }
            }
        }
    }
    let mut at: usize = 0;
    while at < list.len()
        invariant
            at <= list.len(),
            before == text::texts(list@),
            now == seen.push(item@),
            sorted_paths(seen, before),
            forall|s: Seq<char>| first_of_path(seen, s) ==> first_of_path(now, s),
            forall|s: Seq<char>| first_of_path(now, s) ==> first_of_path(seen, s) || s == item@,
            forall|k: int| 0 <= k < at ==> path_rank(path_of(#[trigger] before[k]), path_of(item@))
                == Rank::Before,
        ensures
            at < list.len() ==> path_rank(path_of(before[at as int]), path_of(item@))
                == Rank::After,
        decreases list.len() - at,
    {
        let rank = rank_paths(list[at].as_str(), item);
        assert(before[at as int] == list@[at as int]@);
        match rank {
            Rank::Before => {},
            Rank::Same => {
                proof {
                    let s = before[at as int];
                    path_rank_swaps(path_of(s), path_of(item@));
                    assert(before.contains(s));
                    assert(first_of_path(seen, s));
                    if first_of_path(now, item@) && !first_of_path(seen, item@) {
                        let k = choose|k: int|
                            #![trigger now[k]]
                            0 <= k < now.len() && now[k] == item@ && forall|m: int|
                                #![trigger now[m]]
                                0 <= m < k ==> path_of(now[m]) != path_of(item@);
                        let j = choose|j: int|
                            #![trigger seen[j]]
                            0 <= j < seen.len() && seen[j] == s && forall|m: int|
                                #![trigger seen[m]]
                                0 <= m < j ==> path_of(seen[m]) != path_of(s);
                        assert(now[j] == s);
                        if k < seen.len() {
                            assert(seen[k] == item@);
                            assert forall|m: int| #![trigger seen[m]] 0 <= m < k implies path_of(
                                seen[m],
                            ) != path_of(item@) by {
                                assert(now[m] == seen[m]);
                            }
                        }
                        assert(false);
                    }
                }
                return;
            },
            Rank::After => {
                break;
            },
        }
        at += 1;
    }
    list.insert(at, item.to_owned());
    proof {
        let after = text::texts(list@);
        assert(after =~= before.insert(at as int, item@));
        assert forall|i: int, j: int| 0 <= i < j < after.len() implies path_rank(
            path_of(#[trigger] after[i]),
            path_of(#[trigger] after[j]),
        ) == Rank::Before by {
            if i == at {
                path_rank_swaps(path_of(item@), path_of(before[at as int]));
                if j - 1 > at {
                    assert(path_rank(path_of(before[at as int]), path_of(before[j - 1]))
                        == Rank::Before);
                    path_rank_chains(
                        path_of(item@),
                        path_of(before[at as int]),
                        path_of(before[j - 1]),
                    );
                }
            } else if j == at {
                assert(after[i] == before[i]);
            } else {
                let a = if i < at { i } else { i - 1 };
                let b = if j < at { j } else { j - 1 };
                assert(path_rank(path_of(before[a]), path_of(before[b])) == Rank::Before);
            }
        }
        // No text seen before names the path of the new one.
        assert forall|m: int| 0 <= m < seen.len() implies path_of(#[trigger] seen[m]) != path_of(
            item@,
        ) by {
            if path_of(seen[m]) == path_of(item@) {
                path_has_first_text(seen, m);
                let s = choose|s: Seq<char>|
                    first_of_path(seen, s) && path_of(s) == path_of(seen[m]);
                assert(before.contains(s));
                let k = before.index_of(s);
                path_rank_swaps(path_of(before[k]), path_of(item@));
                if k > at {
                    assert(path_rank(path_of(before[at as int]), path_of(before[k]))
                        == Rank::Before);
                    path_rank_swaps(path_of(before[at as int]), path_of(before[k]));
                }
                assert(false);
            }
        }
        assert(now[seen.len() as int] == item@);
        assert forall|m: int| #![trigger now[m]] 0 <= m < seen.len() implies path_of(now[m])
            != path_of(item@) by {
            assert(now[m] == seen[m]);
        }
        assert(first_of_path(now, item@));
        assert forall|s: Seq<char>| #[trigger] after.contains(s) <==> first_of_path(now, s) by {
            if before.contains(s) {
                let k = before.index_of(s);
                assert(after[if k < at { k } else { k + 1 }] == s);
            }
            assert(after[at as int] == item@);
            if after.contains(s) && s != item@ {
                let k = after.index_of(s);
                assert(before[if k < at { k } else { k - 1 }] == s);
            }
        }
    }
}

/// Every path of a list has a first text in it.
pub proof fn path_has_first_text(list: Seq<Seq<char>>, m: int)
    requires
        0 <= m < list.len(),
    ensures
        exists|s: Seq<char>| first_of_path(list, s) && path_of(s) == path_of(list[m]),
    decreases m,
{
    if exists|k: int| 0 <= k < m && path_of(#[trigger] list[k]) == path_of(list[m]) {
        let k = choose|k: int| 0 <= k < m && path_of(#[trigger] list[k]) == path_of(list[m]);
        path_has_first_text(list, k);
        let s = choose|s: Seq<char>| first_of_path(list, s) && path_of(s) == path_of(list[k]);
        assert(first_of_path(list, s) && path_of(s) == path_of(list[m]));
    } else {
        assert(first_of_path(list, list[m]));
    }
}

/// Sorts a list of paths and drops the ones that repeat an earlier one.
pub fn sort_paths(list: &Vec<String>) -> (result: Vec<String>)
    ensures
        sorted_paths(text::texts(list@), text::texts(result@)),
{
    let mut result: Vec<String> = Vec::new();
    let mut i: usize = 0;
    let ghost all = text::texts(list@);
    while i < list.len()
        invariant
            i <= list.len(),
            all == text::texts(list@),
            sorted_paths(all.take(i as int), text::texts(result@)),
        decreases list.len() - i,
    {
        add_path(&mut result, list[i].as_str(), Ghost(all.take(i as int)));
        assert(all.take(i + 1) =~= all.take(i as int).push(list@[i as int]@));
        i += 1;
    }
    assert(all.take(i as int) =~= all);
    result
}

/// The components of a path as parsing gives them: the root and `.` come first or not at
/// all, and a name is not empty, holds no slash and is neither `.` nor `..`.
pub open spec fn proper(path: Seq<Piece>) -> bool {
    forall|i: int|
        0 <= i < path.len() ==> match #[trigger] path[i] {
            Piece::Root => i == 0,
            Piece::Current => i == 0,
            Piece::Parent => true,
            Piece::Normal(name) => name.len() > 0 && !name.contains('/') && name != seq!['.']
                && name != seq!['.', '.'],
        }
}

/// A text has parts, and none of them holds a slash.
pub proof fn parts_hold_no_slash(s: Seq<char>)
    ensures
        text::parts(s, '/').len() > 0,
        forall|i: int|
            0 <= i < text::parts(s, '/').len() ==> !(#[trigger] text::parts(s, '/')[i]).contains(
                '/',
            ),
    decreases s.len(),
{
    let n = text::until(s, '/') as int;
    text::until_stops(s, '/');
    if n < s.len() {
        let rest = s.skip(n + 1);
        parts_hold_no_slash(rest);
        let all = text::parts(s, '/');
        assert forall|i: int| 0 <= i < all.len() implies !(#[trigger] all[i]).contains('/') by {
            if i > 0 {
                assert(all[i] == text::parts(rest, '/')[i - 1]);
            }
        }
    }
}

proof fn first_parts_are_proper(list: Seq<Seq<char>>, n: nat)
    requires
        n <= list.len(),
        forall|i: int| 0 <= i < list.len() ==> !(#[trigger] list[i]).contains('/'),
    ensures
        proper(pieces_of(list, n)),
        n <= 1 ==> pieces_of(list, n).len() <= n,
    decreases n,
{
    if n > 0 {
        first_parts_are_proper(list, (n - 1) as nat);
        let before = pieces_of(list, (n - 1) as nat);
        let more = piece_of(list, n - 1);
        let all = pieces_of(list, n);
        assert forall|i: int| 0 <= i < all.len() implies match #[trigger] all[i] {
            Piece::Root => i == 0,
            Piece::Current => i == 0,
            Piece::Parent => true,
            Piece::Normal(name) => name.len() > 0 && !name.contains('/') && name != seq!['.']
                && name != seq!['.', '.'],
        } by {
            if i < before.len() {
                assert(all[i] == before[i]);
            } else {
                assert(all[i] == more[i - before.len()]);
                assert(!list[n - 1].contains('/'));
            }
        }
    }
}

/// What a text names is a proper path.
pub proof fn parsed_path_is_proper(s: Seq<char>)
    ensures
        proper(path_of(s)),
{
    parts_hold_no_slash(s);
    first_parts_are_proper(text::parts(s, '/'), text::parts(s, '/').len());
}

/// What stands behind the last slash of a text is its last part.
pub proof fn parts_joined(s: Seq<char>, t: Seq<char>)
    requires
        !t.contains('/'),
    ensures
        text::parts(s.push('/') + t, '/') == text::parts(s, '/').push(t),
    decreases s.len(),
{
    let whole = s.push('/') + t;
    let n = text::until(s, '/') as int;
    text::until_stops(s, '/');
    assert forall|k: int| 0 <= k < n implies #[trigger] whole[k] != '/' by {
        assert(s.take(n)[k] == whole[k]);
    }
    if n < s.len() {
        text::until_is(whole, '/', n);
        assert(whole.skip(n + 1) =~= s.skip(n + 1).push('/') + t);
        assert(whole.take(n) =~= s.take(n));
        parts_joined(s.skip(n + 1), t);
        assert(seq![s.take(n)] + text::parts(s.skip(n + 1), '/').push(t) =~= text::parts(
            s,
            '/',
        ).push(t));
    } else {
        text::until_is(whole, '/', n);
        assert(whole.take(n) =~= s);
        assert(whole.skip(n + 1) =~= t);
        text::until_stops(t, '/');
        if text::until(t, '/') < t.len() {
            assert(t.contains('/'));
        }
        assert(text::parts(t, '/') =~= seq![t]);
        assert(seq![s] + seq![t] =~= seq![s].push(t));
    }
}

/// One more part leaves the components of the others as they are.
pub proof fn one_more_part(list: Seq<Seq<char>>, t: Seq<char>, n: nat)
    requires
        n <= list.len(),
        list.len() > 1 || list[0].len() > 0,
    ensures
        pieces_of(list.push(t), n) == pieces_of(list, n),
    decreases n,
{
    if n > 0 {
        one_more_part(list, t, (n - 1) as nat);
        assert(list.push(t)[n - 1] == list[n - 1]);
    }
}

/// The shortest text of a proper path names that path.
pub proof fn path_is_named_by_its_text(path: Seq<Piece>)
    requires
        proper(path),
    ensures
        path_of(path_text(path)) == path,
        path.len() > 0 ==> path_text(path).len() > 0,
    decreases path.len(),
{
    let none = Seq::<char>::empty();
    assert(text::parts(none, '/') =~= seq![none]);
    if path.len() == 0 {
        assert(pieces_of(seq![none], 0) =~= Seq::empty());
        assert(path_of(none) =~= path);
    } else {
        let last = path.last();
        let name = piece_text(last);
        assert(path[path.len() - 1] == last);
        if path.len() == 1 && last is Root {
            parts_joined(none, none);
            assert(none.push('/') + none =~= seq!['/']);
            let list = seq![none].push(none);
            assert(pieces_of(list, 0) =~= Seq::empty());
            assert(pieces_of(list, 1) =~= seq![Piece::Root]);
            assert(pieces_of(list, 2) =~= seq![Piece::Root]);
            assert(path =~= seq![Piece::Root]);
        } else {
            assert(!name.contains('/'));
            if path.len() == 1 {
                text::until_stops(name, '/');
                assert(text::parts(name, '/') =~= seq![name]);
                let list = seq![name];
                assert(pieces_of(list, 0) =~= Seq::empty());
                assert(pieces_of(list, 1) =~= seq![last]);
                assert(path =~= seq![last]);
            } else if path.len() == 2 && path[0] is Root {
                parts_joined(none, name);
                assert(none.push('/') + name =~= seq!['/'] + name);
                let list = seq![none].push(name);
                assert(pieces_of(list, 0) =~= Seq::empty());
                assert(pieces_of(list, 1) =~= seq![Piece::Root]);
                assert(pieces_of(list, 2) =~= seq![Piece::Root, last]);
                assert(path =~= seq![Piece::Root, last]);
            } else {
                let before = path.drop_last();
                assert forall|i: int| 0 <= i < before.len() implies match #[trigger] before[i] {
                    Piece::Root => i == 0,
                    Piece::Current => i == 0,
                    Piece::Parent => true,
                    Piece::Normal(name) => name.len() > 0 && !name.contains('/') && name
                        != seq!['.'] && name != seq!['.', '.'],
                } by {
                    assert(before[i] == path[i]);
                }
                path_is_named_by_its_text(before);
                let start = path_text(before);
                let list = text::parts(start, '/');
                parts_hold_no_slash(start);
                parts_joined(start, name);
                if list.len() == 1 {
                    let n = text::until(start, '/') as int;
                    text::until_stops(start, '/');
                    if n < start.len() {
                        parts_hold_no_slash(start.skip(n + 1));
                    }
                    assert(list[0] == start);
                }
                one_more_part(list, name, list.len());
                assert(list.push(name)[list.len() as int] == name);
                assert(piece_of(list.push(name), list.len() as int) =~= seq![last]);
                assert(path =~= before + seq![last]);
            }
        }
    }
}

/// The text of a path ends with that of its last component.
pub proof fn path_text_ends_with_last(path: Seq<Piece>)
    requires
        path.len() > 0,
    ensures
        text::ends_with_text(path_text(path), piece_text(path.last())),
{
    let whole = path_text(path);
    let last = piece_text(path.last());
    assert(whole.subrange(whole.len() - last.len(), whole.len() as int) =~= last);
}

} // verus!
