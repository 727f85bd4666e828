//! Paths and their order.

use crate::laws::words;
use crate::path;
use crate::path::{Component, Piece};
use crate::text;
use crate::text::Rank;
use vstd::prelude::*;

verus! {

/// What one name adds to a path that is there already.
pub open spec fn step(name: Seq<char>) -> Seq<Piece> {
    if name.len() == 0 || name == seq!['.'] {
        Seq::empty()
    } else if name == seq!['.', '.'] {
        seq![Piece::Parent]
    } else {
        seq![Piece::Normal(name)]
    }
}

/// The components of a path are added name by name: behind a slash a name adds itself, `..`
/// the parent, and `.` or nothing adds nothing.
pub proof fn names_are_added_behind_slashes(s: Seq<char>, name: Seq<char>)
    requires
        s.len() > 0,
        !name.contains('/'),
    ensures
        path::path_of(s.push('/') + name) == path::path_of(s) + step(name),
{
    let list = text::parts(s, '/');
    path::parts_joined(s, name);
    path::parts_hold_no_slash(s);
    if list.len() == 1 {
        let n = text::until(s, '/') as int;
        text::until_stops(s, '/');
        if n < s.len() {
            path::parts_hold_no_slash(s.skip(n + 1));
        }
        assert(list[0] == s);
    }
    path::one_more_part(list, name, list.len());
    let longer = list.push(name);
    assert(longer[list.len() as int] == name);
    assert(path::piece_of(longer, list.len() as int) =~= step(name));
}

/// A single name is a path of one component: itself, `.` or `..`; the empty text is the empty
/// path.
pub proof fn single_names_are_paths(name: Seq<char>)
    requires
        !name.contains('/'),
    ensures
        path::path_of(name) == if name.len() == 0 {
            Seq::<Piece>::empty()
        } else if name == seq!['.'] {
            seq![Piece::Current]
        } else if name == seq!['.', '.'] {
            seq![Piece::Parent]
        } else {
            seq![Piece::Normal(name)]
        },
{
    assert forall|i: int| 0 <= i < name.len() implies #[trigger] name[i] != '/' by {
        if name[i] == '/' {
            assert(name.contains('/'));
        }
    }
    words::splitting_cuts_at_separators(name, '/', Seq::empty());
    let list = seq![name];
    assert(path::pieces_of(list, 0) =~= Seq::empty());
    assert(path::pieces_of(list, 1) =~= path::piece_of(list, 0));
    assert(path::path_of(name) =~= path::piece_of(list, 0));
}

/// A slash in front is the root, and the name behind it follows.
pub proof fn a_slash_in_front_is_the_root(name: Seq<char>)
    requires
        !name.contains('/'),
    ensures
        path::path_of(seq!['/'] + name) == seq![Piece::Root] + step(name),
{
    let none = Seq::<char>::empty();
    words::splitting_cuts_at_separators(none, '/', name);
    path::parts_joined(none, name);
    assert(none.push('/') + name =~= seq!['/'] + name);
    let list = seq![none].push(name);
    assert(text::parts(none, '/') =~= seq![none]);
    assert(path::pieces_of(list, 0) =~= Seq::empty());
    assert(path::pieces_of(list, 1) =~= seq![Piece::Root]);
    assert(path::piece_of(list, 1) =~= step(name));
    assert(path::pieces_of(list, 2) =~= seq![Piece::Root] + step(name));
}

/// What is read of a path is its components.
pub proof fn components_are_those_of_the_path(s: &str, result: Vec<Component>, i: int)
    requires
        call_ensures(path::components, (s,), result),
        0 <= i < result@.len(),
    ensures
        result@.len() == path::path_of(s@).len(),
        match result@[i] {
            Component::Root => path::path_of(s@)[i] == Piece::Root,
            Component::Current => path::path_of(s@)[i] == Piece::Current,
            Component::Parent => path::path_of(s@)[i] == Piece::Parent,
            Component::Normal(name) => path::path_of(s@)[i] == Piece::Normal(name@),
        },
{
    assert(path::pieces(result@).len() == result@.len());
    assert(path::pieces(result@)[i] == result@[i]@);
}

/// Paths rank by the first component in which they differ; a path comes before everything
/// below it; the root comes first, then `.`, then `..`, then names by their characters.
pub proof fn paths_rank_by_components(
    start: Seq<Piece>,
    a: Piece,
    rest_a: Seq<Piece>,
    b: Piece,
    rest_b: Seq<Piece>,
)
    requires
        match (a, b) {
            (Piece::Root, Piece::Current) => true,
            (Piece::Root, Piece::Parent) => true,
            (Piece::Root, Piece::Normal(_)) => true,
            (Piece::Current, Piece::Parent) => true,
            (Piece::Current, Piece::Normal(_)) => true,
            (Piece::Parent, Piece::Normal(_)) => true,
            (Piece::Normal(x), Piece::Normal(y)) => text::text_rank(x, y) == Rank::Before,
            _ => false,
        },
    ensures
        path::path_rank(start.push(a) + rest_a, start.push(b) + rest_b) == Rank::Before,
        path::path_rank(start, start.push(b) + rest_b) == Rank::Before,
        path::path_rank(start, start) == Rank::Same,
    decreases start.len(),
{
    let x = start.push(a) + rest_a;
    let y = start.push(b) + rest_b;
    path::path_rank_swaps(start, start);
    if start.len() > 0 {
        paths_rank_by_components(start.drop_first(), a, rest_a, b, rest_b);
        assert(x.first() == start[0] && y.first() == start[0]);
        assert(x.drop_first() =~= start.drop_first().push(a) + rest_a);
        assert(y.drop_first() =~= start.drop_first().push(b) + rest_b);
        path::piece_rank_swaps(start[0], start[0]);
    } else {
        assert(x.first() == a && y.first() == b);
        path::piece_rank_swaps(a, b);
    }
}

/// Of two paths the ranking says how they rank.
pub proof fn ranking_says_how_paths_rank(a: &str, b: &str, rank: Rank)
    requires
        call_ensures(path::rank_paths, (a, b), rank),
    ensures
        rank == path::path_rank(path::path_of(a@), path::path_of(b@)),
        rank == Rank::Same <==> path::path_of(a@) == path::path_of(b@),
{
    path::path_rank_swaps(path::path_of(a@), path::path_of(b@));
}

/// Of two texts the ranking says how they rank.
pub proof fn ranking_says_how_texts_rank(a: &str, b: &str, rank: Rank)
    requires
        call_ensures(text::rank_texts, (a, b), rank),
    ensures
        rank == text::text_rank(a@, b@),
        rank == Rank::Same <==> a@ == b@,
{
    text::text_rank_swaps(a@, b@);
}

/// Sorting paths keeps each of them once, in order: whatever was given is named by a text of
/// the result, and every text of the result was given.
pub proof fn sorting_keeps_each_path_once(list: &Vec<String>, result: Vec<String>, i: int)
    requires
        call_ensures(path::sort_paths, (list,), result),
        0 <= i < list@.len(),
    ensures
        exists|k: int|
            0 <= k < result@.len() && path::path_of((#[trigger] result@[k])@) == path::path_of(
                list@[i]@,
            ),
{
    let all = text::texts(list@);
    let listed = text::texts(result@);
    assert(all[i] == list@[i]@);
    path::path_has_first_text(all, i);
    let s = choose|s: Seq<char>|
        path::first_of_path(all, s) && path::path_of(s) == path::path_of(all[i]);
    assert(listed.contains(s));
    let k = listed.index_of(s);
    assert(result@[k]@ == listed[k]);
}

/// Every text of a sorted list of paths was given, as the first that names its path.
pub proof fn sorted_paths_were_given(list: &Vec<String>, result: Vec<String>, k: int)
    requires
        call_ensures(path::sort_paths, (list,), result),
        0 <= k < result@.len(),
    ensures
        exists|i: int| #[trigger] first_naming(list@, result@[k]@, i),
{
    let all = text::texts(list@);
    let listed = text::texts(result@);
    assert(listed[k] == result@[k]@);
    assert(listed.contains(listed[k]));
    let i = choose|i: int|
        #![trigger all[i]]
        0 <= i < all.len() && all[i] == listed[k] && forall|m: int|
            #![trigger all[m]]
            0 <= m < i ==> path::path_of(all[m]) != path::path_of(listed[k]);
    assert(all[i] == list@[i]@);
    assert forall|m: int| 0 <= m < i implies path::path_of((#[trigger] list@[m])@)
        != path::path_of(result@[k]@) by {
        assert(all[m] == list@[m]@);
    }
    assert(first_naming(list@, result@[k]@, i));
}

/// The text stands at `i`, and no text before it names its path.
pub open spec fn first_naming(list: Seq<String>, s: Seq<char>, i: int) -> bool {
    &&& 0 <= i < list.len()
    &&& list[i]@ == s
    &&& forall|m: int|
        0 <= m < i ==> path::path_of((#[trigger] list[m])@) != path::path_of(s)
}

/// A sorted list of paths is in their order, and none is there twice.
pub proof fn sorted_paths_are_in_order(list: &Vec<String>, result: Vec<String>, j: int, k: int)
    requires
        call_ensures(path::sort_paths, (list,), result),
        0 <= j < k < result@.len(),
    ensures
        path::path_rank(path::path_of(result@[j]@), path::path_of(result@[k]@)) == Rank::Before,
{
    let listed = text::texts(result@);
    assert(listed[j] == result@[j]@);
    assert(listed[k] == result@[k]@);
}

/// Writing a path with slashes changes its separators and nothing else.
pub proof fn separators_become_slashes(s: &str, separator: char, result: String, i: int)
    requires
        call_ensures(path::slashed, (s, separator), result),
        0 <= i < s@.len(),
    ensures
        result@.len() == s@.len(),
        s@[i] == separator ==> result@[i] == '/',
        s@[i] != separator ==> result@[i] == s@[i],
{
}

/// A path is written with one slash between its components and none behind the root.
pub proof fn paths_are_written_with_single_slashes(start: Seq<Piece>, last: Piece)
    ensures
        path::path_text(Seq::empty()) == Seq::<char>::empty(),
        start.len() == 0 ==> path::path_text(start.push(last)) == match last {
            Piece::Root => seq!['/'],
            Piece::Current => seq!['.'],
            Piece::Parent => seq!['.', '.'],
            Piece::Normal(name) => name,
        },
        start.len() > 0 && last is Normal ==> path::path_text(start.push(last)) == if start
            == seq![Piece::Root] {
            seq!['/'] + last->Normal_0
        } else {
            path::path_text(start) + seq!['/'] + last->Normal_0
        },
        start.len() > 0 && last is Parent ==> path::path_text(start.push(last)) == if start
            == seq![Piece::Root] {
            seq!['/', '.', '.']
        } else {
            path::path_text(start) + seq!['/', '.', '.']
        },
{
    let all = start.push(last);
    assert(all.drop_last() =~= start);
    assert(all.last() == last);
    if start.len() == 1 && start[0] is Root {
        assert(start =~= seq![Piece::Root]);
        assert(seq!['/'] + seq!['.', '.'] =~= seq!['/', '.', '.']);
    } else if start.len() > 0 {
        assert(start != seq![Piece::Root]) by {
            if start == seq![Piece::Root] {
                assert(start.len() == 1 && start[0] is Root);
            }
        }
        let text = path::path_text(start);
        assert(text.push('/') + path::piece_text(last) =~= text + seq!['/'] + path::piece_text(
            last,
        ));
        assert(text.push('/') + seq!['.', '.'] =~= text + seq!['/', '.', '.']);
    }
}

} // verus!
