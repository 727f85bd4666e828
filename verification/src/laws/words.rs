//! Texts and what stands in them.

use crate::text;
use crate::text::Rank;
use vstd::prelude::*;

verus! {

/// A text ends with another exactly where it is some text and then the other.
pub proof fn ending_is_a_last_part(content: &str, suffix: &str, b: bool)
    requires
        call_ensures(text::ends_with, (content, suffix), b),
    ensures
        b <==> exists|before: Seq<char>| content@ == #[trigger] (before + suffix@),
{
    ending_split(content@, suffix@);
}

/// The same in specifications.
pub proof fn ending_split(s: Seq<char>, suffix: Seq<char>)
    ensures
        text::ends_with_text(s, suffix) <==> exists|before: Seq<char>|
            s == #[trigger] (before + suffix),
{
    if text::ends_with_text(s, suffix) {
        let before = s.take(s.len() - suffix.len());
        assert(s =~= before + suffix) by {
            assert(s.subrange(s.len() - suffix.len(), s.len() as int) == suffix);
            assert forall|i: int| 0 <= i < s.len() implies s[i] == (before + suffix)[i] by {
                if i >= before.len() {
                    assert(s.subrange(s.len() - suffix.len(), s.len() as int)[i - before.len()]
                        == s[i]);
                }
            }
        }
    }
    if exists|before: Seq<char>| s == #[trigger] (before + suffix) {
        let before = choose|before: Seq<char>| s == #[trigger] (before + suffix);
        assert(s.subrange(s.len() - suffix.len(), s.len() as int) =~= suffix);
    }
}

/// A text holds another exactly where it is some text, the other, and some text.
pub proof fn containing_is_a_middle_part(content: &str, pattern: &str, b: bool)
    requires
        call_ensures(text::contains, (content, pattern), b),
    ensures
        b <==> exists|before: Seq<char>, after: Seq<char>|
            content@ == #[trigger] (before + pattern@ + after),
{
    containing_split(content@, pattern@);
}

/// The same in specifications.
pub proof fn containing_split(s: Seq<char>, pattern: Seq<char>)
    ensures
        text::contains_text(s, pattern) <==> exists|before: Seq<char>, after: Seq<char>|
            s == #[trigger] (before + pattern + after),
{
    if text::contains_text(s, pattern) {
        let at = choose|at: int| text::occurs_at(s, pattern, at);
        let before = s.take(at);
        let after = s.skip(at + pattern.len());
        assert(s =~= before + pattern + after) by {
            assert forall|i: int| at <= i < at + pattern.len() implies s[i] == pattern[i - at] by {
                assert(s.subrange(at, at + pattern.len())[i - at] == s[i]);
            }
        }
    }
    if exists|before: Seq<char>, after: Seq<char>| s == #[trigger] (before + pattern + after) {
        let (before, after) = choose|before: Seq<char>, after: Seq<char>|
            s == #[trigger] (before + pattern + after);
        let at = before.len() as int;
        assert(s.subrange(at, at + pattern.len()) =~= pattern);
        assert(text::occurs_at(s, pattern, at));
    }
}

/// A trimmed text has no white space at its ends, and only white space was taken off.
pub proof fn trimming_takes_white_space_off(content: &str, result: String)
    requires
        call_ensures(text::trim, (content,), result),
    ensures
        result@.len() > 0 ==> !text::is_space(result@.first()) && !text::is_space(result@.last()),
        exists|before: Seq<char>, after: Seq<char>|
            {
                &&& content@ == #[trigger] (before + result@ + after)
                &&& forall|i: int| 0 <= i < before.len() ==> text::is_space(#[trigger] before[i])
                &&& forall|i: int| 0 <= i < after.len() ==> text::is_space(#[trigger] after[i])
            },
{
    let s = content@;
    leading_taken(s);
    let middle = text::without_leading(s);
    trailing_taken(middle);
    let n = s.len() - middle.len();
    let before = s.take(n);
    let after = middle.skip(result@.len() as int);
    assert(s =~= before + result@ + after);
    assert forall|i: int| 0 <= i < before.len() implies text::is_space(#[trigger] before[i]) by {
        assert(before[i] == s[i]);
    }
}

/// What is taken off the front of a text is white space, and what is left does not start
/// with any.
pub proof fn leading_taken(s: Seq<char>)
    ensures
        ({
            let rest = text::without_leading(s);
            &&& rest.len() <= s.len()
            &&& rest == s.skip(s.len() - rest.len())
            &&& rest.len() > 0 ==> !text::is_space(rest.first())
            &&& forall|i: int| 0 <= i < s.len() - rest.len() ==> text::is_space(#[trigger] s[i])
        }),
    decreases s.len(),
{
    if s.len() > 0 && text::is_space(s.first()) {
        let tail = s.drop_first();
        leading_taken(tail);
        let rest = text::without_leading(s);
        assert(rest =~= s.skip(s.len() - rest.len()));
        assert forall|i: int| 0 <= i < s.len() - rest.len() implies text::is_space(
            #[trigger] s[i],
        ) by {
            if i > 0 {
                assert(tail[i - 1] == s[i]);
            }
        }
    } else {
        assert(s.skip(0) =~= s);
    }
}

/// What is taken off the end of a text is white space, and what is left does not end with
/// any.
pub proof fn trailing_taken(s: Seq<char>)
    ensures
        ({
            let rest = text::without_trailing(s);
            &&& rest.len() <= s.len()
            &&& rest == s.take(rest.len() as int)
            &&& rest.len() > 0 ==> !text::is_space(rest.last())
            &&& forall|i: int|
                0 <= i < s.len() - rest.len() ==> text::is_space(
                    #[trigger] s.skip(rest.len() as int)[i],
                )
        }),
    decreases s.len(),
{
    let rest = text::without_trailing(s);
    if s.len() > 0 && text::is_space(s.last()) {
        let head = s.drop_last();
        trailing_taken(head);
        assert(rest =~= s.take(rest.len() as int));
        assert forall|i: int| 0 <= i < s.len() - rest.len() implies text::is_space(
            #[trigger] s.skip(rest.len() as int)[i],
        ) by {
            if i < head.len() - rest.len() {
                assert(head.skip(rest.len() as int)[i] == s.skip(rest.len() as int)[i]);
            }
        }
    } else {
        assert(s.take(s.len() as int) =~= s);
    }
}

/// White space is space, line ends, tabs and the other blanks of Unicode; nothing that is
/// printed and no separator of records is.
pub proof fn white_space_is_blank(c: char)
    ensures
        c == ' ' || c == '\n' || c == '\r' || c == '\t' ==> text::is_space(c),
        '!' <= c && c <= '~' ==> !text::is_space(c),
        c == '\u{1e}' || c == '\u{1f}' ==> !text::is_space(c),
{
}

/// Splitting a text loses nothing but the separators: a text without a separator is its own
/// only part, and what stands before a separator is the first part, followed by the parts
/// of what stands behind it.
pub proof fn splitting_cuts_at_separators(before: Seq<char>, sep: char, after: Seq<char>)
    requires
        forall|i: int| 0 <= i < before.len() ==> #[trigger] before[i] != sep,
    ensures
        text::parts(before, sep) == seq![before],
        text::parts(before.push(sep) + after, sep) == seq![before] + text::parts(after, sep),
{
    text::until_stops(before, sep);
    let n = before.len() as int;
    if text::until(before, sep) < before.len() {
        assert(before[text::until(before, sep) as int] != sep);
    }
    let whole = before.push(sep) + after;
    assert forall|k: int| 0 <= k < n implies #[trigger] whole[k] != sep by {
        assert(whole[k] == before[k]);
    }
    assert(whole[n] == sep);
    text::until_is(whole, sep, n);
    assert(whole.take(n) =~= before);
    assert(whole.skip(n + 1) =~= after);
}

/// What `split` gives is cut at separators.
pub proof fn split_cuts_at_separators(
    content: &str,
    before: Seq<char>,
    sep: char,
    after: &str,
    whole: Vec<String>,
    rest: Vec<String>,
)
    requires
        forall|i: int| 0 <= i < before.len() ==> #[trigger] before[i] != sep,
        content@ == before.push(sep) + after@,
        call_ensures(text::split, (content, sep), whole),
        call_ensures(text::split, (after, sep), rest),
    ensures
        whole@.len() == rest@.len() + 1,
        whole@[0]@ == before,
        forall|i: int| 0 <= i < rest@.len() ==> whole@[i + 1]@ == (#[trigger] rest@[i])@,
{
    splitting_cuts_at_separators(before, sep, after@);
    assert(text::texts(whole@).len() == whole@.len());
    assert(text::texts(rest@).len() == rest@.len());
    assert(text::texts(whole@)[0] == whole@[0]@);
    assert forall|i: int| 0 <= i < rest@.len() implies whole@[i + 1]@ == (
    #[trigger] rest@[i])@ by {
        assert(text::texts(whole@)[i + 1] == whole@[i + 1]@);
        assert(text::texts(rest@)[i] == rest@[i]@);
    }
}

/// The parts of two lists that hold more than white space are those of the one and those of
/// the other.
pub proof fn kept_joins(a: Seq<Seq<char>>, b: Seq<Seq<char>>)
    ensures
        text::kept(a + b) == text::kept(a) + text::kept(b),
    decreases b.len(),
{
    if b.len() == 0 {
        assert(a + b =~= a);
        assert(text::kept(a) + text::kept(b) =~= text::kept(a));
    } else {
        assert((a + b).drop_last() =~= a + b.drop_last());
        kept_joins(a, b.drop_last());
        assert(text::kept(a + b) =~= text::kept(a) + text::kept(b));
    }
}

/// A part is kept, trimmed, exactly where it holds more than white space.
pub proof fn one_part_is_kept(part: Seq<char>)
    ensures
        text::kept(seq![part]) == if text::trimmed(part).len() == 0 {
            Seq::empty()
        } else {
            seq![text::trimmed(part)]
        },
{
    let one = seq![part];
    assert(one.drop_last() =~= Seq::empty());
    assert(text::kept(one.drop_last()) =~= Seq::empty());
    assert(text::kept(one) =~= if text::trimmed(part).len() == 0 {
        Seq::empty()
    } else {
        seq![text::trimmed(part)]
    });
}

/// A list of lines is read line by line: a first line that holds more than white space comes
/// first, trimmed, and one that does not is passed over.
pub proof fn lines_are_read_in_turn(
    content: &str,
    line: Seq<char>,
    after: &str,
    whole: Vec<String>,
    rest: Vec<String>,
)
    requires
        forall|i: int| 0 <= i < line.len() ==> #[trigger] line[i] != '\n',
        content@ == line.push('\n') + after@,
        call_ensures(text::trimmed_lines, (content,), whole),
        call_ensures(text::trimmed_lines, (after,), rest),
    ensures
        text::texts(whole@) == if text::trimmed(line).len() == 0 {
            text::texts(rest@)
        } else {
            seq![text::trimmed(line)] + text::texts(rest@)
        },
{
    splitting_cuts_at_separators(line, '\n', after@);
    kept_joins(seq![line], text::parts(after@, '\n'));
    one_part_is_kept(line);
    assert(Seq::<Seq<char>>::empty() + text::texts(rest@) =~= text::texts(rest@));
}

/// Replacing in a text, up to the first place where the pattern may start, is replacing in
/// what follows.
pub proof fn replaced_behind(
    before: Seq<char>,
    s: Seq<char>,
    pattern: Seq<char>,
    with: Seq<char>,
)
    requires
        pattern.len() > 0,
        forall|i: int| 0 <= i < before.len() ==> #[trigger] before[i] != pattern[0],
    ensures
        text::replaced(before + s, pattern, with) == before + text::replaced(s, pattern, with),
    decreases before.len(),
{
    let whole = before + s;
    if before.len() == 0 {
        assert(whole =~= s);
        assert(before + text::replaced(s, pattern, with) =~= text::replaced(s, pattern, with));
    } else {
        let rest = before.drop_first();
        assert forall|i: int| 0 <= i < rest.len() implies #[trigger] rest[i] != pattern[0] by {
            assert(rest[i] == before[i + 1]);
        }
        replaced_behind(rest, s, pattern, with);
        assert(whole.drop_first() =~= rest + s);
        assert(whole.first() == before[0]);
        if whole.len() >= pattern.len() {
            if text::occurs_at(whole, pattern, 0) {
                assert(whole.subrange(0, 0 + pattern.len() as int)[0] == pattern[0]);
            }
            assert(seq![whole.first()] + (rest + text::replaced(s, pattern, with)) =~= before
                + text::replaced(s, pattern, with));
        } else {
            assert(s.len() < pattern.len());
        }
    }
}

/// Where the pattern stands, the replacement takes its place.
pub proof fn replaced_in_place(pattern: Seq<char>, s: Seq<char>, with: Seq<char>)
    requires
        pattern.len() > 0,
    ensures
        text::replaced(pattern + s, pattern, with) == with + text::replaced(s, pattern, with),
{
    let whole = pattern + s;
    assert(whole.subrange(0, pattern.len() as int) =~= pattern);
    assert(whole.skip(pattern.len() as int) =~= s);
}

/// Texts rank by the first character in which they differ, and a text before every longer
/// one that starts with it.
pub proof fn texts_rank_by_the_first_difference(
    start: Seq<char>,
    a: char,
    rest_a: Seq<char>,
    b: char,
    rest_b: Seq<char>,
)
    requires
        a < b,
    ensures
        text::text_rank(start.push(a) + rest_a, start.push(b) + rest_b) == Rank::Before,
        text::text_rank(start, start.push(b) + rest_b) == Rank::Before,
        text::text_rank(start, start) == Rank::Same,
    decreases start.len(),
{
    let x = start.push(a) + rest_a;
    let y = start.push(b) + rest_b;
    if start.len() > 0 {
        let tail = start.drop_first();
        texts_rank_by_the_first_difference(tail, a, rest_a, b, rest_b);
        assert(x.first() == start[0] && y.first() == start[0]);
        assert(x.drop_first() =~= tail.push(a) + rest_a);
        assert(y.drop_first() =~= tail.push(b) + rest_b);
    } else {
        assert(x.first() == a);
        assert(y.first() == b);
    }
}

/// The number that a row of digits stands for.
pub open spec fn value_of(digits: Seq<char>) -> int
    decreases digits.len(),
{
    if digits.len() == 0 {
        0
    } else {
        10 * value_of(digits.drop_last()) + (digits.last() as u32 as int - '0' as u32 as int)
    }
}

/// A number is written with digits that stand for it, and without a zero in front.
pub proof fn numbers_are_written_in_decimal(n: nat)
    ensures
        value_of(text::decimal(n)) == n,
        text::decimal(n).len() > 0,
        n > 0 ==> text::decimal(n).first() != '0',
        forall|i: int|
            0 <= i < text::decimal(n).len() ==> '0' <= #[trigger] text::decimal(n)[i]
                && text::decimal(n)[i] <= '9',
    decreases n,
{
    let all = text::decimal(n);
    if n < 10 {
        assert(all.drop_last() =~= Seq::empty());
        assert(value_of(all.drop_last()) == 0);
    } else {
        numbers_are_written_in_decimal(n / 10);
        let head = text::decimal(n / 10);
        assert(all.drop_last() =~= head);
        assert(all.first() == head.first());
        assert forall|i: int| 0 <= i < all.len() implies '0' <= #[trigger] all[i] && all[i]
            <= '9' by {
            if i < head.len() {
                assert(all[i] == head[i]);
            }
        }
    }
}

} // verus!
