//! Plain text: trimming, splitting, searching, replacing and ordering.

use vstd::prelude::*;

verus! {

/// `String::push`: appends one character to the end of the text.
pub assume_specification[ String::push ](string: &mut String, character: char)
    ensures
        final(string)@ == old(string)@.push(character),
;

/// The characters of a list of texts.
pub open spec fn texts(list: Seq<String>) -> Seq<Seq<char>> {
    list.map_values(|item: String| item@)
}

/// The characters of an optional text.
pub open spec fn maybe_text(value: Option<String>) -> Option<Seq<char>> {
    match value {
        Some(text) => Some(text@),
        None => None,
    }
}

/// An optional borrowed text in specifications.
pub open spec fn borrowed_text(value: Option<&str>) -> Option<Seq<char>> {
    match value {
        Some(content) => Some(content@),
        None => None,
    }
}

/// The characters with the Unicode property `White_Space`.
pub open spec fn is_space(c: char) -> bool {
    let n = c as u32;
    ||| 0x9 <= n <= 0xd
    ||| n == 0x20
    ||| n == 0x85
    ||| n == 0xa0
    ||| n == 0x1680
    ||| 0x2000 <= n <= 0x200a
    ||| n == 0x2028
    ||| n == 0x2029
    ||| n == 0x202f
    ||| n == 0x205f
    ||| n == 0x3000
}

/// The text without the white space it starts with.
pub open spec fn without_leading(s: Seq<char>) -> Seq<char>
    decreases s.len(),
{
    if s.len() > 0 && is_space(s.first()) {
        without_leading(s.drop_first())
    } else {
        s
    }
}

/// The text without the white space it ends with.
pub open spec fn without_trailing(s: Seq<char>) -> Seq<char>
    decreases s.len(),
{
    if s.len() > 0 && is_space(s.last()) {
        without_trailing(s.drop_last())
    } else {
        s
    }
}

/// The text without the white space at both of its ends.
pub open spec fn trimmed(s: Seq<char>) -> Seq<char> {
    without_trailing(without_leading(s))
}

/// The number of characters before the first `sep`, or all of them.
pub open spec fn until(s: Seq<char>, sep: char) -> nat
    decreases s.len(),
{
    if s.len() == 0 || s.first() == sep {
        0
    } else {
        1 + until(s.drop_first(), sep)
    }
}

/// The parts of the text between the separators, empty ones included.
pub open spec fn parts(s: Seq<char>, sep: char) -> Seq<Seq<char>>
    decreases s.len(),
{
    let n = until(s, sep) as int;
    if n < s.len() {
        seq![s.take(n)] + parts(s.skip(n + 1), sep)
    } else {
        seq![s]
    }
}

/// The parts that hold more than white space, each of them trimmed.
pub open spec fn kept(list: Seq<Seq<char>>) -> Seq<Seq<char>>
    decreases list.len(),
{
    if list.len() == 0 {
        Seq::empty()
    } else if trimmed(list.last()).len() == 0 {
        kept(list.drop_last())
    } else {
        kept(list.drop_last()).push(trimmed(list.last()))
    }
}

/// The lines of the text that hold more than white space, each of them trimmed.
pub open spec fn kept_lines(s: Seq<char>) -> Seq<Seq<char>> {
    kept(parts(s, '\n'))
}

/// Whether `pattern` stands in the text at position `at`.
pub open spec fn occurs_at(s: Seq<char>, pattern: Seq<char>, at: int) -> bool {
    0 <= at && at + pattern.len() <= s.len() && s.subrange(at, at + pattern.len()) == pattern
}

/// Whether `pattern` stands anywhere in the text.
pub open spec fn contains_text(s: Seq<char>, pattern: Seq<char>) -> bool {
    exists|at: int| occurs_at(s, pattern, at)
}

/// Whether the text ends with `suffix`.
pub open spec fn ends_with_text(s: Seq<char>, suffix: Seq<char>) -> bool {
    occurs_at(s, suffix, s.len() - suffix.len())
}

/// The text with every occurrence of `pattern` replaced, found from left to right
/// without overlap.
pub open spec fn replaced(s: Seq<char>, pattern: Seq<char>, with: Seq<char>) -> Seq<char>
    decreases s.len(),
{
    if pattern.len() == 0 || s.len() < pattern.len() {
        s
    } else if occurs_at(s, pattern, 0) {
        with + replaced(s.skip(pattern.len() as int), pattern, with)
    } else {
        seq![s.first()] + replaced(s.drop_first(), pattern, with)
    }
}

/// The decimal digit of a number below ten.
pub open spec fn digit(n: nat) -> char {
    (('0' as u32) + n) as u32 as char
}

/// The decimal digits of a number, without leading zeros.
pub open spec fn decimal(n: nat) -> Seq<char>
    decreases n,
{
    if n < 10 {
        seq![digit(n)]
    } else {
        decimal(n / 10).push(digit(n % 10))
    }
}

/// The characters of a text.
pub fn chars_of(text: &str) -> (chars: Vec<char>)
    ensures
        chars@ == text@,
{
    let mut chars: Vec<char> = Vec::new();
    for c in it: text.chars()
        invariant
            it.seq() == text@,
            chars@ == text@.take(it.index() as int),
    {
        chars.push(c);
        assert(text@.take(it.index() + 1) =~= text@.take(it.index() as int).push(c));
    }
    assert(text@.take(text@.len() as int) =~= text@);
    chars
}

/// The text of the characters from `from` up to `to`.
pub fn text_of(chars: &Vec<char>, from: usize, to: usize) -> (text: String)
    requires
        from <= to <= chars.len(),
    ensures
        text@ == chars@.subrange(from as int, to as int),
{
    let mut text = String::new();
    let mut i: usize = from;
    while i < to
        invariant
            from <= i <= to <= chars.len(),
            text@ == chars@.subrange(from as int, i as int),
        decreases to - i,
    {
        text.push(chars[i]);
        i += 1;
        assert(chars@.subrange(from as int, i as int) =~= chars@.subrange(from as int, i - 1).push(
            chars@[i - 1],
        ));
    }
    text
}

/// Borrows an optional text.
pub fn borrow_text(value: &Option<String>) -> (result: Option<&str>)
    ensures
        borrowed_text(result) == maybe_text(*value),
{
    match value {
        Some(content) => Some(content.as_str()),
        None => None,
    }
}

/// Whether two texts are equal.
pub fn same_text(a: &str, b: &str) -> (same: bool)
    ensures
        same == (a@ == b@),
{
    a.to_owned() == b.to_owned()
}

/// Whether the character has the Unicode property `White_Space`.
pub fn space(c: char) -> (b: bool)
    ensures
        b == is_space(c),
{
    let n: u32 = c as u32;
    (0x9 <= n && n <= 0xd) || n == 0x20 || n == 0x85 || n == 0xa0 || n == 0x1680 || (0x2000 <= n
        && n <= 0x200a) || n == 0x2028 || n == 0x2029 || n == 0x202f || n == 0x205f || n == 0x3000
}

/// The text without the white space at both of its ends.
pub fn trim(text: &str) -> (result: String)
    ensures
        result@ == trimmed(text@),
{
    let chars = chars_of(text);
    let mut from: usize = 0;
    assert(text@.skip(0) =~= text@);
    while from < chars.len() && space(chars[from])
        invariant
            from <= chars.len(),
            chars@ == text@,
            without_leading(text@) == without_leading(text@.skip(from as int)),
        decreases chars.len() - from,
    {
        assert(text@.skip(from as int).drop_first() =~= text@.skip(from + 1));
        from += 1;
    }
    assert(without_leading(text@) == text@.skip(from as int));
    let ghost rest = text@.skip(from as int);
    let mut to: usize = chars.len();
    assert(rest.take(to - from) =~= rest);
    while from < to && space(chars[to - 1])
        invariant
            from <= to <= chars.len(),
            chars@ == text@,
            rest == text@.skip(from as int),
            without_trailing(rest) == without_trailing(rest.take(to - from)),
        decreases to - from,
    {
        assert(rest.take(to - from).drop_last() =~= rest.take(to - from - 1));
        to -= 1;
    }
    assert(rest.take(to - from) =~= text@.subrange(from as int, to as int));
    text_of(&chars, from, to)
}

/// The first separator is looked for within the text.
pub proof fn until_within(s: Seq<char>, sep: char)
    ensures
        until(s, sep) <= s.len(),
    decreases s.len(),
{
    if s.len() > 0 && s.first() != sep {
        until_within(s.drop_first(), sep);
    }
}

/// The first separator stands where `until` says, with none before it.
pub proof fn until_stops(s: Seq<char>, sep: char)
    ensures
        until(s, sep) <= s.len(),
        until(s, sep) < s.len() ==> s[until(s, sep) as int] == sep,
        !s.take(until(s, sep) as int).contains(sep),
        until(s, sep) == s.len() ==> !s.contains(sep),
    decreases s.len(),
{
    if s.len() > 0 && s.first() != sep {
        let rest = s.drop_first();
        until_stops(rest, sep);
        let n = until(rest, sep) as int;
        let head = s.take(n + 1);
        if head.contains(sep) {
            let k = head.index_of(sep);
            assert(rest.take(n)[k - 1] == sep);
        }
        assert(s.take(s.len() as int) =~= s);
    }
}

/// A place with a separator and none before it is where `until` says.
pub proof fn until_is(s: Seq<char>, sep: char, n: int)
    requires
        0 <= n < s.len(),
        s[n] == sep,
        forall|k: int| 0 <= k < n ==> #[trigger] s[k] != sep,
    ensures
        until(s, sep) == n,
    decreases n,
{
    if n > 0 {
        let rest = s.drop_first();
        assert forall|k: int| 0 <= k < n - 1 implies #[trigger] rest[k] != sep by {
            assert(s[k + 1] != sep);
        }
        assert(s[0] != sep);
        until_is(rest, sep, n - 1);
    }
}

proof fn until_skips(s: Seq<char>, sep: char, n: int)
    requires
        0 <= n <= s.len(),
        forall|i: int| 0 <= i < n ==> s[i] != sep,
    ensures
        until(s, sep) == n + until(s.skip(n), sep),
    decreases n,
{
    if n > 0 {
        until_skips(s.drop_first(), sep, n - 1);
        assert(s.drop_first().skip(n - 1) =~= s.skip(n));
    } else {
        assert(s.skip(0) =~= s);
    }
}

/// The parts of the text between the separators, empty ones included.
pub fn split(text: &str, sep: char) -> (result: Vec<String>)
    ensures
        texts(result@) == parts(text@, sep),
        result.len() > 0,
{
    let chars = chars_of(text);
    let mut result: Vec<String> = Vec::new();
    let mut start: usize = 0;
    let mut i: usize = 0;
    assert(text@.skip(0) =~= text@);
    assert(texts(result@) =~= Seq::empty());
    assert(texts(result@) + parts(text@, sep) =~= parts(text@, sep));
    while i < chars.len()
        invariant
            start <= i <= chars.len(),
            chars@ == text@,
            forall|k: int| start <= k < i ==> chars@[k] != sep,
            parts(text@, sep) == texts(result@) + parts(text@.skip(start as int), sep),
        decreases chars.len() - i,
    {
        if chars[i] == sep {
            let part = text_of(&chars, start, i);
            proof {
                let s = text@.skip(start as int);
                let n = i - start;
                assert forall|k: int| 0 <= k < n implies s[k] != sep by {
                    assert(s[k] == chars@[start + k]);
                }
                until_skips(s, sep, n);
                assert(s.skip(n).first() == sep);
                assert(until(s, sep) == n);
                assert(s.take(n) =~= part@);
                assert(s.skip(n + 1) =~= text@.skip(i + 1));
                assert(texts(result@.push(part)) =~= texts(result@).push(part@));
                assert(texts(result@) + (seq![part@] + parts(text@.skip(i + 1), sep))
                    =~= texts(result@).push(part@) + parts(text@.skip(i + 1), sep));
            }
            result.push(part);
            start = i + 1;
        }
        i += 1;
    }
    let part = text_of(&chars, start, i);
    proof {
        let s = text@.skip(start as int);
        assert forall|k: int| 0 <= k < s.len() implies s[k] != sep by {
            assert(s[k] == chars@[start + k]);
        }
        until_skips(s, sep, s.len() as int);
        assert(s =~= part@);
        assert(texts(result@.push(part)) =~= texts(result@).push(part@));
        assert(texts(result@) + seq![part@] =~= texts(result@).push(part@));
    }
    result.push(part);
    result
}

/// The parts of the text between the separators that hold more than white space, each of
/// them trimmed.
pub fn trimmed_parts(text: &str, sep: char) -> (result: Vec<String>)
    ensures
        texts(result@) == kept(parts(text@, sep)),
{
    let list = split(text, sep);
    let mut result: Vec<String> = Vec::new();
    let mut i: usize = 0;
    assert(texts(result@) =~= kept(texts(list@).take(0)));
    while i < list.len()
        invariant
            i <= list.len(),
            texts(result@) == kept(texts(list@).take(i as int)),
        decreases list.len() - i,
    {
        let part = trim(list[i].as_str());
        proof {
            let now = texts(list@).take(i + 1);
            assert(now.drop_last() =~= texts(list@).take(i as int));
            assert(now.last() == list@[i as int]@);
            assert(texts(result@.push(part)) =~= texts(result@).push(part@));
        }
        if !part.as_str().is_empty() {
            result.push(part);
        }
        i += 1;
    }
    assert(texts(list@).take(i as int) =~= texts(list@));
    result
}

/// The lines of the text that hold more than white space, each of them trimmed.
pub fn trimmed_lines(text: &str) -> (result: Vec<String>)
    ensures
        texts(result@) == kept_lines(text@),
{
    trimmed_parts(text, '\n')
}

fn matches_at(chars: &Vec<char>, pattern: &Vec<char>, at: usize) -> (b: bool)
    ensures
        b == occurs_at(chars@, pattern@, at as int),
{
    if at > chars.len() || pattern.len() > chars.len() - at {
        return false;
    }
    let mut i: usize = 0;
    while i < pattern.len()
        invariant
            i <= pattern.len(),
            at + pattern.len() <= chars.len(),
            forall|k: int| 0 <= k < i ==> chars@[at + k] == pattern@[k],
        decreases pattern.len() - i,
    {
        if chars[at + i] != pattern[i] {
            assert(chars@.subrange(at as int, at + pattern@.len())[i as int] != pattern@[i as int]);
            return false;
        }
        i += 1;
    }
    assert(chars@.subrange(at as int, at + pattern@.len()) =~= pattern@);
    true
}

/// Whether `pattern` stands anywhere in the text.
pub fn contains(text: &str, pattern: &str) -> (b: bool)
    ensures
        b == contains_text(text@, pattern@),
{
    let chars = chars_of(text);
    let wanted = chars_of(pattern);
    let mut i: usize = 0;
    while i < chars.len()
        invariant
            i <= chars.len(),
            chars@ == text@,
            wanted@ == pattern@,
            forall|at: int| 0 <= at < i ==> !occurs_at(text@, pattern@, at),
        decreases chars.len() - i,
    {
        if matches_at(&chars, &wanted, i) {
            return true;
        }
        i += 1;
    }
    matches_at(&chars, &wanted, i)
}

/// Whether the text ends with `suffix`.
pub fn ends_with(text: &str, suffix: &str) -> (b: bool)
    ensures
        b == ends_with_text(text@, suffix@),
{
    let chars = chars_of(text);
    let wanted = chars_of(suffix);
    if wanted.len() > chars.len() {
        return false;
    }
    matches_at(&chars, &wanted, chars.len() - wanted.len())
}

/// The text with every occurrence of `pattern` replaced.
pub fn replace(text: &str, pattern: &str, with: &str) -> (result: String)
    requires
        pattern@.len() > 0,
    ensures
        result@ == replaced(text@, pattern@, with@),
{
    let chars = chars_of(text);
    let wanted = chars_of(pattern);
    let mut result = String::new();
    let mut i: usize = 0;
    assert(text@.skip(0) =~= text@);
    assert(result@ + replaced(text@, pattern@, with@) =~= replaced(text@, pattern@, with@));
    while i < chars.len()
        invariant
            i <= chars.len(),
            chars@ == text@,
            wanted@ == pattern@,
            wanted.len() > 0,
            replaced(text@, pattern@, with@) == result@ + replaced(
                text@.skip(i as int),
                pattern@,
                with@,
            ),
        decreases chars.len() - i,
    {
        let ghost s = text@.skip(i as int);
        if matches_at(&chars, &wanted, i) {
            proof {
                assert(s.subrange(0, pattern@.len() as int) =~= text@.subrange(
                    i as int,
                    i + pattern@.len(),
                ));
                assert(occurs_at(s, pattern@, 0));
                assert(s.skip(pattern@.len() as int) =~= text@.skip(i + pattern@.len()));
                assert(result@ + (with@ + replaced(text@.skip(i + pattern@.len()), pattern@, with@))
                    =~= (result@ + with@) + replaced(
                    text@.skip(i + pattern@.len()),
                    pattern@,
                    with@,
                ));
            }
            result.append(with);
            i += wanted.len();
        } else {
            proof {
                if s.len() >= pattern@.len() {
                    assert(s.subrange(0, pattern@.len() as int) =~= text@.subrange(
                        i as int,
                        i + pattern@.len(),
                    ));
                    assert(!occurs_at(s, pattern@, 0));
                } else {
                    assert(s.drop_first().len() < pattern@.len());
                }
                assert(s.drop_first() =~= text@.skip(i + 1));
                assert(s =~= seq![s.first()] + s.drop_first());
                assert(result@ + (seq![chars@[i as int]] + replaced(
                    text@.skip(i + 1),
                    pattern@,
                    with@,
                )) =~= result@.push(chars@[i as int]) + replaced(
                    text@.skip(i + 1),
                    pattern@,
                    with@,
                ));
            }
            result.push(chars[i]);
            i += 1;
        }
    }
    assert(text@.skip(i as int) =~= Seq::empty());
    assert(result@ + Seq::<char>::empty() =~= result@);
    result
}

fn digit_char(n: u64) -> (c: char)
    requires
        n < 10,
    ensures
        c == digit(n as nat),
{
    if n == 0 {
        '0'
    } else if n == 1 {
        '1'
    } else if n == 2 {
        '2'
    } else if n == 3 {
        '3'
    } else if n == 4 {
        '4'
    } else if n == 5 {
        '5'
    } else if n == 6 {
        '6'
    } else if n == 7 {
        '7'
    } else if n == 8 {
        '8'
    } else {
        '9'
    }
}

/// The decimal digits of a number.
pub fn number(n: u64) -> (text: String)
    ensures
        text@ == decimal(n as nat),
    decreases n,
{
    if n < 10 {
        let mut text = String::new();
        text.push(digit_char(n));
        assert(text@ =~= seq![digit(n as nat)]);
        text
    } else {
        let mut text = number(n / 10);
        text.push(digit_char(n % 10));
        text
    }
}

/// How two values stand to each other in an order.
#[derive(Debug, Clone, Copy, PartialEq, Eq, Structural)]
pub enum Rank {
    Before,
    Same,
    After,
}

/// The order of texts: by the first character in which they differ, a prefix first.
pub open spec fn text_rank(a: Seq<char>, b: Seq<char>) -> Rank
    decreases a.len(),
{
    if a.len() == 0 && b.len() == 0 {
        Rank::Same
    } else if a.len() == 0 {
        Rank::Before
    } else if b.len() == 0 {
        Rank::After
    } else if a.first() < b.first() {
        Rank::Before
    } else if a.first() > b.first() {
        Rank::After
    } else {
        text_rank(a.drop_first(), b.drop_first())
    }
}

/// Compares two texts.
pub fn rank_texts(a: &str, b: &str) -> (rank: Rank)
    ensures
        rank == text_rank(a@, b@),
{
    let x = chars_of(a);
    let y = chars_of(b);
    let mut i: usize = 0;
    assert(a@.skip(0) =~= a@);
    assert(b@.skip(0) =~= b@);
    while i < x.len() && i < y.len()
        invariant
            i <= x.len(),
            i <= y.len(),
            x@ == a@,
            y@ == b@,
            text_rank(a@, b@) == text_rank(a@.skip(i as int), b@.skip(i as int)),
        decreases x.len() - i,
    {
        if x[i] < y[i] {
            return Rank::Before;
        }
        if x[i] > y[i] {
            return Rank::After;
        }
        assert(a@.skip(i as int).drop_first() =~= a@.skip(i + 1));
        assert(b@.skip(i as int).drop_first() =~= b@.skip(i + 1));
        i += 1;
    }
    if i < y.len() {
        Rank::Before
    } else if i < x.len() {
        Rank::After
    } else {
        Rank::Same
    }
}

/// Texts rank the same exactly where they are equal, and swapping two texts
/// turns their rank round.
pub proof fn text_rank_swaps(a: Seq<char>, b: Seq<char>)
    ensures
        text_rank(a, b) == Rank::Same <==> a == b,
        text_rank(a, b) == Rank::Before <==> text_rank(b, a) == Rank::After,
    decreases a.len(),
{
    if a.len() > 0 && b.len() > 0 {
        text_rank_swaps(a.drop_first(), b.drop_first());
        assert(a =~= seq![a.first()] + a.drop_first());
        assert(b =~= seq![b.first()] + b.drop_first());
    } else if a.len() == 0 && b.len() == 0 {
        assert(a =~= b);
    }
}

/// The order of texts is transitive.
pub proof fn text_rank_chains(a: Seq<char>, b: Seq<char>, c: Seq<char>)
    requires
        text_rank(a, b) != Rank::After,
        text_rank(b, c) != Rank::After,
    ensures
        text_rank(a, c) != Rank::After,
        text_rank(a, b) == Rank::Before || text_rank(b, c) == Rank::Before ==> text_rank(a, c)
            == Rank::Before,
    decreases a.len(),
{
    if a.len() > 0 && b.len() > 0 && c.len() > 0 && a.first() == b.first() && b.first()
        == c.first() {
        text_rank_chains(a.drop_first(), b.drop_first(), c.drop_first());
    }
}

/// What stands in a text stands in every longer text around it.
pub proof fn contained_in_longer(
    before: Seq<char>,
    s: Seq<char>,
    after: Seq<char>,
    pattern: Seq<char>,
)
    requires
        contains_text(s, pattern),
    ensures
        contains_text(before + s + after, pattern),
{
    let at = choose|at: int| occurs_at(s, pattern, at);
    let whole = before + s + after;
    assert(whole.subrange(before.len() + at, before.len() + at + pattern.len()) =~= pattern) by {
        assert forall|k: int| 0 <= k < pattern.len() implies whole[before.len() + at + k]
            == pattern[k] by {
            assert(s.subrange(at, at + pattern.len())[k] == pattern[k]);
        }
    }
    assert(occurs_at(whole, pattern, before.len() + at));
}

/// Where there is nothing to replace, the text stays as it is.
pub proof fn replaced_without_pattern(s: Seq<char>, pattern: Seq<char>, with: Seq<char>)
    requires
        !contains_text(s, pattern),
    ensures
        replaced(s, pattern, with) == s,
    decreases s.len(),
{
    if pattern.len() > 0 && s.len() >= pattern.len() {
        assert(!occurs_at(s, pattern, 0));
        let rest = s.drop_first();
        if contains_text(rest, pattern) {
            contained_in_longer(seq![s.first()], rest, Seq::empty(), pattern);
            assert(seq![s.first()] + rest + Seq::empty() =~= s);
        }
        replaced_without_pattern(rest, pattern, with);
        assert(seq![s.first()] + rest =~= s);
    }
}

/// Where there is something to replace, what replaces it stands in the text afterwards.
pub proof fn replacement_is_there(s: Seq<char>, pattern: Seq<char>, with: Seq<char>)
    requires
        pattern.len() > 0,
        contains_text(s, pattern),
    ensures
        contains_text(replaced(s, pattern, with), with),
    decreases s.len(),
{
    let after = replaced(s, pattern, with);
    if occurs_at(s, pattern, 0) {
        assert(after.subrange(0, with.len() as int) =~= with);
        assert(occurs_at(after, with, 0));
    } else {
        let at = choose|at: int| occurs_at(s, pattern, at);
        let rest = s.drop_first();
        assert(rest.subrange(at - 1, at - 1 + pattern.len()) =~= s.subrange(
            at,
            at + pattern.len(),
        ));
        assert(occurs_at(rest, pattern, at - 1));
        replacement_is_there(rest, pattern, with);
        let tail = replaced(rest, pattern, with);
        contained_in_longer(seq![s.first()], tail, Seq::empty(), with);
        assert(seq![s.first()] + tail + Seq::empty() =~= after);
    }
}

} // verus!
