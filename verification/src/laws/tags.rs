//! The tags of versions.

use crate::error::ReleaseError;
use crate::laws::words;
use crate::release;
use crate::text;
use crate::version;
use crate::version::Version;
use vstd::prelude::*;

verus! {

/// The text holds no opening brace.
pub open spec fn braceless(s: Seq<char>) -> bool {
    forall|i: int| 0 <= i < s.len() ==> #[trigger] s[i] != '{'
}

proof fn braceless_text_stays(s: Seq<char>, pattern: Seq<char>, with: Seq<char>)
    requires
        braceless(s),
        pattern.len() > 0,
        pattern[0] == '{',
    ensures
        text::replaced(s, pattern, with) == s,
{
    let none = Seq::<char>::empty();
    words::replaced_behind(s, none, pattern, with);
    assert(s + none =~= s);
    assert(text::replaced(none, pattern, with) =~= none);
}

proof fn one_place_filled(
    before: Seq<char>,
    pattern: Seq<char>,
    after: Seq<char>,
    with: Seq<char>,
)
    requires
        pattern.len() > 0,
        pattern[0] == '{',
        braceless(before),
    ensures
        text::replaced(before + pattern + after, pattern, with) == before + with + text::replaced(
            after,
            pattern,
            with,
        ),
{
    assert(before + pattern + after =~= before + (pattern + after));
    words::replaced_behind(before, pattern + after, pattern, with);
    words::replaced_in_place(pattern, after, with);
    assert(before + (with + text::replaced(after, pattern, with)) =~= before + with
        + text::replaced(after, pattern, with));
}

proof fn places_differ(before: Seq<char>, after: Seq<char>)
    requires
        braceless(before),
        braceless(after),
    ensures
        !text::contains_text(before + "{{ version }}"@ + after, "{{ crate }}"@),
{
    reveal_strlit("{{ crate }}");
    reveal_strlit("{{ version }}");
    let v = "{{ version }}"@;
    let p = "{{ crate }}"@;
    let s = before + v + after;
    assert(v.len() == 13);
    assert(p.len() == 11);
    if text::contains_text(s, p) {
        let at = choose|at: int| text::occurs_at(s, p, at);
        let n = before.len();
        let found = s.subrange(at, at + p.len());
        assert(found[0] == s[at] && found[1] == s[at + 1] && found[3] == s[at + 3]);
        assert(p[0] == '{' && p[1] == '{' && p[3] == 'c');
        if at < n {
            assert(s[at] == before[at]);
        } else if at == n {
            assert(s[at + 3] == v[3]);
            assert(v[3] == 'v');
        } else if at == n + 1 {
            assert(s[at + 1] == v[2]);
            assert(v[2] == ' ');
        } else if at < n + 13 {
            assert(s[at] == v[at - n]);
            assert(v[2] == ' ' && v[3] == 'v' && v[4] == 'e' && v[5] == 'r' && v[6] == 's' && v[7]
                == 'i' && v[8] == 'o' && v[9] == 'n' && v[10] == ' ' && v[11] == '}' && v[12]
                == '}');
        } else {
            assert(s[at] == after[at - n - 13]);
        }
    }
}

/// A template with one place for the crate and then one for the version gives the tag with
/// both in their places, and all else as it stands.
pub proof fn places_are_filled(
    tag_template: &str,
    crate_name: &str,
    version: &Version,
    crate_count: usize,
    result: Result<String, ReleaseError>,
    a: Seq<char>,
    b: Seq<char>,
    c: Seq<char>,
)
    requires
        call_ensures(
            release::render_tag_name,
            (tag_template, crate_name, version, crate_count),
            result,
        ),
        tag_template@ == a + "{{ crate }}"@ + (b + "{{ version }}"@ + c),
        braceless(a),
        braceless(b),
        braceless(c),
        braceless(crate_name@),
    ensures
        result matches Ok(tag) && tag@ == a + crate_name@ + b + version::version_text(version@)
            + c,
{
    reveal_strlit("{{ crate }}");
    reveal_strlit("{{ version }}");
    let p = "{{ crate }}"@;
    let v = "{{ version }}"@;
    let name = crate_name@;
    let digits = version::version_text(version@);
    let rest = b + v + c;
    assert(p[0] == '{' && v[0] == '{');
    words::containing_split(tag_template@, p);
    assert(tag_template@ == a + p + rest);
    assert(release::names_crate(tag_template@));
    one_place_filled(a, p, rest, name);
    places_differ(b, c);
    text::replaced_without_pattern(rest, p, name);
    let named = a + name + rest;
    assert(named =~= (a + name + b) + v + c);
    assert(braceless(a + name + b));
    one_place_filled(a + name + b, v, c, digits);
    braceless_text_stays(c, v, digits);
}

/// A template with a place for the version alone is enough for one crate and for none, and
/// is refused for several.
pub proof fn several_crates_need_a_place_for_their_names(
    tag_template: &str,
    crate_name: &str,
    version: &Version,
    crate_count: usize,
    result: Result<String, ReleaseError>,
    a: Seq<char>,
    c: Seq<char>,
)
    requires
        call_ensures(
            release::render_tag_name,
            (tag_template, crate_name, version, crate_count),
            result,
        ),
        tag_template@ == a + "{{ version }}"@ + c,
        braceless(a),
        braceless(c),
    ensures
        crate_count > 1 ==> result == Err::<String, ReleaseError>(ReleaseError::TagTemplate),
        crate_count <= 1 ==> (result matches Ok(tag) && tag@ == a + version::version_text(version@)
            + c),
{
    reveal_strlit("{{ version }}");
    let v = "{{ version }}"@;
    let digits = version::version_text(version@);
    assert(v[0] == '{');
    places_differ(a, c);
    text::replaced_without_pattern(tag_template@, "{{ crate }}"@, crate_name@);
    one_place_filled(a, v, c, digits);
    braceless_text_stays(c, v, digits);
}

/// Whether a template will do depends on nothing but the number of crates and on whether it
/// has a place for their names, at whatever place.
pub proof fn templates_are_refused_for_want_of_a_place(
    tag_template: &str,
    crate_name: &str,
    version: &Version,
    crate_count: usize,
    result: Result<String, ReleaseError>,
)
    requires
        call_ensures(
            release::render_tag_name,
            (tag_template, crate_name, version, crate_count),
            result,
        ),
    ensures
        result is Err <==> crate_count > 1 && !exists|before: Seq<char>, after: Seq<char>|
            tag_template@ == #[trigger] (before + "{{ crate }}"@ + after),
{
    words::containing_split(tag_template@, "{{ crate }}"@);
}

/// In every template the places for the crate are filled first, and then those for the
/// version.
pub proof fn crates_are_filled_in_before_versions(
    tag_template: &str,
    crate_name: &str,
    version: &Version,
    crate_count: usize,
    result: Result<String, ReleaseError>,
    number: String,
    named: String,
    named_text: &str,
    number_text: &str,
    tag: String,
)
    requires
        call_ensures(
            release::render_tag_name,
            (tag_template, crate_name, version, crate_count),
            result,
        ),
        call_ensures(Version::to_text, (version,), number),
        call_ensures(text::replace, (tag_template, "{{ crate }}", crate_name), named),
        named_text@ == named@,
        number_text@ == number@,
        call_ensures(text::replace, (named_text, "{{ version }}", number_text), tag),
        result is Ok,
    ensures
        result->Ok_0@ == tag@,
{
}

/// Replacing goes from the front: what stands before the first place of a pattern stays, the
/// text to put in stands for the pattern, and what is behind it is replaced in the same way.
pub proof fn replacing_goes_from_the_front(
    s: &str,
    pattern: &str,
    with: &str,
    result: String,
    before: Seq<char>,
    rest: &str,
    rest_result: String,
)
    requires
        pattern@.len() > 0,
        call_ensures(text::replace, (s, pattern, with), result),
        call_ensures(text::replace, (rest, pattern, with), rest_result),
        s@ == before + pattern@ + rest@,
        forall|i: int| 0 <= i < before.len() ==> !#[trigger] text::occurs_at(s@, pattern@, i),
    ensures
        result@ == before + with@ + rest_result@,
{
    front_replaced(s@, pattern@, with@, before, rest@);
}

proof fn front_replaced(
    s: Seq<char>,
    pattern: Seq<char>,
    with: Seq<char>,
    before: Seq<char>,
    rest: Seq<char>,
)
    requires
        pattern.len() > 0,
        s == before + pattern + rest,
        forall|i: int| 0 <= i < before.len() ==> !#[trigger] text::occurs_at(s, pattern, i),
    ensures
        text::replaced(s, pattern, with) == before + with + text::replaced(rest, pattern, with),
    decreases before.len(),
{
    let behind = text::replaced(rest, pattern, with);
    if before.len() == 0 {
        assert(s.subrange(0, pattern.len() as int) =~= pattern);
        assert(text::occurs_at(s, pattern, 0));
        assert(s.skip(pattern.len() as int) =~= rest);
        assert(before + with + behind =~= with + behind);
    } else {
        let shorter = before.drop_first();
        let tail = s.drop_first();
        assert(tail =~= shorter + pattern + rest);
        assert forall|i: int| 0 <= i < shorter.len() implies !#[trigger] text::occurs_at(
            tail,
            pattern,
            i,
        ) by {
            assert(!text::occurs_at(s, pattern, i + 1));
            if i + pattern.len() <= tail.len() {
                assert(tail.subrange(i, i + pattern.len()) =~= s.subrange(
                    i + 1,
                    i + 1 + pattern.len(),
                ));
            }
        }
        front_replaced(tail, pattern, with, shorter, rest);
        assert(!text::occurs_at(s, pattern, 0));
        assert(seq![s.first()] + (shorter + with + behind) =~= before + with + behind);
    }
}

/// Where a pattern stands nowhere in a text, replacing it leaves the text as it is.
pub proof fn texts_without_the_pattern_stay(s: &str, pattern: &str, with: &str, result: String)
    requires
        pattern@.len() > 0,
        call_ensures(text::replace, (s, pattern, with), result),
        forall|i: int| !#[trigger] text::occurs_at(s@, pattern@, i),
    ensures
        result@ == s@,
{
    text::replaced_without_pattern(s@, pattern@, with@);
}

} // verus!
