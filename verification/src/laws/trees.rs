//! Looking values up in TOML.

use crate::tree;
use crate::tree::{Form, TomlEntry, TomlValue, Tree};
use vstd::prelude::*;

verus! {

/// The first entry with a key is the one that is found under it.
pub proof fn the_first_entry_is_found(
    entries: Seq<(Seq<char>, Tree, Form)>,
    form: Form,
    key: Seq<char>,
    i: int,
)
    requires
        0 <= i < entries.len(),
        entries[i].0 == key,
        forall|j: int| 0 <= j < i ==> (#[trigger] entries[j]).0 != key,
    ensures
        tree::get(Tree::Table(entries, form), key) == Some(entries[i].1),
{
    tree::position_found(entries, key);
    if let Some(k) = tree::position(entries, key) {
        if k < i {
            assert(entries[k].0 != key);
        } else if i < k {
            assert(entries[i].0 != key);
        }
    }
}

/// Nothing is found under a key that no entry has, nor in what is not a table.
pub proof fn other_keys_are_not_found(tree: Tree, key: Seq<char>)
    requires
        tree matches Tree::Table(entries, _) ==> forall|j: int|
            0 <= j < entries.len() ==> (#[trigger] entries[j]).0 != key,
    ensures
        tree::get(tree, key) is None,
{
    if let Tree::Table(entries, _) = tree {
        tree::position_found(entries, key);
        if let Some(k) = tree::position(entries, key) {
            assert(entries[k].0 != key);
        }
    }
}

/// A text is found exactly where the value is one, a flag likewise, and the entries of a
/// table and of nothing else.
pub proof fn values_are_what_they_are(
    content: Seq<char>,
    flag: bool,
    entries: Seq<(Seq<char>, Tree, Form)>,
    list: Seq<Tree>,
    form: Form,
)
    ensures
        tree::text_in(Some(Tree::Text(content, form))) == Some(content),
        tree::text_in(Some(Tree::Flag(flag, form))) is None,
        tree::text_in(Some(Tree::Table(entries, form))) is None,
        tree::text_in(Some(Tree::Tables(list))) is None,
        tree::text_in(Some(Tree::Other(form))) is None,
        tree::text_in(None) is None,
        tree::flag_in(Some(Tree::Flag(flag, form))) == Some(flag),
        tree::flag_in(Some(Tree::Text(content, form))) is None,
        tree::flag_in(Some(Tree::Table(entries, form))) is None,
        tree::flag_in(Some(Tree::Other(form))) is None,
        tree::flag_in(None) is None,
        tree::entries_in(Some(Tree::Table(entries, form))) == entries,
        tree::entries_in(Some(Tree::Text(content, form))).len() == 0,
        tree::entries_in(Some(Tree::Other(form))).len() == 0,
        tree::entries_in(Some(Tree::Tables(list))).len() == 0,
        tree::entries_in(None).len() == 0,
{
}

/// Looking a key up in a value that was read gives the value of the first entry with the key.
pub proof fn lookups_find_the_first_entry(
    value: &TomlValue,
    entries: Vec<TomlEntry>,
    key: &str,
    i: int,
    result: Option<&TomlValue>,
)
    requires
        call_ensures(TomlValue::get, (value, key), result),
        *value == TomlValue::Table(entries),
        0 <= i < entries@.len(),
        entries@[i].key@ == key@,
        forall|j: int| 0 <= j < i ==> (#[trigger] entries@[j]).key@ != key@,
    ensures
        result matches Some(found) && found@ == entries@[i].value@,
{
    let all = tree::entries_of(entries@);
    assert(value@->Table_0 =~= all);
    assert forall|j: int| 0 <= j < i implies (#[trigger] all[j]).0 != key@ by {
        assert(entries@[j].key@ != key@);
    }
    assert(all[i].0 == key@);
    the_first_entry_is_found(all, Form::Plain, key@, i);
}

/// Setting a key gives it the value, and taking it out leaves nothing under it; every other
/// key is as it was, forms included.
pub proof fn setting_and_taking_out_touch_one_key(
    entries: Seq<(Seq<char>, Tree, Form)>,
    form: Form,
    key: Seq<char>,
    value: Tree,
    other: Seq<char>,
)
    requires
        tree::keys_differ(entries),
        other != key,
    ensures
        tree::get(Tree::Table(tree::put(entries, key, value), form), key) == Some(value),
        tree::get(Tree::Table(tree::put(entries, key, value), form), other) == tree::get(
            Tree::Table(entries, form),
            other,
        ),
        tree::get(Tree::Table(tree::without(entries, key), form), key) is None,
        tree::get(Tree::Table(tree::without(entries, key), form), other) == tree::get(
            Tree::Table(entries, form),
            other,
        ),
{
    tree::put_looked_up(entries, key, value);
    tree::without_looked_up(entries, key);
}

/// A value that was read is a text or a flag exactly where it was read as one.
pub proof fn read_values_are_what_they_are(
    value: &TomlValue,
    content: Option<&String>,
    flag: Option<bool>,
)
    requires
        call_ensures(TomlValue::as_text, (value,), content),
        call_ensures(TomlValue::as_flag, (value,), flag),
    ensures
        match *value {
            TomlValue::Text(inner) => content matches Some(found) && found@ == inner@,
            _ => content is None,
        },
        match *value {
            TomlValue::Flag(inner) => flag == Some(inner),
            _ => flag is None,
        },
{
}

/// The text and the flag of a key are those of the value under it, where it is one.
pub proof fn keys_give_their_values(
    value: &TomlValue,
    key: &str,
    content: Option<String>,
    flag: Option<bool>,
)
    requires
        call_ensures(TomlValue::text_at, (value, key), content),
        call_ensures(TomlValue::flag_at, (value, key), flag),
    ensures
        match tree::get(value@, key@) {
            Some(Tree::Text(inner, _)) => content matches Some(found) && found@ == inner,
            _ => content is None,
        },
        match tree::get(value@, key@) {
            Some(Tree::Flag(inner, _)) => flag == Some(inner),
            _ => flag is None,
        },
{
}

} // verus!
