//! The TOML documents of the `toml` and `toml_edit` crates.

use crate::tree;
use crate::tree::{Form, TomlEntry, TomlValue, Tree};
use vstd::prelude::*;

verus! {

#[verifier::external_type_specification]
#[verifier::external_body]
pub struct ExTomlValue(toml::Value);

#[verifier::external_type_specification]
#[verifier::external_body]
pub struct ExItem(toml_edit::Item);

#[verifier::external_type_specification]
#[verifier::external_body]
pub struct ExDocument(toml_edit::DocumentMut);

/// What a `toml::Value` holds: a string is a text, a boolean a flag, a table a table
/// with its keys in the order in which its map walks them, and the rest `Other`. A
/// `toml::Value` does not keep how it was written: every form is plain.
pub uninterp spec fn value_tree(value: toml::Value) -> Tree;

/// What a `toml_edit::Item` holds: a string is a text, a boolean a flag, a table or an
/// inline table a table with its keys in the order of the document, an array of tables
/// one, `Item::None` is absent, and the rest is `Other`. The form of a key, a string or a
/// boolean is its representation and its decor, and is plain where neither is set. The
/// form of a table is all that it keeps besides its entries, and which kind of table it
/// is. The form of an `Other` value holds the whole value, how it is written included.
pub uninterp spec fn item_tree(item: toml_edit::Item) -> Tree;

/// What the root table of a `toml_edit::DocumentMut` holds, as `item_tree` says it, with
/// what stands behind the last entry as a part of its form; absent where the root is
/// another kind of item.
pub uninterp spec fn document_tree(document: toml_edit::DocumentMut) -> Tree;

/// What `to_string` writes for a `toml_edit::DocumentMut` with the tree.
pub uninterp spec fn document_text(document: Tree) -> Seq<char>;

/// What parsing a text as a `toml::Value` gives: what it holds, or the message.
pub uninterp spec fn toml_parse(s: Seq<char>) -> Result<Tree, Seq<char>>;

/// What parsing a text as a `toml_edit::DocumentMut` gives: what it holds, or the
/// message.
pub uninterp spec fn toml_edit_parse(s: Seq<char>) -> Result<Tree, Seq<char>>;

/// Calls `str::parse` for a `toml::Value`, which reads a whole document. Claims that the
/// outcome is a function of the text, and that what was read is well-formed.
#[verifier::external_body]
fn parse_value(input: &str) -> (result: Result<toml::Value, String>)
    ensures
        match result {
            Ok(value) => toml_parse(input@) == Ok::<Tree, Seq<char>>(value_tree(value))
                && tree::well_formed(value_tree(value)),
            Err(message) => toml_parse(input@) == Err::<Tree, Seq<char>>(message@),
        },
{
    input.parse::<toml::Value>().map_err(|error| error.to_string())
}

/// Takes a `toml::Value` apart. Claims that the result is what the value holds.
#[verifier::external_body]
fn read_value(value: toml::Value) -> (result: TomlValue)
    ensures
        result@ == value_tree(value),
{
    match value {
        toml::Value::String(content) => TomlValue::Text(content),
        toml::Value::Boolean(flag) => TomlValue::Flag(flag),
        toml::Value::Table(table) => TomlValue::Table(
            table.into_iter().map(
                |(key, value)| TomlEntry { key, value: read_value(value) },
            ).collect(),
        ),
        _ => TomlValue::Other,
    }
}

/// Reads a TOML document.
pub fn read_toml(input: &str) -> (result: Result<TomlValue, String>)
    ensures
        match result {
            Ok(value) => toml_parse(input@) == Ok::<Tree, Seq<char>>(value@) && tree::well_formed(
                value@,
            ),
            Err(message) => toml_parse(input@) == Err::<Tree, Seq<char>>(message@),
        },
{
    match parse_value(input) {
        Ok(value) => Ok(read_value(value)),
        Err(message) => Err(message),
    }
}

/// Calls `str::parse` for a `toml_edit::DocumentMut`. Claims that the outcome is a
/// function of the text, and that what was read is a well-formed table.
#[verifier::external_body]
pub(crate) fn parse_document(input: &str) -> (result: Result<toml_edit::DocumentMut, String>)
    ensures
        match result {
            Ok(document) => toml_edit_parse(input@) == Ok::<Tree, Seq<char>>(
                document_tree(document),
            ) && tree::well_formed(document_tree(document)) && document_tree(document) is Table,
            Err(message) => toml_edit_parse(input@) == Err::<Tree, Seq<char>>(message@),
        },
{
    input.parse::<toml_edit::DocumentMut>().map_err(|error| error.to_string())
}

/// Calls `DocumentMut::to_string`. Claims that the text is a function of what the document
/// holds, forms included. That the text is read back as what was written is not said.
#[verifier::external_body]
pub(crate) fn render_document(document: &toml_edit::DocumentMut) -> (result: String)
    requires
        document_tree(*document) is Table,
    ensures
        result@ == document_text(document_tree(*document)),
{
    document.to_string()
}

/// Calls `DocumentMut::as_item`, the root of the document. Claims that a root table says
/// what the document says.
#[verifier::external_body]
pub(crate) fn root_of(document: &toml_edit::DocumentMut) -> (result: &toml_edit::Item)
    requires
        document_tree(*document) is Table,
        tree::well_formed(document_tree(*document)),
    ensures
        tree::bare(item_tree(*result)) == tree::bare(document_tree(*document)),
        tree::well_formed(item_tree(*result)),
{
    document.as_item()
}

/// Calls `Table::get_mut` on the root table of a document. Claims that it gives the value
/// of the key where there is one, that what becomes of that value becomes of it in the
/// document, and that all else in the document stays as it is and as it is written.
#[verifier::external_body]
pub(crate) fn entry_mut<'a>(document: &'a mut toml_edit::DocumentMut, key: &str) -> (result: Option<
    &'a mut toml_edit::Item,
>)
    requires
        document_tree(*old(document)) is Table,
        tree::well_formed(document_tree(*old(document))),
    ensures
        match result {
            Some(child) => {
                &&& tree::get(document_tree(*old(document)), key@) == Some(item_tree(*child))
                &&& document_tree(*final(document)) == tree::with_child(
                    document_tree(*old(document)),
                    key@,
                    item_tree(*final(child)),
                )
            },
            None => tree::get(document_tree(*old(document)), key@) is None && document_tree(
                *final(document),
            ) == document_tree(*old(document)),
        },
{
    document.get_mut(key)
}

/// Takes a `toml_edit::Item` apart, by `as_table_like`, `as_array_of_tables`, `as_str`
/// and `as_bool`. Claims that the result is what the item says.
#[verifier::external_body]
pub(crate) fn read_item(item: &toml_edit::Item) -> (result: TomlValue)
    requires
        tree::well_formed(item_tree(*item)),
    ensures
        result@ == tree::bare(item_tree(*item)),
{
    match (item.as_table_like(), item.as_array_of_tables(), item.as_str(), item.as_bool()) {
        (Some(table), _, _, _) => TomlValue::Table(
            table.iter().map(
                |(key, value)| TomlEntry { key: key.to_string(), value: read_item(value) },
            ).collect(),
        ),
        (_, Some(list), _, _) => TomlValue::Tables(
            (0..list.len()).map(|index| read_item(&item[index])).collect(),
        ),
        (_, _, Some(content), _) => TomlValue::Text(content.to_string()),
        (_, _, _, Some(flag)) => TomlValue::Flag(flag),
        _ => TomlValue::Other,
    }
}

/// Calls `TableLike::get_mut` on an item that is a table. Claims that it gives the
/// value of the key where there is one, that what becomes of that value becomes of it in
/// the table, and that all else in the table stays as it is and as it is written.
#[verifier::external_body]
pub(crate) fn child_mut<'a>(item: &'a mut toml_edit::Item, key: &str) -> (result: Option<
    &'a mut toml_edit::Item,
>)
    requires
        tree::well_formed(item_tree(*old(item))),
    ensures
        match result {
            Some(child) => {
                &&& tree::get(item_tree(*old(item)), key@) == Some(item_tree(*child))
                &&& item_tree(*final(item)) == tree::with_child(
                    item_tree(*old(item)),
                    key@,
                    item_tree(*final(child)),
                )
            },
            None => tree::get(item_tree(*old(item)), key@) is None && item_tree(*final(item))
                == item_tree(*old(item)),
        },
{
    item.as_table_like_mut().and_then(|table| table.get_mut(key))
}

/// Calls `Item::get_mut` with an index on an item that is an array of tables. Claims
/// that it gives the element, that what becomes of the element becomes of it in the
/// array, and that the other elements stay as they are and as they are written.
#[verifier::external_body]
pub(crate) fn element_mut(item: &mut toml_edit::Item, index: usize) -> (result:
    &mut toml_edit::Item)
    requires
        tree::well_formed(item_tree(*old(item))),
        item_tree(*old(item)) matches Tree::Tables(list) && index < list.len(),
    ensures
        item_tree(*result) == item_tree(*old(item))->Tables_0[index as int],
        item_tree(*final(item)) == Tree::Tables(
            item_tree(*old(item))->Tables_0.update(index as int, item_tree(*final(result))),
        ),
{
    item.get_mut(index).unwrap()
}

/// Calls `TableLike::insert` with a string on an item that is a table. Claims that it
/// sets the value of the key, in its place or behind the other entries, with key and value
/// written plainly, and that all else in the table stays as it is and as it is written.
#[verifier::external_body]
pub(crate) fn insert_text(item: &mut toml_edit::Item, key: &str, content: &str)
    requires
        tree::well_formed(item_tree(*old(item))),
        item_tree(*old(item)) is Table,
    ensures
        item_tree(*final(item)) == Tree::Table(
            tree::put(
                item_tree(*old(item))->Table_0,
                key@,
                Tree::Text(content@, Form::Plain),
            ),
            item_tree(*old(item))->Table_1,
        ),
{
    item.as_table_like_mut().unwrap().insert(key, toml_edit::value(content));
}

/// Calls `TableLike::remove` on an item that is a table. Claims that it takes the entry
/// of the key out and leaves all else in the table as it is and as it is written.
#[verifier::external_body]
pub(crate) fn remove_key(item: &mut toml_edit::Item, key: &str)
    requires
        tree::well_formed(item_tree(*old(item))),
        item_tree(*old(item)) is Table,
    ensures
        item_tree(*final(item)) == Tree::Table(
            tree::without(item_tree(*old(item))->Table_0, key@),
            item_tree(*old(item))->Table_1,
        ),
{
    item.as_table_like_mut().unwrap().remove(key);
}

} // verus!
