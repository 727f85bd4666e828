//! What a TOML document holds, as a tree of plain values.

use crate::text;
use vstd::prelude::*;

verus! {

/// A TOML value: texts, flags, tables and arrays of tables. The values that no rule
/// of a release looks into (numbers, dates, other arrays) are all `Other`.
pub enum TomlValue {
    Text(String),
    Flag(bool),
    Table(Vec<TomlEntry>),
    Tables(Vec<TomlValue>),
    Other,
}

/// One entry of a table.
pub struct TomlEntry {
    pub key: String,
    pub value: TomlValue,
}

/// How something is written: plainly, or in a form of its own. The form of a key or a
/// value is its spelling and the white space and comments around it; that of a table is
/// also the place of its header and whether it has one.
pub enum Form {
    Plain,
    Kept(Seq<char>),
}

/// A TOML value, in specifications: what it says and how it is written. `Absent` is the
/// place that a document keeps for a key without a value. An entry of a table is its key,
/// its value and the form of the key. Of `Other` values the form says all.
pub enum Tree {
    Absent,
    Text(Seq<char>, Form),
    Flag(bool, Form),
    Table(Seq<(Seq<char>, Tree, Form)>, Form),
    Tables(Seq<Tree>),
    Other(Form),
}

/// The tree of a value, which is not written anywhere: every form in it is plain.
pub open spec fn tree_of(value: TomlValue) -> Tree
    decreases value,
{
    match value {
        TomlValue::Text(content) => Tree::Text(content@, Form::Plain),
        TomlValue::Flag(flag) => Tree::Flag(flag, Form::Plain),
        TomlValue::Table(entries) => Tree::Table(
            Seq::new(
                entries@.len(),
                |i: int|
                    if 0 <= i < entries@.len() {
                        (entries@[i].key@, tree_of(entries@[i].value), Form::Plain)
                    } else {
                        arbitrary()
                    },
            ),
            Form::Plain,
        ),
        TomlValue::Tables(list) => Tree::Tables(
            Seq::new(
                list@.len(),
                |i: int|
                    if 0 <= i < list@.len() {
                        tree_of(list@[i])
                    } else {
                        arbitrary()
                    },
            ),
        ),
        TomlValue::Other => Tree::Other(Form::Plain),
    }
}

/// What a tree says, whatever it is written like: every form made plain.
pub open spec fn bare(tree: Tree) -> Tree
    decreases tree,
{
    match tree {
        Tree::Absent => Tree::Absent,
        Tree::Text(content, _) => Tree::Text(content, Form::Plain),
        Tree::Flag(flag, _) => Tree::Flag(flag, Form::Plain),
        Tree::Table(entries, _) => Tree::Table(
            Seq::new(
                entries.len(),
                |i: int|
                    if 0 <= i < entries.len() {
                        (entries[i].0, bare(entries[i].1), Form::Plain)
                    } else {
                        arbitrary()
                    },
            ),
            Form::Plain,
        ),
        Tree::Tables(list) => Tree::Tables(
            Seq::new(
                list.len(),
                |i: int|
                    if 0 <= i < list.len() {
                        bare(list[i])
                    } else {
                        arbitrary()
                    },
            ),
        ),
        Tree::Other(_) => Tree::Other(Form::Plain),
    }
}

/// What the entries of a table say, whatever they are written like.
pub open spec fn bare_entries(entries: Seq<(Seq<char>, Tree, Form)>) -> Seq<
    (Seq<char>, Tree, Form),
> {
    Seq::new(entries.len(), |i: int| (entries[i].0, bare(entries[i].1), Form::Plain))
}

impl View for TomlValue {
    type V = Tree;

    open spec fn view(&self) -> Tree {
        tree_of(*self)
    }
}

/// The entries of a table in specifications.
pub open spec fn entries_of(entries: Seq<TomlEntry>) -> Seq<(Seq<char>, Tree, Form)> {
    Seq::new(entries.len(), |i: int| (entries[i].key@, tree_of(entries[i].value), Form::Plain))
}

/// Where the first entry with the key stands.
pub open spec fn position(entries: Seq<(Seq<char>, Tree, Form)>, key: Seq<char>) -> Option<int>
    decreases entries.len(),
{
    if entries.len() == 0 {
        None
    } else if entries.first().0 == key {
        Some(0)
    } else {
        match position(entries.drop_first(), key) {
            Some(i) => Some(i + 1),
            None => None,
        }
    }
}

/// The value of a key in a table; nothing has keys but a table.
pub open spec fn get(tree: Tree, key: Seq<char>) -> Option<Tree> {
    match tree {
        Tree::Table(entries, _) => match position(entries, key) {
            Some(i) => Some(entries[i].1),
            None => None,
        },
        _ => None,
    }
}

/// The text of a value that is one.
pub open spec fn text_in(tree: Option<Tree>) -> Option<Seq<char>> {
    match tree {
        Some(Tree::Text(content, _)) => Some(content),
        _ => None,
    }
}

/// The flag of a value that is one.
pub open spec fn flag_in(tree: Option<Tree>) -> Option<bool> {
    match tree {
        Some(Tree::Flag(flag, _)) => Some(flag),
        _ => None,
    }
}

/// The entries of a value that is a table, and none of any other.
pub open spec fn entries_in(tree: Option<Tree>) -> Seq<(Seq<char>, Tree, Form)> {
    match tree {
        Some(Tree::Table(entries, _)) => entries,
        _ => Seq::empty(),
    }
}

/// The entries with the value of a key set, and the key written plainly: in its place
/// where the key is there, behind the others where it is not.
pub open spec fn put(
    entries: Seq<(Seq<char>, Tree, Form)>,
    key: Seq<char>,
    value: Tree,
) -> Seq<(Seq<char>, Tree, Form)> {
    match position(entries, key) {
        Some(i) => entries.update(i, (key, value, Form::Plain)),
        None => entries.push((key, value, Form::Plain)),
    }
}

/// The entries without a key.
pub open spec fn without(entries: Seq<(Seq<char>, Tree, Form)>, key: Seq<char>) -> Seq<
    (Seq<char>, Tree, Form),
> {
    match position(entries, key) {
        Some(i) => entries.remove(i),
        None => entries,
    }
}

/// A table with the value of one of its keys replaced.
pub open spec fn with_child(table: Tree, key: Seq<char>, child: Tree) -> Tree {
    match table {
        Tree::Table(entries, form) => match position(entries, key) {
            Some(i) => Tree::Table(entries.update(i, (entries[i].0, child, entries[i].2)), form),
            None => table,
        },
        _ => table,
    }
}

/// No two entries have the same key.
pub open spec fn keys_differ(entries: Seq<(Seq<char>, Tree, Form)>) -> bool {
    forall|i: int, j: int|
        #![trigger entries[i], entries[j]]
        0 <= i < j < entries.len() ==> entries[i].0 != entries[j].0
}

/// Every value is there, every table has each of its keys once, and every element of
/// an array of tables is a table.
pub open spec fn well_formed(tree: Tree) -> bool
    decreases tree,
{
    match tree {
        Tree::Absent => false,
        Tree::Table(entries, _) => {
            &&& keys_differ(entries)
            &&& forall|i: int|
                #![trigger entries[i]]
                0 <= i < entries.len() ==> well_formed(entries[i].1)
        },
        Tree::Tables(list) => forall|i: int|
            #![trigger list[i]]
            0 <= i < list.len() ==> list[i] is Table && well_formed(list[i]),
        _ => true,
    }
}

/// The position of a key is that of an entry with the key, and there is one exactly
/// where the key is.
pub proof fn position_found(entries: Seq<(Seq<char>, Tree, Form)>, key: Seq<char>)
    ensures
        match position(entries, key) {
            Some(i) => 0 <= i < entries.len() && entries[i].0 == key && forall|k: int|
                0 <= k < i ==> (#[trigger] entries[k]).0 != key,
            None => forall|k: int| 0 <= k < entries.len() ==> (#[trigger] entries[k]).0 != key,
        },
    decreases entries.len(),
{
    if entries.len() > 0 && entries.first().0 != key {
        let rest = entries.drop_first();
        position_found(rest, key);
        match position(rest, key) {
            Some(i) => {
                assert forall|k: int| 0 <= k < i + 1 implies (#[trigger] entries[k]).0 != key by {
                    if k > 0 {
                        assert(rest[k - 1] == entries[k]);
                    }
                }
            },
            None => {
                assert forall|k: int| 0 <= k < entries.len() implies (#[trigger] entries[k]).0
                    != key by {
                    if k > 0 {
                        assert(rest[k - 1] == entries[k]);
                    }
                }
            },
        }
    }
}

/// Where keys differ, the position of a key is the only one that it stands at.
pub proof fn position_only(entries: Seq<(Seq<char>, Tree, Form)>, i: int)
    requires
        keys_differ(entries),
        0 <= i < entries.len(),
    ensures
        position(entries, entries[i].0) == Some(i),
{
    position_found(entries, entries[i].0);
}

/// What a lookup gives after one entry of a table was given another value, or a key that
/// was not there was added, and that the table stays well-formed.
proof fn entry_looked_up(
    entries: Seq<(Seq<char>, Tree, Form)>,
    key: Seq<char>,
    value: Tree,
    spelling: Form,
    after: Seq<(Seq<char>, Tree, Form)>,
)
    requires
        after == match position(entries, key) {
            Some(i) => entries.update(i, (key, value, spelling)),
            None => entries.push((key, value, spelling)),
        },
    ensures
        forall|form: Form| #[trigger] get(Tree::Table(after, form), key) == Some(value),
        forall|form: Form, other: Seq<char>|
            other != key ==> #[trigger] get(Tree::Table(after, form), other) == get(
                Tree::Table(entries, form),
                other,
            ),
        forall|form: Form|
            well_formed(Tree::Table(entries, form)) && well_formed(value) ==>
                #[trigger] well_formed(
                Tree::Table(after, form),
            ),
{
    position_found(entries, key);
    position_found(after, key);
    let at = match position(entries, key) {
        Some(i) => i,
        None => entries.len() as int,
    };
    assert(after[at] == (key, value, spelling));
    assert forall|form: Form, other: Seq<char>| other != key implies #[trigger] get(
        Tree::Table(after, form),
        other,
    ) == get(Tree::Table(entries, form), other) by {
        position_found(entries, other);
        position_found(after, other);
        match position(entries, other) {
            Some(i) => {
                assert(after[i] == entries[i]);
            },
            None => {
                if position(after, other) is Some {
                    let i = position(after, other)->0;
                    assert(after[i] == entries[i]);
                }
            },
        }
    }
    assert forall|form: Form|
        well_formed(Tree::Table(entries, form)) && well_formed(
            value,
        ) implies #[trigger] well_formed(Tree::Table(after, form)) by {
        assert forall|i: int, j: int| #![trigger after[i], after[j]] 0 <= i < j < after.len() implies
            after[i].0 != after[j].0 by {
            if i != at {
                assert(after[i] == entries[i]);
            }
            if j != at {
                assert(after[j] == entries[j]);
            }
            if position(entries, key) is Some {
                assert(entries[at].0 == key);
            }
        }
        assert forall|i: int| #![trigger after[i]] 0 <= i < after.len() implies well_formed(
            after[i].1,
        ) by {
            if i != at {
                assert(after[i] == entries[i]);
            }
        }
    }
}

/// What a lookup gives after the value of a key was set, and that the table stays
/// well-formed.
pub proof fn put_looked_up(
    entries: Seq<(Seq<char>, Tree, Form)>,
    key: Seq<char>,
    value: Tree,
)
    ensures
        forall|form: Form|
            #[trigger] get(Tree::Table(put(entries, key, value), form), key) == Some(value),
        forall|form: Form, other: Seq<char>|
            other != key ==> #[trigger] get(
                Tree::Table(put(entries, key, value), form),
                other,
            ) == get(Tree::Table(entries, form), other),
        forall|form: Form|
            well_formed(Tree::Table(entries, form)) && well_formed(value) ==>
                #[trigger] well_formed(
                Tree::Table(put(entries, key, value), form),
            ),
{
    entry_looked_up(entries, key, value, Form::Plain, put(entries, key, value));
}

/// What a lookup gives after a key was taken out of a table with differing keys, and
/// that the table stays well-formed.
pub proof fn without_looked_up(entries: Seq<(Seq<char>, Tree, Form)>, key: Seq<char>)
    requires
        keys_differ(entries),
    ensures
        forall|form: Form|
            (#[trigger] get(Tree::Table(without(entries, key), form), key)) is None,
        forall|form: Form, other: Seq<char>|
            other != key ==> #[trigger] get(
                Tree::Table(without(entries, key), form),
                other,
            ) == get(Tree::Table(entries, form), other),
        forall|form: Form|
            well_formed(Tree::Table(entries, form)) ==> #[trigger] well_formed(
                Tree::Table(without(entries, key), form),
            ),
{
    let after = without(entries, key);
    position_found(entries, key);
    position_found(after, key);
    if let Some(at) = position(entries, key) {
        assert forall|k: int| 0 <= k < after.len() implies #[trigger] after[k] == entries[if k
            < at {
            k
        } else {
            k + 1
        }] by {}
        if let Some(k) = position(after, key) {
            assert(entries[at].0 == entries[if k < at {
                k
            } else {
                k + 1
            }].0);
            assert(false);
        }
        assert forall|form: Form, other: Seq<char>| other != key implies #[trigger] get(
            Tree::Table(after, form),
            other,
        ) == get(Tree::Table(entries, form), other) by {
            position_found(entries, other);
            position_found(after, other);
            match position(entries, other) {
                Some(i) => {
                    let k = if i < at {
                        i
                    } else {
                        i - 1
                    };
                    assert(after[k] == entries[i]);
                    let m = position(after, other)->0;
                    let n = if m < at {
                        m
                    } else {
                        m + 1
                    };
                    assert(after[m] == entries[n]);
                    assert(entries[n].0 == entries[i].0);
                    assert(n == i);
                },
                None => {
                    if let Some(m) = position(after, other) {
                        assert(after[m] == entries[if m < at {
                            m
                        } else {
                            m + 1
                        }]);
                        assert(false);
                    }
                },
            }
        }
        assert forall|form: Form| well_formed(
            Tree::Table(entries, form),
        ) implies #[trigger] well_formed(Tree::Table(after, form)) by {
            assert forall|i: int, j: int|
                #![trigger after[i], after[j]]
                0 <= i < j < after.len() implies after[i].0 != after[j].0 by {
                let a = if i < at {
                    i
                } else {
                    i + 1
                };
                let b = if j < at {
                    j
                } else {
                    j + 1
                };
                assert(entries[a].0 != entries[b].0);
            }
            assert forall|i: int| #![trigger after[i]] 0 <= i < after.len() implies well_formed(
                after[i].1,
            ) by {
                assert(after[i] == entries[if i < at {
                    i
                } else {
                    i + 1
                }]);
            }
        }
    }
}

/// Replacing the value of an entry by a well-formed one keeps a table well-formed.
pub proof fn update_well_formed(
    entries: Seq<(Seq<char>, Tree, Form)>,
    form: Form,
    i: int,
    value: Tree,
)
    requires
        well_formed(Tree::Table(entries, form)),
        0 <= i < entries.len(),
        well_formed(value),
    ensures
        well_formed(
            Tree::Table(entries.update(i, (entries[i].0, value, entries[i].2)), form),
        ),
{
    position_only(entries, i);
    entry_looked_up(
        entries,
        entries[i].0,
        value,
        entries[i].2,
        entries.update(i, (entries[i].0, value, entries[i].2)),
    );
}

/// What a lookup gives in a table with the value of a key replaced, and that the table
/// stays well-formed.
pub proof fn child_looked_up(table: Tree, key: Seq<char>, child: Tree)
    requires
        well_formed(table),
        get(table, key) is Some,
    ensures
        get(with_child(table, key, child), key) == Some(child),
        forall|other: Seq<char>|
            other != key ==> #[trigger] get(with_child(table, key, child), other) == get(
                table,
                other,
            ),
        well_formed(child) ==> well_formed(with_child(table, key, child)),
        with_child(table, key, child) is Table,
        well_formed(get(table, key)->0),
{
    let entries = table->Table_0;
    let form = table->Table_1;
    position_found(entries, key);
    let i = position(entries, key)->0;
    let after = entries.update(i, (entries[i].0, child, entries[i].2));
    entry_looked_up(entries, key, child, entries[i].2, after);
    assert(with_child(table, key, child) == Tree::Table(after, form));
    assert(well_formed(entries[i].1));
}

/// Replacing the value of a key by itself changes nothing.
pub proof fn child_stays(table: Tree, key: Seq<char>)
    requires
        get(table, key) is Some,
    ensures
        with_child(table, key, get(table, key)->0) == table,
{
    let entries = table->Table_0;
    position_found(entries, key);
    let i = position(entries, key)->0;
    assert(entries.update(i, (entries[i].0, entries[i].1, entries[i].2)) =~= entries);
}

/// A key stands at the same place whatever the entries are written like.
proof fn bare_position(entries: Seq<(Seq<char>, Tree, Form)>, key: Seq<char>)
    ensures
        position(bare_entries(entries), key) == position(entries, key),
    decreases entries.len(),
{
    if entries.len() > 0 {
        assert(bare_entries(entries).drop_first() =~= bare_entries(entries.drop_first()));
        bare_position(entries.drop_first(), key);
    }
}

/// What is looked up in a tree says the same, whatever the tree is written like.
pub proof fn bare_looked_up(tree: Tree, key: Seq<char>)
    ensures
        get(bare(tree), key) == match get(tree, key) {
            Some(child) => Some(bare(child)),
            None => None,
        },
        text_in(get(bare(tree), key)) == text_in(get(tree, key)),
        flag_in(get(bare(tree), key)) == flag_in(get(tree, key)),
        entries_in(get(bare(tree), key)) == bare_entries(entries_in(get(tree, key))),
        tree is Table <==> bare(tree) is Table,
{
    if let Tree::Table(entries, _) = tree {
        assert(bare(tree)->Table_0 =~= bare_entries(entries));
        bare_position(entries, key);
        position_found(entries, key);
        if let Some(Tree::Table(inner, _)) = get(tree, key) {
            assert(entries_in(get(bare(tree), key)) =~= bare_entries(inner));
        } else {
            assert(entries_in(get(bare(tree), key)) =~= bare_entries(entries_in(get(tree, key))));
        }
    } else {
        assert(entries_in(get(bare(tree), key)) =~= bare_entries(entries_in(get(tree, key))));
    }
}

/// A value that was read from a tree has the entries of the tree, and as many elements.
pub proof fn entries_read(value: TomlValue, tree: Tree)
    requires
        value@ == bare(tree),
    ensures
        match value {
            TomlValue::Table(entries) => tree is Table && entries_of(entries@) == bare_entries(
                tree->Table_0,
            ) && entries@.len() == tree->Table_0.len(),
            TomlValue::Tables(list) => tree is Tables && list@.len() == tree->Tables_0.len(),
            _ => !(tree is Table) && !(tree is Tables),
        },
{
    match value {
        TomlValue::Table(entries) => {
            assert(tree_of(value)->Table_0 =~= entries_of(entries@));
            assert(bare(tree)->Table_0 =~= bare_entries(tree->Table_0));
            assert(entries_of(entries@).len() == entries@.len());
        },
        TomlValue::Tables(list) => {
            assert(tree_of(value)->Tables_0.len() == list@.len());
            assert(bare(tree)->Tables_0.len() == tree->Tables_0.len());
        },
        _ => {},
    }
}

impl TomlValue {
    /// The value of a key, where this is a table that has it.
    pub fn get(&self, key: &str) -> (result: Option<&TomlValue>)
        ensures
            match result {
                Some(value) => get(self@, key@) == Some(value@),
                None => get(self@, key@) is None,
            },
    {
        match self {
            TomlValue::Table(entries) => {
                let ghost all = entries_of(entries@);
                assert(self@->Table_0 =~= all);
                let mut i: usize = 0;
                assert(all.skip(0) =~= all);
                while i < entries.len()
                    invariant
                        i <= entries.len(),
                        all == entries_of(entries@),
                        self@ == Tree::Table(all, Form::Plain),
                        position(all, key@) == match position(all.skip(i as int), key@) {
                            Some(k) => Some(k + i),
                            None => None,
                        },
                    decreases entries.len() - i,
                {
                    assert(all.skip(i as int).first() == all[i as int]);
                    if text::same_text(entries[i].key.as_str(), key) {
                        return Some(&entries[i].value);
                    }
                    assert(all.skip(i as int).drop_first() =~= all.skip(i + 1));
                    i += 1;
                }
                None
            },
            _ => None,
        }
    }

    /// The text, where this is one.
    pub fn as_text(&self) -> (result: Option<&String>)
        ensures
            match result {
                Some(content) => text_in(Some(self@)) == Some(content@),
                None => text_in(Some(self@)) is None,
            },
    {
        match self {
            TomlValue::Text(content) => Some(content),
            _ => None,
        }
    }

    /// The flag, where this is one.
    pub fn as_flag(&self) -> (result: Option<bool>)
        ensures
            result == flag_in(Some(self@)),
    {
        match self {
            TomlValue::Flag(flag) => Some(*flag),
            _ => None,
        }
    }

    /// The text of a key, where this is a table that has one.
    pub fn text_at(&self, key: &str) -> (result: Option<String>)
        ensures
            text::maybe_text(result) == text_in(get(self@, key@)),
    {
        match self.get(key) {
            Some(value) => match value.as_text() {
                Some(content) => Some(content.clone()),
                None => None,
            },
            None => None,
        }
    }

    /// The flag of a key, where this is a table that has one.
    pub fn flag_at(&self, key: &str) -> (result: Option<bool>)
        ensures
            result == flag_in(get(self@, key@)),
    {
        match self.get(key) {
            Some(value) => value.as_flag(),
            None => None,
        }
    }
}

} // verus!
