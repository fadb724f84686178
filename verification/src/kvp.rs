//! Texts kept under keys, in one table or in a table per namespace.
//!
//! These are the tables that reads are answered from. Whoever holds a database behind them
//! writes to it first and here once that has succeeded.
use crate::session_store::path_map;
use crate::text::text_option;
use crate::text_map::TextMap;
use vstd::prelude::*;

verus! {

/// The rows of a database: key and value; and namespace, key and value.
pub struct AppDatabase {
    pub kv_store: Vec<(String, String)>,
    pub scoped_kv_store: Vec<(String, String, String)>,
}

/// The table in which it is noted whether what a key stands for has been dismissed.
pub open spec fn with_dismissal(
    table: Map<Seq<char>, Seq<char>>,
    key: Seq<char>,
    is_dismissed: bool,
) -> Map<Seq<char>, Seq<char>> {
    if is_dismissed {
        table.insert(key, "1"@)
    } else {
        table.remove(key)
    }
}

/// The value of a key in a table.
pub open spec fn value_of(table: Map<Seq<char>, Seq<char>>, key: Seq<char>) -> Option<Seq<char>> {
    if table.contains_key(key) {
        Some(table[key])
    } else {
        None
    }
}

fn read_table(table: &TextMap<String>, key: &str) -> (value: Option<String>)
    ensures
        text_option(value) == value_of(path_map(table@), key@),
{
    match table.get(key) {
        Some(value) => Some(value.clone()),
        None => None,
    }
}

/// The table that rows make. A key is there once, with the value of its last row.
pub open spec fn table_of(rows: Seq<(String, String)>) -> Map<Seq<char>, Seq<char>>
    decreases rows.len(),
{
    if rows.len() == 0 {
        Map::empty()
    } else {
        table_of(rows.drop_last()).insert(rows.last().0@, rows.last().1@)
    }
}

/// The tables by namespace that rows make.
pub open spec fn scoped_table_of(rows: Seq<(String, String, String)>) -> Map<
    Seq<char>,
    Map<Seq<char>, Seq<char>>,
>
    decreases rows.len(),
{
    if rows.len() == 0 {
        Map::empty()
    } else {
        with_scoped(
            scoped_table_of(rows.drop_last()),
            rows.last().0@,
            rows.last().1@,
            rows.last().2@,
        )
    }
}

/// The table of a namespace; an empty one where nothing was written under it.
pub open spec fn namespace_of(
    scoped: Map<Seq<char>, Map<Seq<char>, Seq<char>>>,
    namespace: Seq<char>,
) -> Map<Seq<char>, Seq<char>> {
    if scoped.contains_key(namespace) {
        scoped[namespace]
    } else {
        Map::empty()
    }
}

pub open spec fn with_scoped(
    scoped: Map<Seq<char>, Map<Seq<char>, Seq<char>>>,
    namespace: Seq<char>,
    key: Seq<char>,
    value: Seq<char>,
) -> Map<Seq<char>, Map<Seq<char>, Seq<char>>> {
    scoped.insert(namespace, namespace_of(scoped, namespace).insert(key, value))
}

pub struct KeyValueStore {
    table: TextMap<String>,
    scoped: TextMap<TextMap<String>>,
}

pub open spec fn scoped_map(scoped: Map<Seq<char>, TextMap<String>>) -> Map<
    Seq<char>,
    Map<Seq<char>, Seq<char>>,
> {
    scoped.map_values(|table: TextMap<String>| path_map(table@))
}

/// What a [`KeyValueStore`] holds.
pub struct KeyValueView {
    pub table: Map<Seq<char>, Seq<char>>,
    pub scoped: Map<Seq<char>, Map<Seq<char>, Seq<char>>>,
}

impl View for KeyValueStore {
    type V = KeyValueView;

    closed spec fn view(&self) -> KeyValueView {
        KeyValueView { table: path_map(self.table@), scoped: scoped_map(self.scoped@) }
    }
}

impl KeyValueStore {
    /// A store over the rows of a database.
    pub fn from_app_db(db: AppDatabase) -> (store: KeyValueStore)
        ensures
            store@.table == table_of(db.kv_store@),
            forall|namespace: Seq<char>| #[trigger]
                namespace_of(store@.scoped, namespace) == namespace_of(
                    scoped_table_of(db.scoped_kv_store@),
                    namespace,
                ),
    {
        let ghost rows = db.kv_store@;
        let ghost scoped_rows = db.scoped_kv_store@;
        let mut store = KeyValueStore { table: TextMap::new(), scoped: TextMap::new() };
        assert(store@.table =~= Map::empty());
        assert(store@.scoped =~= Map::empty());
        for row in it: db.kv_store
            invariant
                it.seq() == rows,
                store@.table == table_of(rows.take(it.index())),
                store@.scoped == Map::<Seq<char>, Map<Seq<char>, Seq<char>>>::empty(),
        {
            proof {
                assert(rows.take(it.index() + 1).drop_last() =~= rows.take(it.index()));
                assert(rows.take(it.index() + 1).last() == row);
            }
            store.write_kvp(row.0, row.1);
        }
        assert(rows.take(rows.len() as int) =~= rows);
        assert(scoped_rows.take(0) =~= Seq::empty());
        for row in it: db.scoped_kv_store
            invariant
                it.seq() == scoped_rows,
                store@.table == table_of(rows),
                forall|namespace: Seq<char>| #[trigger]
                    namespace_of(store@.scoped, namespace) == namespace_of(
                        scoped_table_of(scoped_rows.take(it.index())),
                        namespace,
                    ),
        {
            proof {
                assert(scoped_rows.take(it.index() + 1).drop_last() =~= scoped_rows.take(
                    it.index(),
                ));
                assert(scoped_rows.take(it.index() + 1).last() == row);
            }
            let ghost before = store@.scoped;
            let scope = store.scoped(row.0.as_str());
            scope.write(&mut store, row.1, row.2);
            proof {
                let earlier = scoped_table_of(scoped_rows.take(it.index()));
                assert(namespace_of(before, row.0@) == namespace_of(earlier, row.0@));
                assert forall|namespace: Seq<char>| #[trigger]
                    namespace_of(store@.scoped, namespace) == namespace_of(
                        scoped_table_of(scoped_rows.take(it.index() + 1)),
                        namespace,
                    ) by {
                    assert(namespace_of(before, namespace) == namespace_of(earlier, namespace));
                }
            }
        }
        assert(scoped_rows.take(scoped_rows.len() as int) =~= scoped_rows);
        store
    }

    pub fn read_kvp(&self, key: &str) -> (value: Option<String>)
        ensures
            text_option(value) == value_of(self@.table, key@),
    {
        read_table(&self.table, key)
    }

    /// Puts a value under a key, in place of the one it had.
    pub fn write_kvp(&mut self, key: String, value: String)
        ensures
            final(self)@.table == old(self)@.table.insert(key@, value@),
            final(self)@.scoped == old(self)@.scoped,
    {
        self.table.insert(key, value);
        assert(self@.table =~= old(self)@.table.insert(key@, value@));
    }

    pub fn delete_kvp(&mut self, key: &str)
        ensures
            final(self)@.table == old(self)@.table.remove(key@),
            final(self)@.scoped == old(self)@.scoped,
    {
        self.table.remove(key);
        assert(self@.table =~= old(self)@.table.remove(key@));
    }

    /// The tables of a namespace.
    pub fn scoped<'a>(&self, namespace: &'a str) -> (scope: ScopedKeyValueStore<'a>)
        ensures
            scope.namespace@ == namespace@,
    {
        ScopedKeyValueStore { namespace }
    }

    /// Whether what a key stands for has been dismissed: it has a value.
    pub fn dismissed(&self, key: &str) -> (result: bool)
        ensures
            result == self@.table.contains_key(key@),
    {
        self.read_kvp(key).is_some()
    }

    /// Notes that what a key stands for has been dismissed, or that it has not.
    pub fn set_dismissed(&mut self, key: &str, is_dismissed: bool)
        ensures
            final(self)@.table == (if is_dismissed {
                old(self)@.table.insert(key@, "1"@)
            } else {
                old(self)@.table.remove(key@)
            }),
            final(self)@.scoped == old(self)@.scoped,
            final(self)@.table == with_dismissal(old(self)@.table, key@, is_dismissed),
    {
        if is_dismissed {
            self.write_kvp(key.to_owned(), "1".to_owned());
        } else {
            self.delete_kvp(key);
        }
    }
}

/// The keys of one namespace of a [`KeyValueStore`].
pub struct ScopedKeyValueStore<'a> {
    pub namespace: &'a str,
}

impl<'a> ScopedKeyValueStore<'a> {
    pub fn read(&self, store: &KeyValueStore, key: &str) -> (value: Option<String>)
        ensures
            text_option(value) == value_of(
                namespace_of(store@.scoped, self.namespace@),
                key@,
            ),
    {
        match store.scoped.get(self.namespace) {
            Some(table) => read_table(table, key),
            None => None,
        }
    }

    /// Puts a value under a key of the namespace, in place of the one it had.
    pub fn write(&self, store: &mut KeyValueStore, key: String, value: String)
        ensures
            final(store)@.table == old(store)@.table,
            forall|namespace: Seq<char>| #[trigger]
                namespace_of(final(store)@.scoped, namespace) == (if namespace
                    == self.namespace@ {
                    namespace_of(old(store)@.scoped, namespace).insert(key@, value@)
                } else {
                    namespace_of(old(store)@.scoped, namespace)
                }),
    {
        let mut table = self.copy_of(store);
        let ghost old_table = table@;
        table.insert(key, value);
        assert(path_map(table@) =~= path_map(old_table).insert(key@, value@));
        self.put(store, table);
    }

    pub fn delete(&self, store: &mut KeyValueStore, key: &str)
        ensures
            final(store)@.table == old(store)@.table,
            forall|namespace: Seq<char>| #[trigger]
                namespace_of(final(store)@.scoped, namespace) == (if namespace
                    == self.namespace@ {
                    namespace_of(old(store)@.scoped, namespace).remove(key@)
                } else {
                    namespace_of(old(store)@.scoped, namespace)
                }),
    {
        let mut table = self.copy_of(store);
        let ghost old_table = table@;
        table.remove(key);
        assert(path_map(table@) =~= path_map(old_table).remove(key@));
        self.put(store, table);
    }

    pub fn delete_all(&self, store: &mut KeyValueStore)
        ensures
            final(store)@.table == old(store)@.table,
            forall|namespace: Seq<char>| #[trigger]
                namespace_of(final(store)@.scoped, namespace) == (if namespace
                    == self.namespace@ {
                    Map::<Seq<char>, Seq<char>>::empty()
                } else {
                    namespace_of(old(store)@.scoped, namespace)
                }),
    {
        let ghost before = store.scoped@;
        store.scoped.remove(self.namespace);
        assert(store@.scoped =~= scoped_map(before).remove(self.namespace@));
    }

    fn put(&self, store: &mut KeyValueStore, table: TextMap<String>)
        ensures
            final(store)@.table == old(store)@.table,
            final(store)@.scoped == old(store)@.scoped.insert(self.namespace@, path_map(table@)),
    {
        let ghost before = store.scoped@;
        store.scoped.insert(self.namespace.to_owned(), table);
        assert(store@.scoped =~= scoped_map(before).insert(self.namespace@, path_map(table@)));
    }

    fn copy_of(&self, store: &KeyValueStore) -> (table: TextMap<String>)
        ensures
            path_map(table@) == namespace_of(store@.scoped, self.namespace@),
    {
        let mut copy: TextMap<String> = TextMap::new();
        match store.scoped.get(self.namespace) {
            Some(table) => {
                let keys = table.keys();
                let mut i: usize = 0;
                while i < keys.len()
                    invariant
                        i <= keys@.len(),
                        forall|k: int| 0 <= k < keys@.len() ==> table@.contains_key((#[trigger] keys@[k])@),
                        forall|key: Seq<char>| #[trigger]
                            copy@.contains_key(key) <==> exists|k: int|
                                0 <= k < i && (#[trigger] keys@[k])@ == key,
                        forall|key: Seq<char>| #[trigger]
                            copy@.contains_key(key) ==> table@.contains_key(key) && copy@[key]@
                                == table@[key]@,
                    decreases keys@.len() - i,
                {
                    let ghost before = copy@;
                    assert(table@.contains_key(keys@[i as int]@));
                    if let Some(value) = table.get(keys[i].as_str()) {
                        copy.insert(keys[i].clone(), value.clone());
                    }
                    proof {
                        assert forall|key: Seq<char>| #[trigger]
                            copy@.contains_key(key) <==> exists|k: int|
                                0 <= k < i + 1 && (#[trigger] keys@[k])@ == key by {
                            if copy@.contains_key(key) {
                                if key == keys@[i as int]@ {
                                } else {
                                    assert(before.contains_key(key));
                                }
                            }
                            if exists|k: int| 0 <= k < i + 1 && (#[trigger] keys@[k])@ == key {
                                let k = choose|k: int| 0 <= k < i + 1 && (#[trigger] keys@[k])@ == key;
                                if k < i {
                                    assert(before.contains_key(key));
                                }
                            }
                        }
                    }
                    i = i + 1;
                }
                assert(path_map(copy@) =~= path_map(table@));
            },
            None => {
                assert(path_map(copy@) =~= Map::empty());
            },
        }
        copy
    }
}

/// Texts under keys that all projects share.
pub struct GlobalKeyValueStore {
    store: KeyValueStore,
}

impl GlobalKeyValueStore {
    pub closed spec fn table(&self) -> Map<Seq<char>, Seq<char>> {
        self.store@.table
    }

    /// The store over the rows of the database that all projects share.
    pub fn global(rows: Vec<(String, String)>) -> (store: GlobalKeyValueStore)
        ensures
            store.table() == table_of(rows@),
    {
        GlobalKeyValueStore {
            store: KeyValueStore::from_app_db(
                AppDatabase { kv_store: rows, scoped_kv_store: Vec::new() },
            ),
        }
    }

    pub fn read_kvp(&self, key: &str) -> (value: Option<String>)
        ensures
            text_option(value) == value_of(self.table(), key@),
    {
        self.store.read_kvp(key)
    }

    pub fn write_kvp(&mut self, key: String, value: String)
        ensures
            final(self).table() == old(self).table().insert(key@, value@),
    {
        self.store.write_kvp(key, value);
    }

    pub fn delete_kvp(&mut self, key: &str)
        ensures
            final(self).table() == old(self).table().remove(key@),
    {
        self.store.delete_kvp(key);
    }
}

/// What was written last under a key is what is read, a key that was deleted has no
/// value, and other keys keep theirs.
pub proof fn lemma_read_after_write(
    table: Map<Seq<char>, Seq<char>>,
    key: Seq<char>,
    value: Seq<char>,
    other: Seq<char>,
)
    ensures
        value_of(table.insert(key, value), key) == Some(value),
        value_of(table.remove(key), key) is None,
        other != key ==> value_of(table.insert(key, value), other) == value_of(table, other),
        other != key ==> value_of(table.remove(key), other) == value_of(table, other),
{
}

} // verus!
