use claude_sessions::assets::{font_paths, install_web_assets, AssetError, Assets};
use claude_sessions::kvp::{AppDatabase, GlobalKeyValueStore, KeyValueStore};

fn empty_store() -> KeyValueStore {
    KeyValueStore::from_app_db(AppDatabase {
        kv_store: Vec::new(),
        scoped_kv_store: Vec::new(),
    })
}

#[test]
fn test_kvp() {
    let mut db = empty_store();

    assert_eq!(db.read_kvp("key-1"), None);

    db.write_kvp("key-1".to_string(), "one".to_string());
    assert_eq!(db.read_kvp("key-1"), Some("one".to_string()));

    db.write_kvp("key-1".to_string(), "one-2".to_string());
    assert_eq!(db.read_kvp("key-1"), Some("one-2".to_string()));

    db.write_kvp("key-2".to_string(), "two".to_string());
    assert_eq!(db.read_kvp("key-2"), Some("two".to_string()));

    db.delete_kvp("key-1");
    assert_eq!(db.read_kvp("key-1"), None);
}

#[test]
fn test_scoped_kvp() {
    let mut db = empty_store();

    let scope_a = db.scoped("namespace-a");
    let scope_b = db.scoped("namespace-b");

    // Reading a missing key returns None
    assert_eq!(scope_a.read(&db, "key-1"), None);

    // Writing and reading back a key works
    scope_a.write(&mut db, "key-1".to_string(), "value-a1".to_string());
    assert_eq!(scope_a.read(&db, "key-1"), Some("value-a1".to_string()));

    // Two namespaces with the same key don't collide
    scope_b.write(&mut db, "key-1".to_string(), "value-b1".to_string());
    assert_eq!(scope_a.read(&db, "key-1"), Some("value-a1".to_string()));
    assert_eq!(scope_b.read(&db, "key-1"), Some("value-b1".to_string()));

    // delete removes a single key without affecting others in the namespace
    scope_a.write(&mut db, "key-2".to_string(), "value-a2".to_string());
    scope_a.delete(&mut db, "key-1");
    assert_eq!(scope_a.read(&db, "key-1"), None);
    assert_eq!(scope_a.read(&db, "key-2"), Some("value-a2".to_string()));
    assert_eq!(scope_b.read(&db, "key-1"), Some("value-b1".to_string()));

    // delete_all removes all keys in a namespace without affecting other namespaces
    scope_a.write(&mut db, "key-3".to_string(), "value-a3".to_string());
    scope_a.delete_all(&mut db);
    assert_eq!(scope_a.read(&db, "key-2"), None);
    assert_eq!(scope_a.read(&db, "key-3"), None);
    assert_eq!(scope_b.read(&db, "key-1"), Some("value-b1".to_string()));
}

#[test]
fn the_rows_of_a_database_are_what_is_read() {
    let db = KeyValueStore::from_app_db(AppDatabase {
        kv_store: vec![
            ("key".to_string(), "first".to_string()),
            ("key".to_string(), "last".to_string()),
        ],
        scoped_kv_store: vec![("space".to_string(), "key".to_string(), "scoped".to_string())],
    });
    assert_eq!(db.read_kvp("key"), Some("last".to_string()));
    assert_eq!(db.scoped("space").read(&db, "key"), Some("scoped".to_string()));
    assert_eq!(db.scoped("other").read(&db, "key"), None);
}

#[test]
fn what_is_dismissed_stays_dismissed_until_it_is_not() {
    let mut db = empty_store();
    assert!(!db.dismissed("banner"));
    db.set_dismissed("banner", true);
    assert!(db.dismissed("banner"));
    assert_eq!(db.read_kvp("banner"), Some("1".to_string()));
    db.set_dismissed("banner", false);
    assert!(!db.dismissed("banner"));
    assert_eq!(db.read_kvp("banner"), None);
}

#[test]
fn the_global_store_reads_back_what_was_written() {
    let mut global = GlobalKeyValueStore::global(vec![("a".to_string(), "1".to_string())]);
    assert_eq!(global.read_kvp("a"), Some("1".to_string()));
    global.write_kvp("b".to_string(), "2".to_string());
    global.delete_kvp("a");
    assert_eq!(global.read_kvp("a"), None);
    assert_eq!(global.read_kvp("b"), Some("2".to_string()));
}

fn texts(texts: &[&str]) -> Vec<String> {
    texts.iter().map(|text| text.to_string()).collect()
}

#[test]
fn the_overlay_goes_before_what_was_brought_along_and_is_installed_once() {
    let mut assets = Assets::new(vec![
        ("fonts/a.ttf".to_string(), vec![1]),
        ("icons/a.svg".to_string(), vec![2]),
    ]);
    assert_eq!(assets.load("fonts/a.ttf"), Ok(vec![1]));
    assert_eq!(assets.web_asset("fonts/a.ttf"), None);

    let overlay = vec![
        ("fonts/z.ttf".to_string(), vec![9]),
        ("fonts/a.ttf".to_string(), vec![7]),
        ("fonts/b.txt".to_string(), vec![8]),
    ];
    assert_eq!(install_web_assets(&mut assets, overlay), Ok(()));
    assert_eq!(
        install_web_assets(&mut assets, Vec::new()),
        Err(AssetError::AlreadyInstalled)
    );

    assert_eq!(assets.load("fonts/a.ttf"), Ok(vec![7]));
    assert_eq!(assets.load("icons/a.svg"), Ok(vec![2]));
    assert_eq!(
        assets.load("fonts/none.ttf"),
        Err(AssetError::NotFound {
            path: "fonts/none.ttf".to_string()
        })
    );

    let paths = assets.list("fonts");
    assert_eq!(
        paths,
        texts(&["fonts/a.ttf", "fonts/b.txt", "fonts/z.ttf"]),
        "what the overlay adds comes behind, in the order of its paths"
    );
    assert_eq!(font_paths(&paths), texts(&["fonts/a.ttf", "fonts/z.ttf"]));
    assert_eq!(assets.load_fonts(), vec![vec![7], vec![9]]);
}

#[test]
fn paths_are_listed_alone_where_nothing_is_laid_over_them() {
    let assets = Assets::new(Vec::new());
    assert_eq!(
        assets.merge_web_overlay_paths(texts(&["a", "b"]), ""),
        texts(&["a", "b"])
    );
    let assets = Assets::new(vec![
        ("b".to_string(), vec![1]),
        ("a".to_string(), vec![2]),
        ("b".to_string(), vec![3]),
    ]);
    assert_eq!(assets.list(""), texts(&["b", "a"]));
    assert_eq!(assets.load("b"), Ok(vec![3]));
    assert_eq!(font_paths(&texts(&["ttf", ".ttf", "a.TTF"])), texts(&[".ttf"]));
}
