//! What holds of tables that are read from rows, and of files that lie over others.
use crate::assets::{files_of, fonts_among, is_font, is_merged, paths_of, under, Assets};
use crate::kvp::{namespace_of, scoped_table_of, table_of, value_of, with_dismissal, with_scoped};
use vstd::prelude::*;

verus! {

/// Whether a row is the last with a key.
pub open spec fn is_last_row(rows: Seq<(String, String)>, at: int, key: Seq<char>) -> bool {
    &&& 0 <= at < rows.len()
    &&& rows[at].0@ == key
    &&& forall|k: int| at < k < rows.len() ==> (#[trigger] rows[k]).0@ != key
}

/// The value of a key is that of its last row; a key without a row has none.
pub proof fn lemma_last_row_counts(rows: Seq<(String, String)>, key: Seq<char>, at: int)
    ensures
        is_last_row(rows, at, key) ==> value_of(table_of(rows), key) == Some(rows[at].1@),
        (forall|k: int| 0 <= k < rows.len() ==> (#[trigger] rows[k]).0@ != key) ==> value_of(
            table_of(rows),
            key,
        ) is None,
    decreases rows.len(),
{
    if rows.len() > 0 {
        let front = rows.drop_last();
        assert(forall|k: int| 0 <= k < front.len() ==> front[k] == rows[k]);
        assert(rows.last() == rows[rows.len() - 1]);
        lemma_last_row_counts(front, key, at);
    }
}

/// Whether a row is the last with a key in a namespace.
pub open spec fn is_last_row_in(
    rows: Seq<(String, String, String)>,
    at: int,
    namespace: Seq<char>,
    key: Seq<char>,
) -> bool {
    &&& 0 <= at < rows.len()
    &&& rows[at].0@ == namespace && rows[at].1@ == key
    &&& forall|k: int|
        at < k < rows.len() ==> (#[trigger] rows[k]).0@ != namespace || rows[k].1@ != key
}

/// The value of a key in a namespace is that of its last row there; the rows of another
/// namespace say nothing of it.
pub proof fn lemma_last_row_of_a_namespace_counts(
    rows: Seq<(String, String, String)>,
    namespace: Seq<char>,
    key: Seq<char>,
    at: int,
)
    ensures
        is_last_row_in(rows, at, namespace, key) ==> value_of(
            namespace_of(scoped_table_of(rows), namespace),
            key,
        ) == Some(rows[at].2@),
        (forall|k: int|
            0 <= k < rows.len() ==> (#[trigger] rows[k]).0@ != namespace || rows[k].1@ != key)
            ==> value_of(namespace_of(scoped_table_of(rows), namespace), key) is None,
    decreases rows.len(),
{
    if rows.len() > 0 {
        let front = rows.drop_last();
        assert(forall|k: int| 0 <= k < front.len() ==> front[k] == rows[k]);
        assert(rows.last() == rows[rows.len() - 1]);
        lemma_last_row_of_a_namespace_counts(front, namespace, key, at);
    }
}

/// What is written in a namespace is read there, and every other key and namespace keeps what
/// it has.
pub proof fn lemma_namespaces_are_apart(
    scoped: Map<Seq<char>, Map<Seq<char>, Seq<char>>>,
    namespace: Seq<char>,
    key: Seq<char>,
    value: Seq<char>,
    other_namespace: Seq<char>,
    other_key: Seq<char>,
)
    ensures
        ({
            let after = with_scoped(scoped, namespace, key, value);
            &&& value_of(namespace_of(after, namespace), key) == Some(value)
            &&& other_namespace != namespace || other_key != key ==> value_of(
                namespace_of(after, other_namespace),
                other_key,
            ) == value_of(namespace_of(scoped, other_namespace), other_key)
        }),
{
}

/// Whether a file is the last under a path.
pub open spec fn is_last_file(files: Seq<(String, Vec<u8>)>, at: int, path: Seq<char>) -> bool {
    &&& 0 <= at < files.len()
    &&& files[at].0@ == path
    &&& forall|k: int| at < k < files.len() ==> (#[trigger] files[k]).0@ != path
}

/// What lies under a path is the last file of it. Each path is listed once, and every path of a
/// file is.
pub proof fn lemma_last_file_counts(files: Seq<(String, Vec<u8>)>, path: Seq<char>, at: int)
    ensures
        is_last_file(files, at, path) ==> files_of(files).contains_key(path) && files_of(
            files,
        )[path] == files[at].1@,
        (forall|k: int| 0 <= k < files.len() ==> (#[trigger] files[k]).0@ != path) ==> !files_of(
            files,
        ).contains_key(path),
        paths_of(files).no_duplicates(),
        paths_of(files).contains(path) <==> exists|k: int|
            0 <= k < files.len() && (#[trigger] files[k]).0@ == path,
    decreases files.len(),
{
    if files.len() > 0 {
        let front = files.drop_last();
        assert(forall|k: int| 0 <= k < front.len() ==> front[k] == files[k]);
        assert(files.last() == files[files.len() - 1]);
        lemma_last_file_counts(front, path, at);
        let earlier = paths_of(front);
        let last = files.last().0@;
        if !earlier.contains(last) {
            let all = earlier.push(last);
            assert(paths_of(files) == all);
            assert(all.contains(path) <==> earlier.contains(path) || path == last) by {
                assert(all[earlier.len() as int] == last);
                if earlier.contains(path) {
                    let k = choose|k: int| 0 <= k < earlier.len() && earlier[k] == path;
                    assert(all[k] == path);
                }
                if all.contains(path) && path != last {
                    let k = choose|k: int| 0 <= k < all.len() && all[k] == path;
                    assert(earlier[k] == path);
                }
            }
        }
        if path == last {
            lemma_last_file_counts(front, last, at);
        }
    } else {
        assert(paths_of(files) =~= Seq::empty());
    }
}

/// What is loaded is what the overlay has under a path; else what is embedded; else nothing.
pub proof fn lemma_overlay_goes_first(assets: Assets, path: Seq<char>)
    ensures
        assets.overlay_files() is Some && assets.overlay_files()->0.contains_key(path)
            ==> assets.file(path) == Some(assets.overlay_files()->0[path]),
        (assets.overlay_files() is None || !assets.overlay_files()->0.contains_key(path))
            && assets.embedded_files().contains_key(path) ==> assets.file(path) == Some(
            assets.embedded_files()[path],
        ),
        (assets.overlay_files() is None || !assets.overlay_files()->0.contains_key(path))
            && !assets.embedded_files().contains_key(path) ==> assets.file(path) is None,
{
}

/// A merged list begins with the listed paths; behind them stand, each once, those of the
/// overlay that begin with the prefix and were not listed. So every path of the overlay under
/// the prefix is in it.
pub proof fn lemma_merged_list_has_all(
    merged: Seq<Seq<char>>,
    paths: Seq<Seq<char>>,
    overlay: Map<Seq<char>, Seq<u8>>,
    prefix: Seq<char>,
    path: Seq<char>,
)
    requires
        is_merged(merged, paths, Some(overlay), prefix),
    ensures
        forall|k: int| 0 <= k < paths.len() ==> #[trigger] merged[k] == paths[k],
        merged.contains(path) <==> paths.contains(path) || overlay.contains_key(path)
            && prefix.is_prefix_of(path),
{
    let n = paths.len() as int;
    assert forall|k: int| 0 <= k < paths.len() implies #[trigger] merged[k] == paths[k] by {
        assert(merged.take(n)[k] == paths[k]);
    }
    if merged.contains(path) {
        let k = choose|k: int| 0 <= k < merged.len() && merged[k] == path;
        if k >= n {
            assert(merged.skip(n)[k - n] == path);
            assert(merged.skip(n).contains(path));
        } else {
            assert(paths[k] == path);
        }
    }
    if paths.contains(path) {
        let k = choose|k: int| 0 <= k < paths.len() && paths[k] == path;
        assert(merged[k] == path);
    } else if overlay.contains_key(path) && prefix.is_prefix_of(path) {
        assert(merged.skip(n).contains(path));
        let k = choose|k: int| 0 <= k < merged.skip(n).len() && merged.skip(n)[k] == path;
        assert(merged[k + n] == path);
    }
}

/// Without an overlay nothing is merged in.
pub proof fn lemma_nothing_is_merged_without_an_overlay(
    merged: Seq<Seq<char>>,
    paths: Seq<Seq<char>>,
    prefix: Seq<char>,
)
    requires
        is_merged(merged, paths, None, prefix),
    ensures
        merged == paths,
{
    let rest = merged.skip(paths.len() as int);
    if rest.len() > 0 {
        assert(rest.contains(rest[0]));
    }
    assert(merged =~= merged.take(paths.len() as int));
}

/// The paths under a prefix of two lists are those of the first and behind them those of the
/// second, and so are the fonts; a path is under a prefix that it begins with, and is a font
/// where it ends in the suffix of one.
pub proof fn lemma_paths_are_picked(
    first: Seq<Seq<char>>,
    second: Seq<Seq<char>>,
    path: Seq<char>,
    prefix: Seq<char>,
)
    ensures
        under(first + second, prefix) == under(first, prefix) + under(second, prefix),
        fonts_among(first + second) == fonts_among(first) + fonts_among(second),
        under(seq![prefix + path], prefix) == seq![prefix + path],
        !prefix.is_prefix_of(path) ==> under(seq![path], prefix).len() == 0,
        is_font(path + ".ttf"@),
        is_font(path) <==> fonts_among(seq![path]) == seq![path],
        !is_font(path) ==> fonts_among(seq![path]).len() == 0,
        is_font(path) ==> path.len() >= 4 && path.last() == 'f' && path[path.len() - 4] == '.',
{
    let begins = |path: Seq<char>| prefix.is_prefix_of(path);
    let font = |path: Seq<char>| is_font(path);
    Seq::filter_distributes_over_add(first, second, begins);
    Seq::filter_distributes_over_add(first, second, font);
    reveal(Seq::filter);
    reveal_strlit(".ttf");
    assert(".ttf"@.len() == 4);
    assert((path + ".ttf"@).subrange(path.len() as int, path.len() as int + 4) =~= ".ttf"@);
    assert((prefix + path).subrange(0, prefix.len() as int) =~= prefix);
    let below = prefix + path;
    assert(seq![below].drop_last() =~= Seq::empty());
    assert(seq![path].drop_last() =~= Seq::empty());
    assert(Seq::<Seq<char>>::empty().filter(begins) =~= Seq::empty());
    assert(Seq::<Seq<char>>::empty().filter(font) =~= Seq::empty());
    assert(seq![below].filter(begins) =~= seq![below]);
    if !is_font(path) {
        assert(seq![path].filter(font) =~= Seq::empty());
    } else {
        assert(seq![path].filter(font) =~= seq![path]);
        let ending = path.subrange(path.len() - 4, path.len() as int);
        assert(ending[3] == 'f' && ending[0] == '.');
    }
    if !prefix.is_prefix_of(path) {
        assert(seq![path].filter(begins) =~= Seq::empty());
    }
}

/// What is dismissed has a value, and what is not has none; other keys keep theirs. To dismiss and
/// to take that back leaves no trace of a key that had no value.
pub proof fn lemma_dismissals_are_noted(
    table: Map<Seq<char>, Seq<char>>,
    key: Seq<char>,
    other: Seq<char>,
)
    ensures
        value_of(with_dismissal(table, key, true), key) == Some("1"@),
        value_of(with_dismissal(table, key, false), key) is None,
        forall|is_dismissed: bool|
            other != key ==> value_of(#[trigger] with_dismissal(table, key, is_dismissed), other)
                == value_of(table, other),
        !table.contains_key(key) ==> with_dismissal(
            with_dismissal(table, key, true),
            key,
            false,
        ) == table,
{
    if !table.contains_key(key) {
        assert(with_dismissal(with_dismissal(table, key, true), key, false) =~= table);
    }
}

} // verus!
