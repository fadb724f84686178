//! The files that a program brings along, and those that are laid over them at run time.
use crate::order::is_ascending;
use crate::text::{lemma_text_before_is_total, lemma_text_before_is_transitive, precedes, same_text};
use crate::text::{chars_of, stands_at, starts_with, text_before};
use crate::text_map::TextMap;
use crate::transcript::texts;
use vstd::prelude::*;

verus! {

#[derive(Debug, PartialEq, Eq)]
pub enum AssetError {
    /// There is an overlay already.
    AlreadyInstalled,
    /// No file has this path.
    NotFound { path: String },
}

/// The files by their paths.
pub struct Assets {
    /// The paths of the files that the program brings along, each once.
    paths: Vec<String>,
    embedded: TextMap<Vec<u8>>,
    overlay: Option<TextMap<Vec<u8>>>,
}

pub open spec fn file_map(files: Map<Seq<char>, Vec<u8>>) -> Map<Seq<char>, Seq<u8>> {
    files.map_values(|bytes: Vec<u8>| bytes@)
}

/// What files are where. Of several under one path the last one counts.
pub open spec fn files_of(files: Seq<(String, Vec<u8>)>) -> Map<Seq<char>, Seq<u8>>
    decreases files.len(),
{
    if files.len() == 0 {
        Map::empty()
    } else {
        files_of(files.drop_last()).insert(files.last().0@, files.last().1@)
    }
}

/// The paths of files, each where it is first named.
pub open spec fn paths_of(files: Seq<(String, Vec<u8>)>) -> Seq<Seq<char>>
    decreases files.len(),
{
    if files.len() == 0 {
        Seq::empty()
    } else {
        let earlier = paths_of(files.drop_last());
        if earlier.contains(files.last().0@) {
            earlier
        } else {
            earlier.push(files.last().0@)
        }
    }
}

fn collect(files: Vec<(String, Vec<u8>)>) -> (map: TextMap<Vec<u8>>)
    ensures
        file_map(map@) == files_of(files@),
{
    let ghost all = files@;
    let mut map: TextMap<Vec<u8>> = TextMap::new();
    assert(file_map(map@) =~= Map::empty());
    for file in it: files
        invariant
            it.seq() == all,
            file_map(map@) == files_of(all.take(it.index())),
    {
        proof {
            assert(all.take(it.index() + 1).drop_last() =~= all.take(it.index()));
            assert(all.take(it.index() + 1).last() == file);
        }
        let ghost before = map@;
        map.insert(file.0, file.1);
        assert(file_map(map@) =~= file_map(before).insert(file.0@, file.1@));
    }
    assert(all.take(all.len() as int) =~= all);
    map
}

fn copy_file(files: &TextMap<Vec<u8>>, path: &str) -> (bytes: Option<Vec<u8>>)
    ensures
        match bytes {
            Some(bytes) => files@.contains_key(path@) && bytes@ == file_map(files@)[path@],
            None => !files@.contains_key(path@),
        },
{
    match files.get(path) {
        Some(bytes) => {
            let mut copy: Vec<u8> = Vec::new();
            copy.extend_from_slice(bytes.as_slice());
            assert(copy@ =~= bytes@);
            Some(copy)
        },
        None => None,
    }
}

/// The texts by the order of their characters.
pub open spec fn by_characters() -> spec_fn(Seq<char>, Seq<char>) -> bool {
    |left: Seq<char>, right: Seq<char>| text_before(left, right)
}

fn insert_in_order(sorted: &mut Vec<String>, text: &str)
    requires
        is_ascending(texts(old(sorted)@), by_characters()),
    ensures
        is_ascending(texts(final(sorted)@), by_characters()),
        forall|x: Seq<char>| #[trigger]
            texts(final(sorted)@).contains(x) <==> texts(old(sorted)@).contains(x) || x == text@,
{
    let ghost before = texts(sorted@);
    let mut at: usize = 0;
    while at < sorted.len() && precedes(sorted[at].as_str(), text)
        invariant
            at <= sorted@.len(),
            texts(sorted@) == before,
            forall|k: int| 0 <= k < at ==> text_before(#[trigger] before[k], text@),
        decreases sorted@.len() - at,
    {
        assert(before[at as int] == sorted@[at as int]@);
        at = at + 1;
    }
    if at < sorted.len() && same_text(sorted[at].as_str(), text) {
        assert(before[at as int] == text@);
        return ;
    }
    proof {
        assert forall|k: int| at <= k < before.len() implies text_before(
            text@,
            #[trigger] before[k],
        ) by {
            lemma_text_before_is_total(before[at as int], text@);
            assert(before[at as int] == sorted@[at as int]@);
            if k > at {
                assert(by_characters()(before[at as int], before[k]));
                lemma_text_before_is_transitive(text@, before[at as int], before[k]);
            }
        }
    }
    sorted.insert(at, text.to_owned());
    proof {
        let after = texts(sorted@);
        assert(after =~= before.insert(at as int, text@));
        assert forall|a: int, b: int|
            #![trigger after[a], after[b]]
            0 <= a < b < after.len() implies by_characters()(after[a], after[b]) by {
            let a0 = if a < at { a } else { a - 1 };
            let b0 = if b < at { b } else { b - 1 };
            if a != at && b != at {
                assert(by_characters()(before[a0], before[b0]));
            } else if b == at {
                assert(text_before(before[a], text@));
            } else {
                assert(text_before(text@, before[b0]));
            }
        }
        assert forall|x: Seq<char>| #[trigger]
            after.contains(x) <==> before.contains(x) || x == text@ by {
            if after.contains(x) {
                let k = choose|k: int| 0 <= k < after.len() && after[k] == x;
                if k < at {
                    assert(before[k] == x);
                } else if k > at {
                    assert(before[k - 1] == x);
                }
            }
            if before.contains(x) {
                let k = choose|k: int| 0 <= k < before.len() && before[k] == x;
                assert(after[if k < at { k } else { k + 1 }] == x);
            }
            assert(after[at as int] == text@);
        }
    }
}

/// Whether a text is among others.
fn is_among(paths: &Vec<String>, path: &str) -> (result: bool)
    ensures
        result == texts(paths@).contains(path@),
{
    let mut i: usize = 0;
    while i < paths.len()
        invariant
            i <= paths@.len(),
            forall|k: int| 0 <= k < i ==> (#[trigger] texts(paths@)[k]) != path@,
        decreases paths@.len() - i,
    {
        assert(texts(paths@)[i as int] == paths@[i as int]@);
        if same_text(paths[i].as_str(), path) {
            return true;
        }
        i = i + 1;
    }
    false
}

/// Whether `merged` is `paths` and behind them, in the order of their characters, those
/// under the prefix that the overlay adds.
pub open spec fn is_merged(
    merged: Seq<Seq<char>>,
    paths: Seq<Seq<char>>,
    overlay: Option<Map<Seq<char>, Seq<u8>>>,
    prefix: Seq<char>,
) -> bool {
    &&& merged.len() >= paths.len()
    &&& merged.take(paths.len() as int) == paths
    &&& is_ascending(merged.skip(paths.len() as int), by_characters())
    &&& forall|path: Seq<char>| #[trigger]
        merged.skip(paths.len() as int).contains(path) <==> overlay is Some && overlay->0.contains_key(
            path,
        ) && prefix.is_prefix_of(path) && !paths.contains(path)
}

/// There is one way to lay the paths of an overlay over others.
pub proof fn lemma_merging_is_unique(
    left: Seq<Seq<char>>,
    right: Seq<Seq<char>>,
    paths: Seq<Seq<char>>,
    overlay: Option<Map<Seq<char>, Seq<u8>>>,
    prefix: Seq<char>,
)
    requires
        is_merged(left, paths, overlay, prefix),
        is_merged(right, paths, overlay, prefix),
    ensures
        left == right,
{
    let n = paths.len() as int;
    assert forall|x: Seq<char>, y: Seq<char>| #[trigger] by_characters()(x, y) implies !by_characters()(
        y,
        x,
    ) by {
        lemma_text_before_is_total(x, y);
    }
    assert forall|x: Seq<char>| left.skip(n).contains(x) <==> right.skip(n).contains(x) by {}
    crate::order::lemma_ascending_is_unique(left.skip(n), right.skip(n), by_characters());
    assert(left =~= left.take(n) + left.skip(n));
    assert(right =~= right.take(n) + right.skip(n));
}

/// Lays files over those that the program brings along, once.
///
/// Where a program cannot read its files and bringing them all along is too large, whoever
/// starts it fetches them and calls this.
pub fn install_web_assets(assets: &mut Assets, overlay: Vec<(String, Vec<u8>)>) -> (result: Result<
    (),
    AssetError,
>)
    ensures
        final(assets).embedded_files() == old(assets).embedded_files(),
        final(assets).embedded_paths() == old(assets).embedded_paths(),
        match old(assets).overlay_files() {
            Some(_) => result == Err::<(), AssetError>(AssetError::AlreadyInstalled)
                && final(assets).overlay_files() == old(assets).overlay_files(),
            None => result is Ok && final(assets).overlay_files() == Some(files_of(overlay@)),
        },
{
    if assets.overlay.is_some() {
        return Err(AssetError::AlreadyInstalled);
    }
    proof {
        use_type_invariant(&*assets);
    }
    assets.overlay = Some(collect(overlay));
    Ok(())
}

impl Assets {
    #[verifier::type_invariant]
    closed spec fn every_path_has_a_file(self) -> bool {
        forall|path: Seq<char>| #[trigger]
            texts(self.paths@).contains(path) ==> file_map(self.embedded@).contains_key(path)
    }

    pub closed spec fn embedded_paths(&self) -> Seq<Seq<char>> {
        texts(self.paths@)
    }

    pub closed spec fn embedded_files(&self) -> Map<Seq<char>, Seq<u8>> {
        file_map(self.embedded@)
    }

    pub closed spec fn overlay_files(&self) -> Option<Map<Seq<char>, Seq<u8>>> {
        match self.overlay {
            Some(overlay) => Some(file_map(overlay@)),
            None => None,
        }
    }

    /// The bytes under a path. The overlay goes first.
    pub open spec fn file(&self, path: Seq<char>) -> Option<Seq<u8>> {
        match self.overlay_files() {
            Some(overlay) if overlay.contains_key(path) => Some(overlay[path]),
            _ => if self.embedded_files().contains_key(path) {
                Some(self.embedded_files()[path])
            } else {
                None
            },
        }
    }

    /// The files that a program brings along, with nothing over them.
    pub fn new(files: Vec<(String, Vec<u8>)>) -> (assets: Assets)
        ensures
            assets.embedded_paths() == paths_of(files@),
            assets.embedded_files() == files_of(files@),
            assets.overlay_files() is None,
    {
        let mut paths: Vec<String> = Vec::new();
        let mut i: usize = 0;
        assert(texts(paths@) =~= paths_of(files@.take(0)));
        while i < files.len()
            invariant
                i <= files@.len(),
                texts(paths@) == paths_of(files@.take(i as int)),
                forall|path: Seq<char>| #[trigger]
                    texts(paths@).contains(path) ==> files_of(files@.take(i as int)).contains_key(
                        path,
                    ),
            decreases files@.len() - i,
        {
            let ghost before = paths@;
            assert(files@.take(i + 1).drop_last() =~= files@.take(i as int));
            assert(files@.take(i + 1).last() == files@[i as int]);
            if !is_among(&paths, files[i].0.as_str()) {
                paths.push(files[i].0.clone());
                assert(texts(paths@) =~= texts(before).push(files@[i as int].0@));
            }
            proof {
                assert forall|path: Seq<char>| #[trigger]
                    texts(paths@).contains(path) implies files_of(
                    files@.take(i + 1),
                ).contains_key(path) by {
                    if path != files@[i as int].0@ {
                        let k = choose|k: int|
                            0 <= k < texts(paths@).len() && texts(paths@)[k] == path;
                        assert(texts(before)[k] == path);
                        assert(texts(before).contains(path));
                    }
                }
            }
            i = i + 1;
        }
        assert(files@.take(files@.len() as int) =~= files@);
        Assets { paths, embedded: collect(files), overlay: None }
    }

    /// A file of the overlay.
    pub fn web_asset(&self, path: &str) -> (bytes: Option<Vec<u8>>)
        ensures
            match bytes {
                Some(bytes) => self.overlay_files() is Some
                    && self.overlay_files()->0.contains_key(path@) && bytes@
                    == self.overlay_files()->0[path@],
                None => !(self.overlay_files() is Some && self.overlay_files()->0.contains_key(
                    path@,
                )),
            },
    {
        match &self.overlay {
            Some(overlay) => copy_file(overlay, path),
            None => None,
        }
    }

    /// The bytes under a path, of the overlay before those brought along.
    pub fn load(&self, path: &str) -> (result: Result<Vec<u8>, AssetError>)
        ensures
            match result {
                Ok(bytes) => self.file(path@) == Some(bytes@),
                Err(AssetError::NotFound { path: missing }) => self.file(path@) is None && missing@
                    == path@,
                Err(AssetError::AlreadyInstalled) => false,
            },
    {
        if let Some(bytes) = self.web_asset(path) {
            return Ok(bytes);
        }
        match copy_file(&self.embedded, path) {
            Some(bytes) => Ok(bytes),
            None => Err(AssetError::NotFound { path: path.to_owned() }),
        }
    }

    /// Puts behind some paths those under a prefix that the overlay adds to them.
    pub fn merge_web_overlay_paths(&self, paths: Vec<String>, prefix: &str) -> (merged: Vec<String>)
        ensures
            is_merged(texts(merged@), texts(paths@), self.overlay_files(), prefix@),
    {
        let ghost listed = texts(paths@);
        let ghost overlay_files = self.overlay_files();
        let ghost n = listed.len() as int;
        let overlay = match &self.overlay {
            Some(overlay) => overlay,
            None => {
                assert(texts(paths@).take(n) =~= listed);
                assert(texts(paths@).skip(n) =~= Seq::empty());
                return paths;
            },
        };
        let keys = overlay.keys();
        let mut added: Vec<String> = Vec::new();
        let mut i: usize = 0;
        while i < keys.len()
            invariant
                i <= keys@.len(),
                listed == texts(paths@),
                is_ascending(texts(added@), by_characters()),
                forall|path: Seq<char>| #[trigger]
                    texts(added@).contains(path) <==> prefix@.is_prefix_of(path)
                        && !listed.contains(path) && exists|k: int|
                        0 <= k < i && (#[trigger] keys@[k])@ == path,
            decreases keys@.len() - i,
        {
            let ghost before = texts(added@);
            if starts_with(keys[i].as_str(), prefix) && !is_among(&paths, keys[i].as_str()) {
                insert_in_order(&mut added, keys[i].as_str());
            }
            proof {
                assert forall|path: Seq<char>| #[trigger]
                    texts(added@).contains(path) <==> prefix@.is_prefix_of(path)
                        && !listed.contains(path) && exists|k: int|
                        0 <= k < i + 1 && (#[trigger] keys@[k])@ == path by {
                    let earlier = exists|k: int| 0 <= k < i && (#[trigger] keys@[k])@ == path;
                    if exists|k: int| 0 <= k < i + 1 && (#[trigger] keys@[k])@ == path {
                        let k = choose|k: int| 0 <= k < i + 1 && (#[trigger] keys@[k])@ == path;
                        assert(k < i ==> earlier);
                    }
                    if earlier {
                        let k = choose|k: int| 0 <= k < i && (#[trigger] keys@[k])@ == path;
                        assert(0 <= k < i + 1);
                    }
                    assert(before.contains(path) <==> prefix@.is_prefix_of(path)
                        && !listed.contains(path) && earlier);
                    assert(keys@[i as int]@ == path ==> exists|k: int|
                        0 <= k < i + 1 && (#[trigger] keys@[k])@ == path);
                }
            }
            i = i + 1;
        }
        let ghost new_paths = texts(added@);
        let mut merged = paths;
        let ghost mine = merged@;
        let ghost theirs = added@;
        merged.append(&mut added);
        proof {
            assert(merged@ =~= mine + theirs);
            assert(texts(merged@).take(n) =~= listed);
            assert(texts(merged@).skip(n) =~= new_paths);
            assert forall|path: Seq<char>| #[trigger]
                texts(merged@).skip(n).contains(path) <==> overlay_files->0.contains_key(path)
                    && prefix@.is_prefix_of(path) && !listed.contains(path) by {
                assert(overlay_files->0.contains_key(path) <==> overlay@.contains_key(path));
                assert(new_paths.contains(path) <==> prefix@.is_prefix_of(path)
                    && !listed.contains(path) && exists|k: int|
                    0 <= k < keys@.len() && (#[trigger] keys@[k])@ == path);
            }
        }
        merged
    }

    /// The paths under a prefix: of those that the program brings along, and then those
    /// that the overlay adds.
    pub fn list(&self, prefix: &str) -> (listed: Vec<String>)
        ensures
            is_merged(
                texts(listed@),
                under(self.embedded_paths(), prefix@),
                self.overlay_files(),
                prefix@,
            ),
    {
        let ghost all = texts(self.paths@);
        let ghost begins = |path: Seq<char>| prefix@.is_prefix_of(path);
        let mut paths: Vec<String> = Vec::new();
        let mut i: usize = 0;
        assert(texts(paths@) =~= all.take(0).filter(begins)) by {
            reveal(Seq::filter);
        }
        while i < self.paths.len()
            invariant
                i <= self.paths@.len(),
                all == texts(self.paths@),
                begins == (|path: Seq<char>| prefix@.is_prefix_of(path)),
                texts(paths@) == all.take(i as int).filter(begins),
            decreases self.paths@.len() - i,
        {
            let ghost before = paths@;
            assert(all.take(i + 1).drop_last() =~= all.take(i as int));
            assert(all.take(i + 1).last() == self.paths@[i as int]@);
            proof {
                reveal(Seq::filter);
            }
            if starts_with(self.paths[i].as_str(), prefix) {
                paths.push(self.paths[i].clone());
                assert(texts(paths@) =~= texts(before).push(self.paths@[i as int]@));
            }
            i = i + 1;
        }
        assert(all.take(all.len() as int) =~= all);
        self.merge_web_overlay_paths(paths, prefix)
    }

    /// The fonts among the files, in the order of [`Assets::list`]. What is listed can
    /// always be loaded.
    pub fn load_fonts(&self) -> (fonts: Vec<Vec<u8>>)
        ensures
            exists|listed: Seq<Seq<char>>|
                {
                    &&& #[trigger] is_merged(
                        listed,
                        under(self.embedded_paths(), "fonts"@),
                        self.overlay_files(),
                        "fonts"@,
                    )
                    &&& fonts@.len() == fonts_among(listed).len()
                    &&& forall|k: int|
                        0 <= k < fonts@.len() ==> self.file(fonts_among(listed)[k]) == Some(
                            (#[trigger] fonts@[k])@,
                        )
                },
    {
        let listed = self.list("fonts");
        let paths = font_paths(&listed);
        let ghost all = texts(listed@);
        let ghost named = texts(paths@);
        proof {
            use_type_invariant(&*self);
            assert forall|k: int| 0 <= k < named.len() implies self.file(
                #[trigger] named[k],
            ) is Some by {
                lemma_filter_keeps(all, |path: Seq<char>| is_font(path), k);
                let embedded = under(self.embedded_paths(), "fonts"@);
                let n = embedded.len() as int;
                let at = choose|at: int| 0 <= at < all.len() && all[at] == named[k];
                if at < n {
                    assert(all.take(n)[at] == all[at]);
                    lemma_filter_keeps(
                        self.embedded_paths(),
                        |path: Seq<char>| "fonts"@.is_prefix_of(path),
                        at,
                    );
                } else {
                    assert(all.skip(n)[at - n] == all[at]);
                    assert(all.skip(n).contains(all[at]));
                }
            }
        }
        let mut fonts: Vec<Vec<u8>> = Vec::new();
        let mut i: usize = 0;
        while i < paths.len()
            invariant
                i <= paths@.len(),
                named == texts(paths@),
                fonts@.len() == i,
                forall|k: int| 0 <= k < named.len() ==> self.file(#[trigger] named[k]) is Some,
                forall|k: int|
                    0 <= k < i ==> self.file(named[k]) == Some((#[trigger] fonts@[k])@),
            decreases paths@.len() - i,
        {
            assert(named[i as int] == paths@[i as int]@);
            if let Ok(bytes) = self.load(paths[i].as_str()) {
                fonts.push(bytes);
            }
            i = i + 1;
        }
        assert(named == fonts_among(all));
        fonts
    }
}

/// What a filter leaves was there before.
proof fn lemma_filter_keeps(items: Seq<Seq<char>>, keep: spec_fn(Seq<char>) -> bool, k: int)
    requires
        0 <= k < items.filter(keep).len(),
    ensures
        items.contains(items.filter(keep)[k]),
    decreases items.len(),
{
    reveal(Seq::filter);
    let rest = items.drop_last();
    if k < rest.filter(keep).len() {
        lemma_filter_keeps(rest, keep, k);
        let at = choose|at: int| 0 <= at < rest.len() && rest[at] == rest.filter(keep)[k];
        assert(items[at] == items.filter(keep)[k]);
    } else {
        assert(items[items.len() - 1] == items.filter(keep)[k]);
    }
}

/// The paths that begin with a prefix, in their order.
pub open spec fn under(paths: Seq<Seq<char>>, prefix: Seq<char>) -> Seq<Seq<char>> {
    paths.filter(|path: Seq<char>| prefix.is_prefix_of(path))
}

/// Whether a path is that of a font.
pub open spec fn is_font(path: Seq<char>) -> bool {
    path.len() >= 4 && stands_at(path, ".ttf"@, path.len() - 4)
}

/// The paths of fonts among some, in their order.
pub open spec fn fonts_among(paths: Seq<Seq<char>>) -> Seq<Seq<char>> {
    paths.filter(|path: Seq<char>| is_font(path))
}

/// The paths of fonts among some, in their order.
pub fn font_paths(paths: &Vec<String>) -> (fonts: Vec<String>)
    ensures
        texts(fonts@) == fonts_among(texts(paths@)),
{
    let ghost all = texts(paths@);
    let ghost font = |path: Seq<char>| is_font(path);
    let mut fonts: Vec<String> = Vec::new();
    let mut i: usize = 0;
    assert(texts(fonts@) =~= all.take(0).filter(font)) by {
        reveal(Seq::filter);
    }
    while i < paths.len()
        invariant
            i <= paths@.len(),
            all == texts(paths@),
            font == (|path: Seq<char>| is_font(path)),
            texts(fonts@) == all.take(i as int).filter(font),
        decreases paths@.len() - i,
    {
        let ghost before = fonts@;
        assert(all.take(i + 1).drop_last() =~= all.take(i as int));
        assert(all.take(i + 1).last() == paths@[i as int]@);
        proof {
            reveal(Seq::filter);
            reveal_strlit(".ttf");
        }
        let path = chars_of(paths[i].as_str());
        let n: usize = path.len();
        if n >= 4 && path[n - 4] == '.' && path[n - 3] == 't' && path[n - 2] == 't' && path[n - 1]
            == 'f' {
            assert(path@.subrange(n - 4, n as int) =~= ".ttf"@);
            fonts.push(paths[i].clone());
            assert(texts(fonts@) =~= texts(before).push(paths@[i as int]@));
        } else if n >= 4 {
            assert(!is_font(path@)) by {
                if is_font(path@) {
                    assert(path@[n - 4] == ".ttf"@[0]);
                    assert(path@[n - 3] == ".ttf"@[1]);
                    assert(path@[n - 2] == ".ttf"@[2]);
                    assert(path@[n - 1] == ".ttf"@[3]);
                }
            }
        }
        i = i + 1;
    }
    assert(all.take(all.len() as int) =~= all);
    fonts
}

} // verus!
