use vstd::prelude::*;
use vstd::string::StringExecFns;

use crate::numbers::{parse_u64_radix, parse_u64_radix_spec};
use crate::text::{lemma_name_lt_irreflexive, lemma_name_lt_total, lemma_name_lt_transitive, name_less, name_lt, names_equal};

verus! {

/// Why an asset file could not be had.
#[derive(Clone, Debug)]
pub enum AssetError {
    /// Reading or writing the file failed; the message says how.
    Io(String),
    /// The file is not a valid asset; the message says where.
    Parse(String),
    /// The asset could not be written out as text.
    Serialize(String),
}

/// Names strictly increase along `s`.
pub open spec fn names_increasing<T>(s: Seq<(String, Result<T, AssetError>)>) -> bool {
    forall|i: int, j: int| 0 <= i < j < s.len() ==> name_lt(#[trigger] s[i].0@, #[trigger] s[j].0@)
}

/// Some entry of `s` is named `name`.
pub open spec fn has_name<T>(s: Seq<(String, Result<T, AssetError>)>, name: Seq<char>) -> bool {
    exists|i: int| 0 <= i < s.len() && #[trigger] s[i].0@ == name
}

/// The map from names to what was loaded under them.
pub open spec fn names_map<T>(s: Seq<(String, Result<T, AssetError>)>) -> Map<
    Seq<char>,
    Result<T, AssetError>,
> {
    Map::new(
        |k: Seq<char>| has_name(s, k),
        |k: Seq<char>| s[choose|i: int| 0 <= i < s.len() && #[trigger] s[i].0@ == k].1,
    )
}

/// With increasing names, the entry at `i` is what the map holds for its name.
pub proof fn lemma_name_in_map<T>(s: Seq<(String, Result<T, AssetError>)>, i: int)
    requires
        names_increasing(s),
        0 <= i < s.len(),
    ensures
        names_map(s).contains_key(s[i].0@),
        names_map(s)[s[i].0@] == s[i].1,
{
    assert(has_name(s, s[i].0@));
    let j = choose|j: int| 0 <= j < s.len() && #[trigger] s[j].0@ == s[i].0@;
    if j < i {
        lemma_name_lt_irreflexive(s[i].0@);
        assert(name_lt(s[j].0@, s[i].0@));
    } else if i < j {
        lemma_name_lt_irreflexive(s[i].0@);
        assert(name_lt(s[i].0@, s[j].0@));
    }
}

/// The assets loaded successfully, in the order of their names.
pub open spec fn ok_assets<T>(s: Seq<(String, Result<T, AssetError>)>) -> Seq<T>
    decreases s.len(),
{
    if s.len() == 0 {
        Seq::empty()
    } else {
        match s.last().1 {
            Ok(a) => ok_assets(s.drop_last()).push(a),
            Err(_) => ok_assets(s.drop_last()),
        }
    }
}

/// The directory all asset directories are kept in.
pub const DATA_DIRECTORY: &'static str = "data";

/// `base` with `name` pushed onto it, as `PathBuf::push` joins paths under Unix path
/// rules: an absolute `name` replaces `base`; otherwise a `/` goes between them unless
/// `base` is empty or ends in one.
pub open spec fn push_path(base: Seq<char>, name: Seq<char>) -> Seq<char> {
    if name.len() > 0 && name[0] == '/' {
        name
    } else if base.len() > 0 && base.last() != '/' {
        base + seq!['/'] + name
    } else {
        base + name
    }
}

/// Where the file name of the first `n` characters of `path` ends, under Unix path
/// rules: trailing `/` and `.` parts are passed over; a final `..`, a leading `.` or
/// nothing left means there is no file name.
pub open spec fn file_name_end(path: Seq<char>, n: nat) -> Option<nat>
    decreases n,
{
    if n == 0 {
        None
    } else if path[n - 1] == '/' {
        file_name_end(path, (n - 1) as nat)
    } else if path[n - 1] == '.' && (n == 1 || path[n - 2] == '/') {
        if n == 1 {
            None
        } else {
            file_name_end(path, (n - 1) as nat)
        }
    } else if n >= 2 && path[n - 1] == '.' && path[n - 2] == '.' && (n == 2 || path[n - 3] == '/') {
        None
    } else {
        Some(n)
    }
}

/// A file name ends within the characters it is looked for in.
proof fn lemma_file_name_end_bound(path: Seq<char>, n: nat)
    ensures
        file_name_end(path, n) matches Some(e) ==> e <= n,
    decreases n,
{
    if n > 0 {
        lemma_file_name_end_bound(path, (n - 1) as nat);
    }
}

/// `path` with the extension `toml` added to its file name, as
/// `Path::with_added_extension` adds it under Unix path rules: the path is cut right
/// after its file name and `.toml` appended; a path without file name stays as it is.
pub open spec fn with_toml_extension(path: Seq<char>) -> Seq<char> {
    match file_name_end(path, path.len()) {
        Some(e) => path.take(e as int) + ".toml"@,
        None => path,
    }
}

/// The directory of assets kept in directory `directory_name`: `data` with the
/// directory name pushed onto it.
pub open spec fn base_path_spec(directory_name: Seq<char>) -> Seq<char> {
    push_path(DATA_DIRECTORY@, directory_name)
}

/// The file of asset `name` kept in directory `directory_name`: `name` pushed onto the
/// directory, with the extension `toml` added.
pub open spec fn asset_path_spec(directory_name: Seq<char>, name: Seq<char>) -> Seq<char> {
    with_toml_extension(push_path(base_path_spec(directory_name), name))
}

/// `base` with `name` pushed onto it, under Unix path rules.
fn push_path_text(base: String, name: &str) -> (r: String)
    ensures
        r@ == push_path(base@, name@),
{
    if name.unicode_len() > 0 && name.get_char(0) == '/' {
        return String::from_str(name);
    }
    let n = base.unicode_len();
    let mut out = base;
    if n > 0 && out.as_str().get_char(n - 1) != '/' {
        proof {
            reveal_strlit("/");
        }
        out.append("/");
    }
    out.append(name);
    out
}

/// Where the file name of `path` ends, under Unix path rules.
fn find_file_name_end(path: &str) -> (r: Option<usize>)
    ensures
        match r {
            Some(e) => file_name_end(path@, path@.len()) == Some(e as nat),
            None => file_name_end(path@, path@.len()) is None,
        },
{
    let len = path.unicode_len();
    let mut n = len;
    while n > 0
        invariant
            n <= len,
            len == path@.len(),
            file_name_end(path@, len as nat) == file_name_end(path@, n as nat),
        decreases n,
    {
        let c = path.get_char(n - 1);
        if c == '/' {
            n = n - 1;
        } else if c == '.' && (n == 1 || path.get_char(n - 2) == '/') {
            if n == 1 {
                return None;
            }
            n = n - 1;
        } else if n >= 2 && c == '.' && path.get_char(n - 2) == '.' && (n == 2 || path.get_char(n
            - 3) == '/') {
            return None;
        } else {
            return Some(n);
        }
    }
    None
}

/// `path` with the extension `toml` added to its file name, under Unix path rules.
fn add_toml_extension(path: String) -> (r: String)
    ensures
        r@ == with_toml_extension(path@),
{
    proof {
        lemma_file_name_end_bound(path@, path@.len());
    }
    match find_file_name_end(path.as_str()) {
        Some(e) => {
            let mut out = String::from_str(path.as_str().substring_char(0, e));
            proof {
                reveal_strlit(".toml");
                assert(path@.subrange(0, e as int) =~= path@.take(e as int));
            }
            out.append(".toml");
            out
        },
        None => path,
    }
}

/// The asset name a file named `file_name` holds: its stem, if its extension is
/// `toml` and the stem is not empty; files of other kinds hold none.
pub open spec fn toml_asset_name_spec(file_name: Seq<char>) -> Option<Seq<char>> {
    if file_name.len() > 5 && file_name.skip(file_name.len() - 5) == ".toml"@ {
        Some(file_name.take(file_name.len() - 5))
    } else {
        None
    }
}

/// The asset name the file named `file_name` holds, if it is an asset file.
pub fn toml_asset_name(file_name: &str) -> (r: Option<String>)
    ensures
        match r {
            Some(n) => toml_asset_name_spec(file_name@) == Some(n@),
            None => toml_asset_name_spec(file_name@) is None,
        },
{
    let n = file_name.unicode_len();
    if n <= 5 {
        return None;
    }
    let ext = file_name.substring_char(n - 5, n);
    proof {
        assert(file_name@.skip(n - 5) =~= file_name@.subrange(n - 5, n as int));
    }
    if names_equal(ext, ".toml") {
        let stem = file_name.substring_char(0, n - 5);
        proof {
            assert(file_name@.take(n - 5) =~= file_name@.subrange(0, n - 5));
        }
        Some(String::from_str(stem))
    } else {
        None
    }
}

/// The kind of a change to a file in a watched asset directory.
#[derive(Clone, Copy, Debug, PartialEq, Eq, Structural)]
pub enum FileEventKind {
    Create,
    Modify,
    Remove,
    /// Access and anything else that leaves the contents as they were.
    Other,
}

/// What a change to an asset file asks of the asset it holds.
#[derive(Clone, Copy, Debug, PartialEq, Eq, Structural)]
pub enum AssetFileChange {
    /// Read the file again and store what it holds.
    Upsert,
    /// Drop the asset.
    Delete,
}

/// What a file change of kind `kind` asks of its asset; nothing for other kinds.
pub fn file_change(kind: FileEventKind) -> (r: Option<AssetFileChange>)
    ensures
        r == match kind {
            FileEventKind::Create | FileEventKind::Modify => Some(AssetFileChange::Upsert),
            FileEventKind::Remove => Some(AssetFileChange::Delete),
            FileEventKind::Other => None::<AssetFileChange>,
        },
{
    match kind {
        FileEventKind::Create | FileEventKind::Modify => Some(AssetFileChange::Upsert),
        FileEventKind::Remove => Some(AssetFileChange::Delete),
        FileEventKind::Other => None,
    }
}

/// The id of the asset a watched file holds: the file's stem read as a decimal number.
pub fn watched_asset_id(file_stem: &str) -> (r: Option<u64>)
    ensures
        r == parse_u64_radix_spec(file_stem@, 10),
{
    parse_u64_radix(file_stem, 10)
}

/// Named assets of one kind, as loaded from their directory: for each file name,
/// the asset or why it could not be loaded. Kept in the order of names.
pub struct AssetLoader<T> {
    entries: Vec<(String, Result<T, AssetError>)>,
}

impl<T> AssetLoader<T> {
    /// The entries, in the order of their names.
    pub closed spec fn entries(&self) -> Seq<(String, Result<T, AssetError>)> {
        self.entries@
    }

    /// Names strictly increase along the entries.
    pub open spec fn wf(&self) -> bool {
        names_increasing(self.entries())
    }

    /// What was loaded under each name.
    pub open spec fn map(&self) -> Map<Seq<char>, Result<T, AssetError>> {
        names_map(self.entries())
    }

    /// A loader with nothing loaded.
    pub fn new() -> (r: Self)
        ensures
            r.wf(),
            r.entries() == Seq::<(String, Result<T, AssetError>)>::empty(),
    {
        AssetLoader { entries: Vec::new() }
    }

    /// Every name with what was loaded under it, in the order of names.
    pub fn assets(&self) -> (r: &Vec<(String, Result<T, AssetError>)>)
        ensures
            r@ == self.entries(),
    {
        &self.entries
    }

    /// The assets that loaded, in the order of their names.
    pub fn assets_iter(&self) -> (r: Vec<&T>)
        ensures
            r@.map_values(|a: &T| *a) == ok_assets(self.entries()),
    {
        let mut out: Vec<&T> = Vec::new();
        let mut i: usize = 0;
        while i < self.entries.len()
            invariant
                i <= self.entries@.len(),
                out@.map_values(|a: &T| *a) == ok_assets(self.entries@.take(i as int)),
            decreases self.entries@.len() - i,
        {
            proof {
                assert(self.entries@.take(i + 1).drop_last() =~= self.entries@.take(i as int));
            }
            match &self.entries[i].1 {
                Ok(a) => {
                    out.push(a);
                },
                Err(_) => {},
            }
            i = i + 1;
            proof {
                assert(out@.map_values(|a: &T| *a) =~= ok_assets(self.entries@.take(i as int)));
            }
        }
        proof {
            assert(self.entries@.take(i as int) =~= self.entries@);
        }
        out
    }

    /// Position of the entry named `name`, if any.
    fn position(&self, name: &str) -> (r: Option<usize>)
        requires
            self.wf(),
        ensures
            match r {
                Some(i) => i < self.entries().len() && self.entries()[i as int].0@ == name@,
                None => !has_name(self.entries(), name@),
            },
    {
        let mut i: usize = 0;
        while i < self.entries.len()
            invariant
                i <= self.entries@.len(),
                forall|j: int| 0 <= j < i ==> self.entries@[j].0@ != name@,
            decreases self.entries@.len() - i,
        {
            if names_equal(self.entries[i].0.as_str(), name) {
                return Some(i);
            }
            i = i + 1;
        }
        None
    }

    /// The asset named `name`, if it loaded.
    pub fn get_asset(&self, name: &str) -> (r: Option<&T>)
        requires
            self.wf(),
        ensures
            match r {
                Some(a) => self.map().contains_key(name@) && self.map()[name@] == Ok::<T, AssetError>(*a),
                None => !(self.map().contains_key(name@) && self.map()[name@] is Ok),
            },
    {
        match self.get_asset_entry(name) {
            Some((_, a)) => Some(a),
            None => None,
        }
    }

    /// The name and the asset named `name`, if it loaded.
    pub fn get_asset_entry(&self, name: &str) -> (r: Option<(&String, &T)>)
        requires
            self.wf(),
        ensures
            match r {
                Some((k, a)) => k@ == name@ && self.map().contains_key(name@) && self.map()[name@]
                    == Ok::<T, AssetError>(*a),
                None => !(self.map().contains_key(name@) && self.map()[name@] is Ok),
            },
    {
        match self.position(name) {
            Some(i) => {
                proof {
                    lemma_name_in_map(self.entries(), i as int);
                }
                let e = &self.entries[i];
                match &e.1 {
                    Ok(a) => Some((&e.0, a)),
                    Err(_) => None,
                }
            },
            None => None,
        }
    }

    /// Index of the first entry whose name does not come before `name`.
    fn lower_bound(&self, name: &str) -> (r: usize)
        requires
            self.wf(),
        ensures
            r <= self.entries().len(),
            forall|j: int| 0 <= j < r ==> name_lt(#[trigger] self.entries()[j].0@, name@),
            r < self.entries().len() ==> !name_lt(self.entries()[r as int].0@, name@),
    {
        let mut i: usize = 0;
        while i < self.entries.len()
            invariant
                i <= self.entries@.len(),
                forall|j: int| 0 <= j < i ==> name_lt(#[trigger] self.entries@[j].0@, name@),
            decreases self.entries@.len() - i,
        {
            if !name_less(self.entries[i].0.as_str(), name) {
                return i;
            }
            i = i + 1;
        }
        i
    }

    /// Stores `asset` under `name`, replacing what was there.
    pub fn insert(&mut self, name: String, asset: Result<T, AssetError>)
        requires
            old(self).wf(),
        ensures
            final(self).wf(),
            final(self).map() == old(self).map().insert(name@, asset),
    {
        let i = self.lower_bound(name.as_str());
        let ghost s0 = self.entries@;
        let ghost k = name@;
        let ghost v = asset;
        let replace = i < self.entries.len() && names_equal(self.entries[i].0.as_str(), name.as_str());
        if replace {
            self.entries.set(i, (name, asset));
        } else {
            self.entries.insert(i, (name, asset));
        }
        let ghost s1 = self.entries@;
        proof {
            if !replace && i < s0.len() {
                lemma_name_lt_total(s0[i as int].0@, k);
                assert(name_lt(k, s0[i as int].0@));
            }
            assert forall|a: int, b: int| 0 <= a < b < s1.len() implies name_lt(
                #[trigger] s1[a].0@,
                #[trigger] s1[b].0@,
            ) by {
                if replace {
                    if a == i {
                        assert(name_lt(s0[a].0@, s0[b].0@));
                    } else if b == i {
                        assert(name_lt(s0[a].0@, s0[b].0@));
                    }
                } else {
                    if a < i && b == i {
                    } else if a < i && b > i {
                        assert(s1[b] == s0[b - 1]);
                        assert(name_lt(s0[a].0@, s0[b - 1].0@));
                    } else if a == i {
                        assert(s1[b] == s0[b - 1]);
                        if b - 1 > i {
                            assert(name_lt(s0[i as int].0@, s0[b - 1].0@));
                            lemma_name_lt_transitive(k, s0[i as int].0@, s0[b - 1].0@);
                        }
                    } else if a > i {
                        assert(s1[a] == s0[a - 1]);
                        assert(s1[b] == s0[b - 1]);
                        assert(name_lt(s0[a - 1].0@, s0[b - 1].0@));
                    }
                }
            }
            assert forall|key: Seq<char>|
                #![trigger names_map(s1).contains_key(key)]
                names_map(s1).contains_key(key) == names_map(s0).insert(k, v).contains_key(key) by {
                if has_name(s1, key) {
                    let j = choose|j: int| 0 <= j < s1.len() && #[trigger] s1[j].0@ == key;
                    if key != k {
                        if replace {
                            assert(s0[j].0@ == key);
                        } else if j < i {
                            assert(s0[j].0@ == key);
                        } else {
                            assert(s0[j - 1].0@ == key);
                        }
                    }
                }
                if has_name(s0, key) {
                    let j = choose|j: int| 0 <= j < s0.len() && #[trigger] s0[j].0@ == key;
                    if replace {
                        assert(s1[j].0@ == key);
                    } else if j < i {
                        assert(s1[j].0@ == key);
                    } else {
                        assert(s1[j + 1].0@ == key);
                    }
                }
                if key == k {
                    assert(s1[i as int].0@ == k);
                }
            }
            assert forall|key: Seq<char>| #[trigger]
                names_map(s1).contains_key(key) implies names_map(s1)[key] == names_map(
                s0,
            ).insert(k, v)[key] by {
                let j = choose|j: int| 0 <= j < s1.len() && #[trigger] s1[j].0@ == key;
                lemma_name_in_map(s1, j);
                if key != k {
                    if replace {
                        lemma_name_in_map(s0, j);
                    } else if j < i {
                        lemma_name_in_map(s0, j);
                    } else {
                        lemma_name_in_map(s0, j - 1);
                    }
                } else {
                    lemma_name_in_map(s1, i as int);
                }
            }
            assert(names_map(s1) =~= names_map(s0).insert(k, v));
        }
    }

    /// Keeps `asset`, just written to its file, as the asset named `name`.
    pub fn store_asset(&mut self, name: &str, asset: T)
        requires
            old(self).wf(),
        ensures
            final(self).wf(),
            final(self).map() == old(self).map().insert(name@, Ok::<T, AssetError>(asset)),
    {
        self.insert(String::from_str(name), Ok(asset));
    }

    /// The directory that assets kept in directory `directory_name` are read from:
    /// `data` with the directory name pushed onto it, under Unix path rules.
    pub fn base_path(directory_name: &str) -> (r: String)
        ensures
            r@ == base_path_spec(directory_name@),
    {
        push_path_text(String::from_str(DATA_DIRECTORY), directory_name)
    }

    /// The file that the asset `name` of directory `directory_name` is kept in, as
    /// `PathBuf::push` and `Path::with_added_extension` make it under Unix path rules:
    /// `name` pushed onto the directory, and `.toml` added to the file name.
    pub fn asset_path(directory_name: &str, name: &str) -> (r: String)
        ensures
            r@ == asset_path_spec(directory_name@, name@),
    {
        add_toml_extension(push_path_text(Self::base_path(directory_name), name))
    }
}

/// After an asset is stored under a name, looking that name up gives the asset back,
/// and every other name keeps what it had.
pub proof fn law_get_after_store<T>(before: AssetLoader<T>, after: AssetLoader<T>, name: Seq<char>, asset: T)
    requires
        after.map() == before.map().insert(name, Ok::<T, AssetError>(asset)),
    ensures
        after.map().contains_key(name),
        after.map()[name] == Ok::<T, AssetError>(asset),
        forall|other: Seq<char>|
            other != name ==> (#[trigger] after.map().contains_key(other) == before.map().contains_key(other)
                && (after.map().contains_key(other) ==> after.map()[other] == before.map()[other])),
{
}


/// A file holds an asset exactly when its name is a non-empty name followed by `.toml`,
/// and the asset's name is then that name: the file written for an asset reads back as
/// that asset.
pub proof fn law_toml_file_name_round_trip(name: Seq<char>, file_name: Seq<char>)
    ensures
        name.len() > 0 ==> toml_asset_name_spec(name + ".toml"@) == Some(name),
        toml_asset_name_spec(file_name) == Some(name) ==> name.len() > 0 && file_name == name
            + ".toml"@,
{
    reveal_strlit(".toml");
    let f = name + ".toml"@;
    assert(f.skip(f.len() - 5) =~= ".toml"@);
    assert(f.take(f.len() - 5) =~= name);
    if toml_asset_name_spec(file_name) == Some(name) {
        assert(file_name =~= file_name.take(file_name.len() - 5) + file_name.skip(file_name.len() - 5));
    }
}

} // verus!
