//! The scan of the working directory: which folders hold unsorted files,
//! and which already stand for a capture date.

use crate::date::{date_prefix, date_prefix_of, iso_value, CalendarDate};
use crate::error::ArrangeError;
use crate::path::{join, joined};
use dashmap::mapref::entry::Entry;
use dashmap::DashMap;
use vstd::prelude::*;
use vstd::string::*;

verus! {

/// The key of a target directory: the bucket and the capture date.
#[derive(Debug, Clone, Copy, Hash, PartialEq, Eq, Structural)]
pub enum TargetType {
    IMAGE(CalendarDate),
    RAW(CalendarDate),
}

/// The form in which a key is stored: bucket, year, month, day.
pub type KeyCode = (u8, i32, u32, u32);

impl TargetType {
    pub open spec fn date(self) -> CalendarDate {
        match self {
            TargetType::IMAGE(d) => d,
            TargetType::RAW(d) => d,
        }
    }

    pub open spec fn wf(self) -> bool {
        self.date().wf()
    }

    pub open spec fn bucket(self) -> int {
        match self {
            TargetType::IMAGE(_) => 0,
            TargetType::RAW(_) => 1,
        }
    }

    /// The stored form of the key.
    pub open spec fn code(self) -> KeyCode {
        (
            self.bucket() as u8,
            self.date().year_of() as i32,
            self.date().month_of() as u32,
            self.date().day_of() as u32,
        )
    }

    /// Well-formed keys with the same stored form are the same key.
    pub proof fn lemma_code_injective(self, other: TargetType)
        requires
            self.wf(),
            other.wf(),
            self.code() == other.code(),
        ensures
            self == other,
    {
        self.date().lemma_fields();
        other.date().lemma_fields();
    }

    fn key(&self) -> (r: KeyCode)
        ensures
            r == self.code(),
            self.wf(),
    {
        match self {
            TargetType::IMAGE(d) => {
                proof {
                    use_type_invariant(d);
                }
                (0, d.year(), d.month(), d.day())
            },
            TargetType::RAW(d) => {
                proof {
                    use_type_invariant(d);
                }
                (1, d.year(), d.month(), d.day())
            },
        }
    }
}

#[verifier::external_type_specification]
#[verifier::external_body]
#[verifier::reject_recursive_types(K)]
#[verifier::reject_recursive_types(V)]
#[verifier::reject_recursive_types(S)]
pub struct ExDashMap<K, V, S>(DashMap<K, V, S>);

/// The key-value pairs that a `DashMap` holds.
pub uninterp spec fn dash_entries(map: DashMap<KeyCode, String>) -> Map<KeyCode, Seq<char>>;

/// The map without pairs.
pub open spec fn no_entries() -> Map<KeyCode, Seq<char>> {
    Map::empty()
}

/// Calls `DashMap::new`. Trusted: the new map holds nothing.
#[verifier::external_body]
fn dash_new() -> (r: DashMap<KeyCode, String>)
    ensures
        dash_entries(r) == no_entries(),
{
    DashMap::new()
}

/// Calls `DashMap::insert`. Trusted: afterwards the key maps to the value
/// and no other pair has changed.
#[verifier::external_body]
fn dash_insert(map: &mut DashMap<KeyCode, String>, key: KeyCode, value: String)
    ensures
        dash_entries(*final(map)) == dash_entries(*old(map)).insert(key, value@),
{
    map.insert(key, value);
}

/// Calls `DashMap::get` and copies the value out. Trusted: the result is
/// the value stored under the key, or `None` where the key is absent.
#[verifier::external_body]
fn dash_get(map: &DashMap<KeyCode, String>, key: &KeyCode) -> (r: Option<String>)
    ensures
        r is Some == dash_entries(*map).contains_key(*key),
        r matches Some(v) ==> v@ == dash_entries(*map)[*key],
{
    map.get(key).map(|v| v.value().clone())
}

/// Calls `DashMap::entry` and, on a vacant entry, `VacantEntry::insert`: one
/// check-and-insert under the shard's write lock. Trusted: a present key
/// keeps its value, which is returned with `false`; an absent key receives
/// `value`, which is returned with `true`; no other pair changes.
#[verifier::external_body]
fn dash_get_or_insert(map: &mut DashMap<KeyCode, String>, key: KeyCode, value: String) -> (r: (
    String,
    bool,
))
    ensures
        dash_entries(*old(map)).contains_key(key) ==> {
            &&& r.0@ == dash_entries(*old(map))[key]
            &&& !r.1
            &&& dash_entries(*final(map)) == dash_entries(*old(map))
        },
        !dash_entries(*old(map)).contains_key(key) ==> {
            &&& r.0@ == value@
            &&& r.1
            &&& dash_entries(*final(map)) == dash_entries(*old(map)).insert(key, value@)
        },
{
    match map.entry(key) {
        Entry::Occupied(e) => (e.get().clone(), false),
        Entry::Vacant(e) => (e.insert(value).value().clone(), true),
    }
}

/// The target directories known so far, by key.
pub struct TargetMap {
    map: DashMap<KeyCode, String>,
}

impl View for TargetMap {
    type V = Map<TargetType, Seq<char>>;

    closed spec fn view(&self) -> Map<TargetType, Seq<char>> {
        Map::new(
            |k: TargetType| k.wf() && dash_entries(self.map).contains_key(k.code()),
            |k: TargetType| dash_entries(self.map)[k.code()],
        )
    }
}

impl TargetMap {
    /// A map without entries.
    pub fn new() -> (r: TargetMap)
        ensures
            r@ == Map::<TargetType, Seq<char>>::empty(),
    {
        let r = TargetMap { map: dash_new() };
        assert(r@ =~= Map::<TargetType, Seq<char>>::empty());
        r
    }

    /// Binds `key` to `path`, replacing an earlier binding.
    pub fn insert(&mut self, key: TargetType, path: String)
        ensures
            final(self)@ == old(self)@.insert(key, path@),
    {
        let code = key.key();
        dash_insert(&mut self.map, code, path);
        assert(self@ =~= old(self)@.insert(key, path@)) by {
            assert forall|k: TargetType| k.wf() && k.code() == code implies k == key by {
                k.lemma_code_injective(key);
            }
        }
    }

    /// The path bound to `key`, if any.
    pub fn get(&self, key: &TargetType) -> (r: Option<String>)
        ensures
            r is Some == self@.contains_key(*key),
            r matches Some(p) ==> p@ == self@[*key],
    {
        let code = key.key();
        dash_get(&self.map, &code)
    }

    /// Returns the path bound to `key`; binds `path` first where the key is
    /// free. The flag tells whether this call made the binding.
    pub fn get_or_insert(&mut self, key: TargetType, path: String) -> (r: (String, bool))
        ensures
            old(self)@.contains_key(key) ==> {
                &&& r.0@ == old(self)@[key]
                &&& !r.1
                &&& final(self)@ == old(self)@
            },
            !old(self)@.contains_key(key) ==> {
                &&& r.0@ == path@
                &&& r.1
                &&& final(self)@ == old(self)@.insert(key, path@)
            },
    {
        let code = key.key();
        let r = dash_get_or_insert(&mut self.map, code, path);
        proof {
            assert forall|k: TargetType| k.wf() && k.code() == code implies k == key by {
                k.lemma_code_injective(key);
            }
            if old(self)@.contains_key(key) {
                assert(self@ =~= old(self)@);
            } else {
                assert(self@ =~= old(self)@.insert(key, path@));
            }
        }
        r
    }
}

/// One child of the working directory, as the caller found it.
pub struct FolderEntry {
    /// The child's name, without the directory in front.
    pub name: String,
    /// Whether the child is a directory.
    pub is_dir: bool,
    /// Whether the child holds a directory named after the raw folder.
    pub has_raw_folder: bool,
}

/// The outcome of a scan.
pub struct Folders {
    /// The folders whose files are to be sorted, in the order of the listing.
    pub source: Vec<String>,
    /// The folders that already stand for a date.
    pub target: TargetMap,
}

/// The views of a sequence of strings.
pub open spec fn texts(v: Seq<String>) -> Seq<Seq<char>> {
    Seq::new(v.len(), |i: int| v[i]@)
}

/// The date that a folder name starts with.
pub open spec fn folder_date(name: Seq<char>) -> Option<CalendarDate> {
    match date_prefix_of(name) {
        Some(p) => CalendarDate::from_parsed_spec(iso_value(p)),
        None => None,
    }
}

/// A source folder is a directory whose name does not start like a date.
pub open spec fn is_source(e: FolderEntry) -> bool {
    e.is_dir && date_prefix_of(e.name@) is None
}

/// The source folders of a listing, in order.
pub open spec fn scanned_sources(root: Seq<char>, entries: Seq<FolderEntry>) -> Seq<Seq<char>>
    decreases entries.len(),
{
    if entries.len() == 0 {
        Seq::empty()
    } else {
        let rest = scanned_sources(root, entries.drop_last());
        let e = entries.last();
        if is_source(e) {
            rest.push(joined(root, e.name@))
        } else {
            rest
        }
    }
}

/// The target folders of a listing. A dated directory stands for the images
/// of its date; where it holds the raw folder, that folder stands for the
/// raw files of the date. A later entry of the same date replaces an
/// earlier one.
pub open spec fn scanned_targets(
    root: Seq<char>,
    raw_folder: Seq<char>,
    entries: Seq<FolderEntry>,
) -> Map<TargetType, Seq<char>>
    decreases entries.len(),
{
    if entries.len() == 0 {
        Map::empty()
    } else {
        let rest = scanned_targets(root, raw_folder, entries.drop_last());
        let e = entries.last();
        match folder_date(e.name@) {
            Some(date) if e.is_dir => {
                let dir = joined(root, e.name@);
                let with_image = rest.insert(TargetType::IMAGE(date), dir);
                if e.has_raw_folder {
                    with_image.insert(TargetType::RAW(date), joined(dir, raw_folder))
                } else {
                    with_image
                }
            },
            _ => rest,
        }
    }
}

/// The entry is a directory whose name starts with the date.
pub open spec fn is_dated(e: FolderEntry, date: CalendarDate) -> bool {
    e.is_dir && folder_date(e.name@) == Some(date)
}

/// A listing without a directory of a date binds neither key of the date.
pub proof fn lemma_scan_without_date(
    root: Seq<char>,
    raw_folder: Seq<char>,
    entries: Seq<FolderEntry>,
    date: CalendarDate,
)
    requires
        forall|i: int| 0 <= i < entries.len() ==> !is_dated(#[trigger] entries[i], date),
    ensures
        !scanned_targets(root, raw_folder, entries).contains_key(TargetType::IMAGE(date)),
        !scanned_targets(root, raw_folder, entries).contains_key(TargetType::RAW(date)),
    decreases entries.len(),
{
    if entries.len() > 0 {
        let rest = entries.drop_last();
        assert(forall|i: int| 0 <= i < rest.len() ==> rest[i] == entries[i]);
        lemma_scan_without_date(root, raw_folder, rest, date);
        assert(entries[entries.len() - 1] == entries.last());
    }
}

/// A listing with exactly one directory of a date binds the image key of
/// the date to that directory, and the raw key to the raw folder in it,
/// where it holds one.
pub proof fn lemma_scan_of_single_date(
    root: Seq<char>,
    raw_folder: Seq<char>,
    entries: Seq<FolderEntry>,
    date: CalendarDate,
    i: int,
)
    requires
        0 <= i < entries.len(),
        is_dated(entries[i], date),
        forall|j: int| 0 <= j < entries.len() && j != i ==> !is_dated(#[trigger] entries[j], date),
    ensures
        ({
            let found = scanned_targets(root, raw_folder, entries);
            let dir = joined(root, entries[i].name@);
            &&& found.contains_key(TargetType::IMAGE(date))
            &&& found[TargetType::IMAGE(date)] == dir
            &&& found.contains_key(TargetType::RAW(date)) == entries[i].has_raw_folder
            &&& entries[i].has_raw_folder ==> found[TargetType::RAW(date)] == joined(
                dir,
                raw_folder,
            )
        }),
    decreases entries.len(),
{
    let rest = entries.drop_last();
    let n = entries.len() - 1;
    assert(entries[n] == entries.last());
    assert(forall|j: int| 0 <= j < rest.len() ==> rest[j] == entries[j]);
    if i == n {
        lemma_scan_without_date(root, raw_folder, rest, date);
    } else {
        lemma_scan_of_single_date(root, raw_folder, rest, date, i);
        assert(!is_dated(entries[n], date));
    }
}

/// The date that a folder name starts with: the name's first ten
/// characters read as `YYYY-MM-DD`. `None` where they have another shape or
/// spell a day that does not exist.
pub fn try_extract_date(path_str: &str) -> (r: Option<CalendarDate>)
    ensures
        r == folder_date(path_str@),
{
    match date_prefix(path_str) {
        Some(p) => CalendarDate::parse(p),
        None => None,
    }
}

/// Scans the working directory, given the listing of its children or the
/// reason why it could not be listed. A directory that cannot be listed
/// fails the scan with `WalkDirError`.
pub fn find_folders(
    entry_point: &str,
    raw_folder: &str,
    listing: Result<Vec<FolderEntry>, std::io::Error>,
) -> (r: Result<Folders, ArrangeError>)
    ensures
        match listing {
            Ok(entries) => {
                &&& r matches Ok(folders)
                &&& texts(folders.source@) == scanned_sources(entry_point@, entries@)
                &&& folders.target@ == scanned_targets(entry_point@, raw_folder@, entries@)
            },
            Err(_) => r matches Err(ArrangeError::WalkDirError()),
        },
{
    match listing {
        Ok(entries) => Ok(sort_folders(entry_point, raw_folder, &entries)),
        Err(_) => Err(ArrangeError::WalkDirError()),
    }
}

/// Sorts the children of the working directory into source folders and
/// target folders. Only the children themselves are looked at.
pub fn sort_folders(entry_point: &str, raw_folder: &str, entries: &Vec<FolderEntry>) -> (r: Folders)
    ensures
        texts(r.source@) == scanned_sources(entry_point@, entries@),
        r.target@ == scanned_targets(entry_point@, raw_folder@, entries@),
{
    let mut target_folders = TargetMap::new();
    let mut source_folders: Vec<String> = Vec::new();
    let mut i: usize = 0;
    while i < entries.len()
        invariant
            i <= entries.len(),
            texts(source_folders@) == scanned_sources(entry_point@, entries@.take(i as int)),
            target_folders@ == scanned_targets(entry_point@, raw_folder@, entries@.take(i as int)),
        decreases entries.len() - i,
    {
        let entry = &entries[i];
        proof {
            assert(entries@.take(i + 1).drop_last() == entries@.take(i as int));
            assert(entries@.take(i + 1).last() == entries@[i as int]);
        }
        let ghost before = source_folders@;
        if entry.is_dir {
            let path = join(entry_point, entry.name.as_str());
            match try_extract_date(entry.name.as_str()) {
                Some(date) => {
                    if entry.has_raw_folder {
                        let raw_path = join(path.as_str(), raw_folder);
                        target_folders.insert(TargetType::IMAGE(date), path);
                        target_folders.insert(TargetType::RAW(date), raw_path);
                    } else {
                        target_folders.insert(TargetType::IMAGE(date), path);
                    }
                },
                None => {
                    match date_prefix(entry.name.as_str()) {
                        Some(_) => {},
                        None => {
                            source_folders.push(path);
                            assert(texts(source_folders@) == texts(before).push(
                                joined(entry_point@, entry.name@),
                            ));
                        },
                    }
                },
            }
        }
        i += 1;
    }
    proof {
        assert(entries@.take(entries.len() as int) == entries@);
    }
    Folders { source: source_folders, target: target_folders }
}

} // verus!
