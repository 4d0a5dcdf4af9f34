//! The cache of discovered environments: an in-memory mirror of a
//! directory that holds one file for each record.
//!
//! The cache never touches the directory itself. `store` says what is to
//! be written and under which name; `get_all_environments` is handed what
//! was read. What stands between the two is the caller's: a write that
//! fails, a file that does not parse.

use vstd::prelude::*;
use vstd::string::*;

use crate::environment::{
    copy_environments, distinct_paths, environments, fingerprints, get_environment_key,
    has_distinct_fingerprints, identity_key, opt_environment_view, Fingerprint, FingerprintView,
    PythonEnvironment, PythonEnvironmentView,
};
use crate::hash::{
    compute_hash, fnv1a, hex_text, is_hex_digit, lemma_hex_text_digits, path_bytes,
};
use crate::paths::{file_name, joined, path_join, split_components};
use crate::platform::{is_separator, Platform};
use crate::text::{lowered, same_str, same_text, strings, to_chars, to_lowered};
use crate::times::MTimeCTime;

verus! {

/// The part of a file's name after its last dot. A name without a dot has
/// none, nor has one whose only dot comes first.
pub open spec fn extension_of(name: Seq<char>) -> Option<Seq<char>> {
    if exists|i: int| 0 < i < name.len() && name[i] == '.' {
        let at = last_dot(name);
        Some(name.skip(at + 1))
    } else {
        None
    }
}

/// The position of the last dot of a name that has one.
pub open spec fn last_dot(name: Seq<char>) -> int {
    choose|i: int|
        0 <= i < name.len() && name[i] == '.' && forall|j: int|
            i < j < name.len() ==> name[j] != '.'
}

/// Whether the file at `path` is taken for a record of the cache: its
/// extension is `json`, in capitals or small letters.
pub open spec fn is_cache_file(path: Seq<char>, platform: Platform) -> bool {
    extension_of(file_name(path, platform)) matches Some(extension) && lowered(extension) == "json"@
}

/// Whether the file at `path` is taken for a record of the cache.
pub fn is_cache_file_name(path: &str, platform: Platform) -> (r: bool)
    ensures
        r == is_cache_file(path@, platform),
{
    let parts = split_components(&to_chars(path), platform);
    if parts.len() == 0 {
        assert(file_name(path@, platform) =~= Seq::<char>::empty());
        return false;
    }
    let name = &parts[parts.len() - 1];
    assert(name@ == file_name(path@, platform));
    let mut at: usize = name.len();
    while at > 1 && name[at - 1] != '.'
        invariant
            at <= name@.len(),
            forall|j: int| at <= j < name@.len() ==> name@[j] != '.',
        decreases at,
    {
        at -= 1;
    }
    if at <= 1 {
        assert(!(exists|i: int| 0 < i < name@.len() && name@[i] == '.'));
        return false;
    }
    let dot = at - 1;
    proof {
        assert(name@[dot as int] == '.');
        let chosen = last_dot(name@);
        assert(chosen == dot) by {
            if chosen < dot {
                assert(name@[dot as int] != '.');
            }
        }
    }
    let mut extension: Vec<char> = Vec::new();
    let mut i: usize = at;
    while i < name.len()
        invariant
            at <= i <= name@.len(),
            extension@ == name@.subrange(at as int, i as int),
        decreases name@.len() - i,
    {
        extension.push(name[i]);
        assert(name@.subrange(at as int, i + 1) =~= name@.subrange(at as int, i as int).push(
            name@[i as int],
        ));
        i += 1;
    }
    assert(extension@ =~= name@.skip(at as int));
    same_text(&to_lowered(&extension), &to_chars("json"))
}

/// Whether a list holds a fingerprint of `path`.
pub open spec fn has_path(list: Seq<FingerprintView>, path: Seq<char>) -> bool {
    exists|i: int| 0 <= i < list.len() && (#[trigger] list[i]).path == path
}

/// Where a list holds a fingerprint of `path`.
pub open spec fn position_of(list: Seq<FingerprintView>, path: Seq<char>) -> int {
    choose|i: int| 0 <= i < list.len() && (#[trigger] list[i]).path == path
}

/// A list with one more fingerprint put in: in the place of the one that
/// the list holds of the same path, or at the end where it holds none.
pub open spec fn put(list: Seq<FingerprintView>, entry: FingerprintView) -> Seq<FingerprintView> {
    if has_path(list, entry.path) {
        list.update(position_of(list, entry.path), entry)
    } else {
        list.push(entry)
    }
}

/// The fingerprints of the paths that could be read: one for each path,
/// in the order in which the paths first occur. Of a path that occurs more
/// than once the last reading counts. A path that `live` does not reach
/// counts as unreadable.
pub open spec fn refreshed(symlinks: Seq<Seq<char>>, live: Seq<Option<MTimeCTime>>) -> Seq<
    FingerprintView,
>
    decreases symlinks.len(),
{
    if symlinks.len() == 0 {
        Seq::<FingerprintView>::empty()
    } else {
        let before = refreshed(symlinks.drop_last(), live);
        let at = symlinks.len() - 1;
        if at < live.len() && live[at] is Some {
            put(before, FingerprintView { path: symlinks.last(), times: live[at]->0 })
        } else {
            before
        }
    }
}

/// Putting a fingerprint into a list that holds no path twice gives such
/// a list again, which holds the fingerprint.
pub proof fn lemma_put_distinct(list: Seq<FingerprintView>, entry: FingerprintView)
    requires
        distinct_paths(list),
    ensures
        distinct_paths(put(list, entry)),
        put(list, entry).contains(entry),
{
    let after = put(list, entry);
    if has_path(list, entry.path) {
        let at = position_of(list, entry.path);
        assert(after[at] == entry);
        assert forall|i: int, j: int| 0 <= i < j < after.len() implies (#[trigger] after[i]).path
            != (#[trigger] after[j]).path by {
            assert(list[i].path != list[j].path);
        }
    } else {
        assert(after[after.len() - 1] == entry);
        assert forall|i: int, j: int| 0 <= i < j < after.len() implies (#[trigger] after[i]).path
            != (#[trigger] after[j]).path by {
            if j < list.len() {
                assert(list[i].path != list[j].path);
            } else {
                assert(list[i].path != entry.path);
            }
        }
    }
}

/// The fingerprints that a record is given hold no path twice, whatever
/// the symlinks hold.
pub proof fn lemma_refreshed_distinct(symlinks: Seq<Seq<char>>, live: Seq<Option<MTimeCTime>>)
    ensures
        distinct_paths(refreshed(symlinks, live)),
    decreases symlinks.len(),
{
    if symlinks.len() > 0 {
        lemma_refreshed_distinct(symlinks.drop_last(), live);
        let at = symlinks.len() - 1;
        if at < live.len() && live[at] is Some {
            lemma_put_distinct(
                refreshed(symlinks.drop_last(), live),
                FingerprintView { path: symlinks.last(), times: live[at]->0 },
            );
        }
    }
}

/// An environment with the fingerprints of its symlinked executables
/// brought up to date. Where it has no symlinks, or none of them could be
/// read, it stays as it is.
pub open spec fn with_fingerprints(
    env: PythonEnvironmentView,
    live: Seq<Option<MTimeCTime>>,
) -> PythonEnvironmentView {
    match env.symlinks {
        Some(symlinks) => {
            let times = refreshed(symlinks, live);
            if times.len() > 0 {
                PythonEnvironmentView { times: Some(times), ..env }
            } else {
                env
            }
        },
        None => env,
    }
}

/// The path of the file that holds the record with identity `key`.
pub open spec fn record_path(
    cache_dir: Seq<char>,
    key: Seq<char>,
    platform: Platform,
) -> Seq<char> {
    joined(cache_dir, hex_text(fnv1a(path_bytes(key)) as nat) + ".json"@, platform)
}

/// The file under which a record is stored is taken for a record when the
/// directory is read again, whatever the directory and the identity.
pub proof fn lemma_record_is_cache_file(cache_dir: Seq<char>, key: Seq<char>, platform: Platform)
    ensures
        is_cache_file(record_path(cache_dir, key, platform), platform),
{
    reveal_strlit(".json");
    reveal_strlit("json");
    let hex = hex_text(fnv1a(path_bytes(key)) as nat);
    let name = hex + ".json"@;
    lemma_hex_text_digits(fnv1a(path_bytes(key)) as nat);
    assert forall|i: int| 0 <= i < name.len() implies !is_separator(name[i], platform) && (name[i]
        == '.' <==> i == hex.len()) by {
        if i < hex.len() {
            assert(name[i] == hex[i]);
            assert(is_hex_digit(hex[i]));
        } else {
            assert(name[i] == ".json"@[i - hex.len()]);
        }
    }
    crate::paths::lemma_components_joined(cache_dir, name, platform);
    assert(file_name(record_path(cache_dir, key, platform), platform) == name);
    let dot = hex.len() as int;
    assert(0 < dot < name.len() && name[dot] == '.');
    let chosen = last_dot(name);
    assert(chosen == dot) by {
        assert(name[dot] == '.' && forall|j: int| dot < j < name.len() ==> name[j] != '.');
    }
    assert(name.skip(dot + 1) =~= "json"@);
    assert(lowered("json"@) =~= "json"@);
}

/// A record to be written to the cache directory.
#[derive(Clone, Debug, PartialEq, Eq)]
pub struct CacheEntry {
    /// The path of the record's file: one for each identity, so that
    /// storing the same identity again overwrites it.
    pub file: String,
    /// The full record, fingerprints included.
    pub record: PythonEnvironment,
}

/// A cache entry as the contracts see it.
pub struct CacheEntryView {
    pub file: Seq<char>,
    pub record: PythonEnvironmentView,
}

impl View for CacheEntry {
    type V = CacheEntryView;

    open spec fn view(&self) -> CacheEntryView {
        CacheEntryView { file: self.file@, record: self.record@ }
    }
}

/// The view of an optional entry.
pub open spec fn opt_entry(entry: Option<CacheEntry>) -> Option<CacheEntryView> {
    match entry {
        Some(entry) => Some(entry@),
        None => None,
    }
}

/// A file found in the cache directory.
#[derive(Clone, Debug, PartialEq, Eq)]
pub struct CacheFile {
    pub path: String,
    /// What the file holds; `None` where it could not be read or parsed.
    pub record: Option<PythonEnvironment>,
}

/// A file of the cache directory as the contracts see it.
pub struct CacheFileView {
    pub path: Seq<char>,
    pub record: Option<PythonEnvironmentView>,
}

impl View for CacheFile {
    type V = CacheFileView;

    open spec fn view(&self) -> CacheFileView {
        CacheFileView { path: self.path@, record: opt_environment_view(self.record) }
    }
}

/// What a list of files holds.
pub open spec fn cache_files(list: Seq<CacheFile>) -> Seq<CacheFileView> {
    Seq::new(list.len(), |i: int| list[i]@)
}

/// The records among the files of the directory: those of the files that
/// are taken for records and could be read, in the order of the files.
pub open spec fn records_among(files: Seq<CacheFileView>, platform: Platform) -> Seq<
    PythonEnvironmentView,
>
    decreases files.len(),
{
    if files.len() == 0 {
        Seq::<PythonEnvironmentView>::empty()
    } else {
        let before = records_among(files.drop_last(), platform);
        let file = files.last();
        if is_cache_file(file.path, platform) && file.record is Some {
            before.push(file.record->0)
        } else {
            before
        }
    }
}

/// The state of a cache: the mirror, and whether the directory may hold
/// what the mirror does not.
pub struct CacheView {
    pub dirty: bool,
    pub environments: Seq<PythonEnvironmentView>,
    pub cache_dir: Seq<char>,
    /// The platform by whose rules the paths of the directory are read.
    pub platform: Platform,
}

/// A cache once an environment was stored in it, and what is to be
/// written: nothing where the environment has no identity.
pub open spec fn stored(
    cache: CacheView,
    env: PythonEnvironmentView,
    live: Seq<Option<MTimeCTime>>,
) -> (CacheView, Option<CacheEntryView>) {
    (
        CacheView { environments: cache.environments.push(env), ..cache },
        match identity_key(env) {
            Some(key) => Some(
                CacheEntryView {
                    file: record_path(cache.cache_dir, key, cache.platform),
                    record: with_fingerprints(env, live),
                },
            ),
            None => None,
        },
    )
}

/// A cache once it was asked for all environments, and what it answered:
/// the mirror while that is current, else the records of the directory,
/// which then become the mirror.
pub open spec fn read_all(cache: CacheView, files: Seq<CacheFileView>) -> (
    CacheView,
    Seq<PythonEnvironmentView>,
) {
    if cache.dirty {
        (
            CacheView { dirty: false, environments: records_among(files, cache.platform), ..cache },
            records_among(files, cache.platform),
        )
    } else {
        (cache, cache.environments)
    }
}

/// A cache once an entry given by `store` was written to its directory.
pub open spec fn written(cache: CacheView) -> CacheView {
    CacheView { dirty: true, ..cache }
}

/// Two environments of one identity are filed under one name, so that
/// storing the second overwrites the first.
pub proof fn lemma_same_identity_same_file(
    cache: CacheView,
    first: PythonEnvironmentView,
    second: PythonEnvironmentView,
    live_first: Seq<Option<MTimeCTime>>,
    live_second: Seq<Option<MTimeCTime>>,
)
    requires
        identity_key(first) is Some,
        identity_key(first) == identity_key(second),
    ensures
        ({
            let (after, one) = stored(cache, first, live_first);
            let (_, other) = stored(after, second, live_second);
            one is Some && other is Some && one->0.file == other->0.file
        }),
{
}

/// Every record of a file that is taken for one is among the records read.
pub proof fn lemma_records_among(files: Seq<CacheFileView>, at: int, platform: Platform)
    requires
        0 <= at < files.len(),
        is_cache_file(files[at].path, platform),
        files[at].record is Some,
    ensures
        records_among(files, platform).contains(files[at].record->0),
    decreases files.len(),
{
    let all = records_among(files, platform);
    if at == files.len() - 1 {
        assert(all[all.len() - 1] == files[at].record->0);
    } else {
        let init = files.drop_last();
        lemma_records_among(init, at, platform);
        let before = records_among(init, platform);
        let k = choose|k: int| 0 <= k < before.len() && before[k] == init[at].record->0;
        assert(all[k] == before[k]);
    }
}

/// Whether the directory holds the entry as it was written: a file of the
/// entry's path that gives the entry's record back.
pub open spec fn holds_entry(files: Seq<CacheFileView>, entry: CacheEntryView) -> bool {
    exists|at: int|
        0 <= at < files.len() && (#[trigger] files[at]).path == entry.file && files[at].record
            == Some(entry.record)
}

/// Storing an environment and then reading all environments, with no other
/// store between the two, gives a list that holds the environment.
///
/// Where the environment has an identity, its record was written, and the
/// directory holds what was written, the list holds the record: the
/// environment with its fingerprints brought up to date. Where nothing was
/// written and the mirror was current, the list holds the environment as it
/// was stored.
pub proof fn lemma_store_then_read(
    cache: CacheView,
    env: PythonEnvironmentView,
    live: Seq<Option<MTimeCTime>>,
    files: Seq<CacheFileView>,
)
    ensures
        ({
            let (kept, entry) = stored(cache, env, live);
            &&& entry is Some <==> identity_key(env) is Some
            &&& entry matches Some(e) ==> e.record == with_fingerprints(env, live)
            &&& (entry is Some && holds_entry(files, entry->0)) ==> read_all(
                written(kept),
                files,
            ).1.contains(entry->0.record)
            &&& !cache.dirty ==> read_all(kept, files).1.contains(env)
        }),
{
    let (kept, entry) = stored(cache, env, live);
    if entry is Some && holds_entry(files, entry->0) {
        let e = entry->0;
        let at = choose|at: int|
            0 <= at < files.len() && (#[trigger] files[at]).path == e.file && files[at].record
                == Some(e.record);
        lemma_record_is_cache_file(cache.cache_dir, identity_key(env)->0, cache.platform);
        lemma_records_among(files, at, cache.platform);
    }
    if !cache.dirty {
        assert(kept.environments[kept.environments.len() - 1] == env);
    }
}

/// The cache of one directory.
pub struct Cache {
    cache_is_dirty: bool,
    environments: Vec<PythonEnvironment>,
    cache_dir: String,
    platform: Platform,
}

impl View for Cache {
    type V = CacheView;

    closed spec fn view(&self) -> CacheView {
        CacheView {
            dirty: self.cache_is_dirty,
            environments: environments(self.environments@),
            cache_dir: self.cache_dir@,
            platform: self.platform,
        }
    }
}

fn refresh_fingerprints(symlinks: &Vec<String>, live: &Vec<Option<MTimeCTime>>) -> (out: Vec<
    Fingerprint,
>)
    ensures
        fingerprints(out@) == refreshed(strings(symlinks@), live@),
{
    let ghost shown = strings(symlinks@);
    let mut out: Vec<Fingerprint> = Vec::new();
    let mut i: usize = 0;
    assert(shown.take(0) =~= Seq::<Seq<char>>::empty());
    assert(fingerprints(out@) =~= Seq::<FingerprintView>::empty());
    while i < symlinks.len()
        invariant
            shown == strings(symlinks@),
            i <= symlinks@.len(),
            fingerprints(out@) == refreshed(shown.take(i as int), live@),
        decreases symlinks@.len() - i,
    {
        assert(shown.take(i + 1).drop_last() =~= shown.take(i as int));
        assert(shown.take(i + 1).last() == symlinks@[i as int]@);
        let ghost before = fingerprints(out@);
        proof {
            lemma_refreshed_distinct(shown.take(i as int), live@);
        }
        if i < live.len() {
            match live[i] {
                Some(times) => {
                    let entry = Fingerprint { path: symlinks[i].clone(), times };
                    let mut at: usize = 0;
                    while at < out.len() && !same_str(
                        out[at].path.as_str(),
                        entry.path.as_str(),
                    )
                        invariant
                            at <= out@.len(),
                            before == fingerprints(out@),
                            forall|j: int|
                                0 <= j < at ==> (#[trigger] before[j]).path != entry@.path,
                        decreases out@.len() - at,
                    {
                        at += 1;
                    }
                    if at < out.len() {
                        assert(before[at as int].path == entry@.path);
                        assert(position_of(before, entry@.path) == at) by {
                            let chosen = position_of(before, entry@.path);
                            if chosen < at {
                                assert(before[chosen].path != before[at as int].path);
                            } else if chosen > at {
                                assert(before[at as int].path != before[chosen].path);
                            }
                        }
                        out.set(at, entry);
                        assert(fingerprints(out@) =~= before.update(at as int, entry@));
                    } else {
                        assert(!has_path(before, entry@.path));
                        out.push(entry);
                        assert(fingerprints(out@) =~= before.push(entry@));
                    }
                },
                None => {},
            }
        }
        i += 1;
    }
    assert(shown.take(symlinks@.len() as int) =~= shown);
    out
}

/// Whether the fingerprints of an environment are those it had, or new
/// ones that hold no path twice.
pub open spec fn times_kept_or_distinct(
    before: PythonEnvironmentView,
    after: PythonEnvironmentView,
) -> bool {
    after.times == before.times || (after.times matches Some(times) && distinct_paths(times))
}

/// Brings the fingerprints of an environment's symlinked executables up to
/// date. `live` holds what was read of each symlink, in their order. The
/// new fingerprints hold one entry for each path.
pub fn update_mtimes_ctimes(env: PythonEnvironment, live: &Vec<Option<MTimeCTime>>) -> (out:
    PythonEnvironment)
    ensures
        out@ == with_fingerprints(env@, live@),
        times_kept_or_distinct(env@, out@),
        has_distinct_fingerprints(env@) ==> has_distinct_fingerprints(out@),
{
    proof {
        if env@.symlinks is Some {
            lemma_refreshed_distinct(env@.symlinks->0, live@);
        }
    }
    let times = match &env.symlinks {
        Some(symlinks) => refresh_fingerprints(symlinks, live),
        None => {
            return env;
        },
    };
    if times.len() == 0 {
        return env;
    }
    PythonEnvironment {
        category: env.category,
        executable: env.executable,
        prefix: env.prefix,
        version: env.version,
        manager: env.manager,
        symlinks: env.symlinks,
        times: Some(times),
        project: env.project,
    }
}

impl Cache {
    /// The cache of the directory at `cache_dir`, whose paths are read by
    /// the rules of `platform`. Nothing has been read yet, so the first
    /// reading goes to the directory.
    pub fn new(cache_dir: String, platform: Platform) -> (cache: Cache)
        ensures
            cache@ == (CacheView {
                dirty: true,
                environments: Seq::<PythonEnvironmentView>::empty(),
                cache_dir: cache_dir@,
                platform,
            }),
    {
        let environments: Vec<PythonEnvironment> = Vec::new();
        assert(crate::environment::environments(environments@) =~= Seq::<
            PythonEnvironmentView,
        >::empty());
        Cache { cache_is_dirty: true, environments, cache_dir, platform }
    }

    /// The directory of the cache.
    pub fn cache_dir(&self) -> (dir: &String)
        ensures
            dir@ == self@.cache_dir,
    {
        &self.cache_dir
    }

    /// Whether the next reading goes to the directory.
    pub fn is_dirty(&self) -> (dirty: bool)
        ensures
            dirty == self@.dirty,
    {
        self.cache_is_dirty
    }

    /// Adds an environment to the mirror and says what is to be written to
    /// the directory: the record with its fingerprints brought up to date,
    /// under the name that its identity gives. An environment without
    /// identity stays in the mirror only. `live` holds what was read of
    /// each of the environment's symlinks, in their order.
    pub fn store(
        &mut self,
        environment: PythonEnvironment,
        live: &Vec<Option<MTimeCTime>>,
    ) -> (entry: Option<CacheEntry>)
        ensures
            (final(self)@, opt_entry(entry)) == stored(old(self)@, environment@, live@),
    {
        let ghost before = environments(self.environments@);
        self.environments.push(environment.duplicate());
        assert(environments(self.environments@) =~= before.push(environment@));
        match get_environment_key(&environment) {
            Some(key) => {
                let mut name = compute_hash(key.as_str());
                name.append(".json");
                let file = path_join(self.cache_dir.as_str(), name.as_str(), self.platform);
                let record = update_mtimes_ctimes(environment, live);
                Some(CacheEntry { file, record })
            },
            None => None,
        }
    }

    /// Notes that an entry given by `store` was written: the directory now
    /// holds what the mirror may not, so the next reading goes to it.
    pub fn mark_written(&mut self)
        ensures
            final(self)@ == (CacheView { dirty: true, ..old(self)@ }),
    {
        self.cache_is_dirty = true;
    }

    /// All environments of the cache. While the mirror is current it is
    /// the answer, and `files` is not looked at. Otherwise the answer is
    /// the records among `files`, which are the files found in the
    /// directory; they become the mirror, which is current from then on.
    pub fn get_all_environments(&mut self, files: &Vec<CacheFile>) -> (all: Vec<PythonEnvironment>)
        ensures
            (final(self)@, environments(all@)) == read_all(old(self)@, cache_files(files@)),
    {
        if !self.cache_is_dirty {
            return copy_environments(&self.environments);
        }
        let ghost shown = cache_files(files@);
        let mut found: Vec<PythonEnvironment> = Vec::new();
        let mut i: usize = 0;
        assert(shown.take(0) =~= Seq::<CacheFileView>::empty());
        assert(environments(found@) =~= Seq::<PythonEnvironmentView>::empty());
        while i < files.len()
            invariant
                shown == cache_files(files@),
                i <= files@.len(),
                environments(found@) == records_among(shown.take(i as int), self.platform),
            decreases files@.len() - i,
        {
            assert(shown.take(i + 1).drop_last() =~= shown.take(i as int));
            assert(shown.take(i + 1).last() == files@[i as int]@);
            let ghost before = environments(found@);
            if is_cache_file_name(files[i].path.as_str(), self.platform) {
                match &files[i].record {
                    Some(record) => {
                        found.push(record.duplicate());
                        assert(environments(found@) =~= before.push(record@));
                    },
                    None => {},
                }
            }
            i += 1;
        }
        assert(shown.take(files@.len() as int) =~= shown);
        self.environments = copy_environments(&found);
        self.cache_is_dirty = false;
        found
    }
}

} // verus!
