//! The plans that bring the stored audio libraries in line with the file
//! system: which libraries and files are new, which are gone, which are
//! kept, and what a removal or an analysis has to touch.

use vstd::prelude::*;

use crate::dto::{new_object_id, AudioFile, AudioLibrary, ObjectIdBytes};
use crate::path::{common_path, common_path_idempotent, is_platform_separator, main_separator, materialized, replace_separator};

verus! {

/// The texts of a sequence of strings.
pub open spec fn views(s: Seq<String>) -> Seq<Seq<char>> {
    s.map_values(|x: String| x@)
}

/// Whether index `i` holds the last occurrence of its key in `keys`.
pub open spec fn is_last_occurrence(keys: Seq<Seq<char>>, i: int) -> bool {
    &&& 0 <= i < keys.len()
    &&& forall|j: int| i < j < keys.len() ==> keys[j] != keys[i]
}

proof fn lemma_views_push(s: Seq<String>, x: String)
    ensures
        views(s.push(x)) == views(s).push(x@),
{
    assert(views(s.push(x)) =~= views(s).push(x@));
}

proof fn lemma_contains_push<A>(s: Seq<A>, x: A)
    ensures
        forall|k: A| #[trigger] s.push(x).contains(k) <==> (s.contains(k) || k == x),
{
    assert forall|k: A| #[trigger] s.push(x).contains(k) <==> (s.contains(k) || k == x) by {
        if s.push(x).contains(k) {
            let j = choose|j: int| 0 <= j < s.push(x).len() && s.push(x)[j] == k;
            if j < s.len() {
                assert(s[j] == k);
            }
        }
        if s.contains(k) {
            let j = choose|j: int| 0 <= j < s.len() && s[j] == k;
            assert(s.push(x)[j] == k);
        }
        if k == x {
            assert(s.push(x)[s.len() as int] == k);
        }
    }
}

/// Whether the text of `key` is among the texts of `keys`.
pub fn contains_key(keys: &Vec<String>, key: &String) -> (res: bool)
    ensures
        res == views(keys@).contains(key@),
{
    let mut i: usize = 0;
    while i < keys.len()
        invariant
            i <= keys@.len(),
            forall|j: int| 0 <= j < i ==> views(keys@)[j] != key@,
        decreases keys@.len() - i,
    {
        if keys[i] == *key {
            assert(views(keys@)[i as int] == key@);
            return true;
        }
        i = i + 1;
    }
    proof {
        if views(keys@).contains(key@) {
            let j = choose|j: int| 0 <= j < views(keys@).len() && views(keys@)[j] == key@;
            assert(views(keys@)[j] != key@);
        }
    }
    false
}

/// The result of comparing the stored keys with the local ones.
pub struct KeyDiff {
    /// Local keys that are not stored.
    pub added: Vec<String>,
    /// Stored keys that are not local.
    pub removed: Vec<String>,
    /// Keys that are both stored and local.
    pub kept: Vec<String>,
}

/// Whether `diff` compares `stored` with `local`: each part without
/// repeats, and the keys of each part exactly those it names.
pub open spec fn is_key_diff(stored: Seq<Seq<char>>, local: Seq<Seq<char>>, diff: KeyDiff) -> bool {
    &&& views(diff.added@).no_duplicates()
    &&& views(diff.removed@).no_duplicates()
    &&& views(diff.kept@).no_duplicates()
    &&& forall|k: Seq<char>| #[trigger] views(diff.added@).contains(k) <==> (local.contains(k) && !stored.contains(k))
    &&& forall|k: Seq<char>| #[trigger] views(diff.removed@).contains(k) <==> (stored.contains(k) && !local.contains(k))
    &&& forall|k: Seq<char>| #[trigger] views(diff.kept@).contains(k) <==> (stored.contains(k) && local.contains(k))
}

/// The keys of `from` that `other` holds (`keep_shared`) or does not hold
/// (`!keep_shared`), each once.
fn select_keys(from: &Vec<String>, other: &Vec<String>, keep_shared: bool) -> (res: Vec<String>)
    ensures
        views(res@).no_duplicates(),
        forall|k: Seq<char>| #[trigger] views(res@).contains(k) <==>
            (views(from@).contains(k) && views(other@).contains(k) == keep_shared),
{
    let mut res: Vec<String> = Vec::new();
    let mut i: usize = 0;
    while i < from.len()
        invariant
            i <= from@.len(),
            views(res@).no_duplicates(),
            forall|k: Seq<char>| #[trigger] views(res@).contains(k) <==>
                (views(from@.take(i as int)).contains(k) && views(other@).contains(k) == keep_shared),
        decreases from@.len() - i,
    {
        let key = &from[i];
        let in_other = contains_key(other, key);
        let seen = contains_key(&res, key);
        assert(views(from@.take(i + 1)) =~= views(from@.take(i as int)).push(key@));
        proof { lemma_contains_push(views(from@.take(i as int)), key@); }
        if in_other == keep_shared && !seen {
            proof {
                lemma_views_push(res@, *key);
                lemma_contains_push(views(res@), key@);
            }
            res.push(key.clone());
        }
        i = i + 1;
    }
    assert(from@.take(from@.len() as int) =~= from@);
    res
}

/// Compares the stored keys with the local ones.
pub fn key_diff(stored: &Vec<String>, local: &Vec<String>) -> (res: KeyDiff)
    ensures
        is_key_diff(views(stored@), views(local@), res),
{
    KeyDiff {
        added: select_keys(local, stored, false),
        removed: select_keys(stored, local, false),
        kept: select_keys(stored, local, true),
    }
}


/// Whether the key at index `j` occurs again after it.
fn occurs_after(keys: &Vec<String>, j: usize) -> (res: bool)
    requires
        j < keys@.len(),
    ensures
        res == !is_last_occurrence(views(keys@), j as int),
{
    let ghost kv = views(keys@);
    let n: usize = keys.len();
    let mut w: usize = j + 1;
    while w < n
        invariant
            n == keys@.len(),
            j < w <= keys@.len(),
            kv == views(keys@),
            forall|v: int| j < v < w ==> kv[v] != kv[j as int],
        decreases keys@.len() - w,
    {
        if keys[w] == keys[j] {
            assert(kv[w as int] == kv[j as int]);
            return true;
        }
        w = w + 1;
    }
    false
}

/// The indices of `keys` that hold the last occurrence of their key, in
/// increasing order.
pub fn last_occurrences(keys: &Vec<String>) -> (res: Vec<usize>)
    ensures
        forall|a: int, b: int| 0 <= a < b < res@.len() ==> res@[a] < res@[b],
        forall|idx: usize| #[trigger] res@.contains(idx) <==> is_last_occurrence(views(keys@), idx as int),
{
    let mut res: Vec<usize> = Vec::new();
    let mut j: usize = 0;
    while j < keys.len()
        invariant
            j <= keys@.len(),
            forall|a: int, b: int| 0 <= a < b < res@.len() ==> res@[a] < res@[b],
            forall|a: int| 0 <= a < res@.len() ==> res@[a] < j,
            forall|idx: usize| #[trigger] res@.contains(idx) <==>
                (idx < j && is_last_occurrence(views(keys@), idx as int)),
        decreases keys@.len() - j,
    {
        let again = occurs_after(keys, j);
        proof { lemma_contains_push(res@, j); }
        if !again {
            res.push(j);
        }
        j = j + 1;
    }
    res
}

/// The file names of a sequence of file records.
pub open spec fn filenames(files: Seq<AudioFile>) -> Seq<Seq<char>> {
    files.map_values(|f: AudioFile| f.filename@)
}

/// Whether index `i` of `stored` holds the last record of its file name,
/// and that name is among `local` exactly when `keep_local`.
pub open spec fn is_selected_record(stored: Seq<AudioFile>, local: Seq<Seq<char>>, keep_local: bool, i: int) -> bool {
    &&& is_last_occurrence(filenames(stored), i)
    &&& local.contains(stored[i].filename@) == keep_local
}

/// The file names of `files`, in order.
fn filename_list(files: &Vec<AudioFile>) -> (res: Vec<String>)
    ensures
        views(res@) == filenames(files@),
{
    let mut res: Vec<String> = Vec::new();
    let mut i: usize = 0;
    while i < files.len()
        invariant
            i <= files@.len(),
            views(res@) == filenames(files@.take(i as int)),
        decreases files@.len() - i,
    {
        let name = files[i].filename.clone();
        proof {
            lemma_views_push(res@, name);
            assert(filenames(files@.take(i + 1)) =~= filenames(files@.take(i as int)).push(name@));
        }
        res.push(name);
        i = i + 1;
    }
    assert(files@.take(files@.len() as int) =~= files@);
    res
}

/// The indices of `keys` that hold the last occurrence of their key and
/// whose key is among `filter` exactly when `keep`, in increasing order.
fn selected_indices(keys: &Vec<String>, filter: &Vec<String>, keep: bool) -> (res: Vec<usize>)
    ensures
        forall|a: int, b: int| 0 <= a < b < res@.len() ==> res@[a] < res@[b],
        forall|idx: usize| #[trigger] res@.contains(idx) <==>
            (is_last_occurrence(views(keys@), idx as int) && views(filter@).contains(views(keys@)[idx as int]) == keep),
{
    let last = last_occurrences(keys);
    let ghost kv = views(keys@);
    let ghost cond = |i: int| is_last_occurrence(kv, i) && views(filter@).contains(kv[i]) == keep;
    let mut res: Vec<usize> = Vec::new();
    let mut t: usize = 0;
    while t < last.len()
        invariant
            t <= last@.len(),
            kv == views(keys@),
            cond == (|i: int| is_last_occurrence(kv, i) && views(filter@).contains(kv[i]) == keep),
            forall|a: int, b: int| 0 <= a < b < last@.len() ==> last@[a] < last@[b],
            forall|idx: usize| #[trigger] last@.contains(idx) <==> is_last_occurrence(kv, idx as int),
            forall|a: int, b: int| 0 <= a < b < res@.len() ==> res@[a] < res@[b],
            forall|a: int| 0 <= a < res@.len() && t < last@.len() ==> res@[a] < last@[t as int],
            forall|idx: usize| #[trigger] res@.contains(idx) <==>
                (cond(idx as int) && last@.take(t as int).contains(idx)),
        decreases last@.len() - t,
    {
        let idx = last[t];
        assert(last@.contains(idx));
        let hit = contains_key(filter, &keys[idx]);
        proof {
            lemma_contains_push(res@, idx);
            assert(last@.take(t + 1) =~= last@.take(t as int).push(idx));
            lemma_contains_push(last@.take(t as int), idx);
            if t + 1 < last@.len() {
                assert(last@[t as int] < last@[t + 1]);
            }
        }
        if hit == keep {
            res.push(idx);
        }
        t = t + 1;
    }
    proof {
        assert(last@.take(t as int) =~= last@);
    }
    res
}

/// The records of `stored` at the indices `idxs`, in that order.
fn pick_files(stored: &Vec<AudioFile>, idxs: &Vec<usize>) -> (res: Vec<AudioFile>)
    requires
        forall|a: int| 0 <= a < idxs@.len() ==> idxs@[a] < stored@.len(),
    ensures
        res@.len() == idxs@.len(),
        forall|r: int| 0 <= r < res@.len() ==> res@[r] == stored@[idxs@[r] as int],
{
    let mut res: Vec<AudioFile> = Vec::new();
    let mut t: usize = 0;
    while t < idxs.len()
        invariant
            t <= idxs@.len(),
            forall|a: int| 0 <= a < idxs@.len() ==> idxs@[a] < stored@.len(),
            res@.len() == t,
            forall|r: int| 0 <= r < t ==> res@[r] == stored@[idxs@[r] as int],
        decreases idxs@.len() - t,
    {
        res.push(stored[idxs[t]].clone());
        t = t + 1;
    }
    res
}

/// The records of `stored` at the indices `idxs`, in that order.
fn pick_libraries(stored: &Vec<AudioLibrary>, idxs: &Vec<usize>) -> (res: Vec<AudioLibrary>)
    requires
        forall|a: int| 0 <= a < idxs@.len() ==> idxs@[a] < stored@.len(),
    ensures
        res@.len() == idxs@.len(),
        forall|r: int| 0 <= r < res@.len() ==> res@[r] == stored@[idxs@[r] as int],
{
    let mut res: Vec<AudioLibrary> = Vec::new();
    let mut t: usize = 0;
    while t < idxs.len()
        invariant
            t <= idxs@.len(),
            forall|a: int| 0 <= a < idxs@.len() ==> idxs@[a] < stored@.len(),
            res@.len() == t,
            forall|r: int| 0 <= r < t ==> res@[r] == stored@[idxs@[r] as int],
        decreases idxs@.len() - t,
    {
        res.push(stored[idxs[t]].clone());
        t = t + 1;
    }
    res
}

/// What picking the records at increasing, selected last-occurrence
/// indices gives: exactly the selected records, no key twice.
proof fn lemma_picked<T>(stored: Seq<T>, keys: Seq<Seq<char>>, idxs: Seq<usize>, res: Seq<T>, sel: spec_fn(int) -> bool)
    requires
        res.len() == idxs.len(),
        forall|r: int| 0 <= r < res.len() ==> res[r] == stored[idxs[r] as int],
        forall|a: int, b: int| 0 <= a < b < idxs.len() ==> idxs[a] < idxs[b],
        forall|idx: usize| #[trigger] idxs.contains(idx) <==> sel(idx as int),
        forall|i: int| #[trigger] sel(i) ==> is_last_occurrence(keys, i) && i <= usize::MAX,
    ensures
        forall|f: T| #[trigger] res.contains(f) <==> (exists|i: int| #[trigger] sel(i) && stored[i] == f),
        forall|r1: int, r2: int| 0 <= r1 < res.len() && 0 <= r2 < res.len() && r1 != r2 ==>
            keys[idxs[r1] as int] != keys[idxs[r2] as int],
{
    assert forall|r: int| 0 <= r < idxs.len() implies #[trigger] sel(idxs[r] as int) by {
        assert(idxs.contains(idxs[r]));
    }
    assert forall|f: T| #[trigger] res.contains(f) implies (exists|i: int| #[trigger] sel(i) && stored[i] == f) by {
        let r = choose|r: int| 0 <= r < res.len() && res[r] == f;
        assert(sel(idxs[r] as int));
    }
    assert forall|f: T| (exists|i: int| #[trigger] sel(i) && stored[i] == f) implies #[trigger] res.contains(f) by {
        let i = choose|i: int| #[trigger] sel(i) && stored[i] == f;
        let iu = i as usize;
        assert(sel(iu as int));
        assert(idxs.contains(iu));
        let r = choose|r: int| 0 <= r < idxs.len() && idxs[r] == iu;
        assert(res[r] == f);
    }
    assert forall|r1: int, r2: int| 0 <= r1 < res.len() && 0 <= r2 < res.len() && r1 != r2 implies
        keys[idxs[r1] as int] != keys[idxs[r2] as int] by {
        assert(sel(idxs[r1] as int) && sel(idxs[r2] as int));
        if r1 < r2 {
            assert(idxs[r1] < idxs[r2]);
        } else {
            assert(idxs[r2] < idxs[r1]);
        }
    }
}

/// What a refresh of one library does to its stored files, from the
/// stored records and the names of the audio files now in its directory.
pub struct FileRefreshPlan {
    /// Names of the files in the directory that no record names.
    pub new_filenames: Vec<String>,
    /// The last record of each stored name that is no longer in the
    /// directory.
    pub deleted_files: Vec<AudioFile>,
    /// The last record of each stored name that is still in the directory.
    pub managed_files: Vec<AudioFile>,
}

/// Whether `plan` is the refresh of the records `stored` against the file
/// names `local`.
pub open spec fn is_file_refresh_plan(stored: Seq<AudioFile>, local: Seq<Seq<char>>, plan: FileRefreshPlan) -> bool {
    &&& views(plan.new_filenames@).no_duplicates()
    &&& forall|k: Seq<char>| #[trigger] views(plan.new_filenames@).contains(k) <==>
        (local.contains(k) && !filenames(stored).contains(k))
    &&& filenames(plan.deleted_files@).no_duplicates()
    &&& forall|f: AudioFile| #[trigger] plan.deleted_files@.contains(f) <==>
        (exists|i: int| #[trigger] is_selected_record(stored, local, false, i) && stored[i] == f)
    &&& filenames(plan.managed_files@).no_duplicates()
    &&& forall|f: AudioFile| #[trigger] plan.managed_files@.contains(f) <==>
        (exists|i: int| #[trigger] is_selected_record(stored, local, true, i) && stored[i] == f)
}

/// The records of `stored` at the selected last-occurrence indices of their
/// file names, with no file name twice.
fn pick_selected_files(stored: &Vec<AudioFile>, names: &Vec<String>, local: &Vec<String>, keep_local: bool) -> (res: Vec<AudioFile>)
    requires
        views(names@) == filenames(stored@),
    ensures
        filenames(res@).no_duplicates(),
        forall|f: AudioFile| #[trigger] res@.contains(f) <==>
            (exists|i: int| #[trigger] is_selected_record(stored@, views(local@), keep_local, i) && stored@[i] == f),
{
    let idxs = selected_indices(names, local, keep_local);
    proof {
        assert forall|a: int| 0 <= a < idxs@.len() implies idxs@[a] < stored@.len() by {
            assert(idxs@.contains(idxs@[a]));
        }
    }
    let res = pick_files(stored, &idxs);
    let n: usize = stored.len();
    proof {
        let sel = |i: int| is_selected_record(stored@, views(local@), keep_local, i);
        assert forall|i: int| #[trigger] sel(i) implies is_last_occurrence(filenames(stored@), i) && i <= usize::MAX by {
            assert(is_selected_record(stored@, views(local@), keep_local, i));
            assert(is_last_occurrence(filenames(stored@), i));
            assert(i < stored@.len());
            assert(stored@.len() == n);
        }
        assert forall|idx: usize| #[trigger] idxs@.contains(idx) <==> sel(idx as int) by {
            if 0 <= idx < stored@.len() {
                assert(views(names@)[idx as int] == stored@[idx as int].filename@);
            }
        }
        lemma_picked(stored@, filenames(stored@), idxs@, res@, sel);
        assert forall|f: AudioFile| #[trigger] res@.contains(f) <==>
            (exists|i: int| #[trigger] is_selected_record(stored@, views(local@), keep_local, i) && stored@[i] == f) by {
            if res@.contains(f) {
                let i = choose|i: int| #[trigger] sel(i) && stored@[i] == f;
                assert(is_selected_record(stored@, views(local@), keep_local, i));
            }
            if exists|i: int| #[trigger] is_selected_record(stored@, views(local@), keep_local, i) && stored@[i] == f {
                let i = choose|i: int| #[trigger] is_selected_record(stored@, views(local@), keep_local, i) && stored@[i] == f;
                assert(sel(i));
            }
        }
        assert forall|r1: int, r2: int| 0 <= r1 < filenames(res@).len() && 0 <= r2 < filenames(res@).len() && r1 != r2
            implies filenames(res@)[r1] != filenames(res@)[r2] by {
            assert(filenames(res@)[r1] == filenames(stored@)[idxs@[r1] as int]);
            assert(filenames(res@)[r2] == filenames(stored@)[idxs@[r2] as int]);
        }
    }
    res
}

/// Compares the stored records of a library's files with the names of the
/// audio files now in its directory: the names to add, and the last record
/// of each stored name to delete or to keep.
pub fn plan_file_refresh(stored: &Vec<AudioFile>, local_filenames: &Vec<String>) -> (res: FileRefreshPlan)
    ensures
        is_file_refresh_plan(stored@, views(local_filenames@), res),
{
    let names = filename_list(stored);
    let new_filenames = select_keys(local_filenames, &names, false);
    let deleted_files = pick_selected_files(stored, &names, local_filenames, false);
    let managed_files = pick_selected_files(stored, &names, local_filenames, true);
    FileRefreshPlan { new_filenames, deleted_files, managed_files }
}

/// The managed files whose modification time on disk, `timestamps` at the
/// same index, differs from the stored one, each with that time recorded.
pub open spec fn refreshed_files(files: Seq<AudioFile>, timestamps: Seq<i64>) -> Seq<AudioFile>
    decreases files.len(),
{
    if files.len() == 0 {
        Seq::empty()
    } else {
        let n = files.len() - 1;
        let prev = refreshed_files(files.take(n), timestamps);
        if timestamps[n] != files[n].modified_timestamp {
            prev.push(AudioFile { modified_timestamp: timestamps[n], ..files[n] })
        } else {
            prev
        }
    }
}

/// The records of the managed files that changed on disk, brought up to
/// date: `local_timestamps[i]` is the modification time of the file of
/// `managed[i]`.
pub fn plan_file_updates(managed: &Vec<AudioFile>, local_timestamps: &Vec<i64>) -> (res: Vec<AudioFile>)
    requires
        managed@.len() == local_timestamps@.len(),
    ensures
        res@ == refreshed_files(managed@, local_timestamps@),
{
    let mut res: Vec<AudioFile> = Vec::new();
    let mut i: usize = 0;
    while i < managed.len()
        invariant
            i <= managed@.len(),
            managed@.len() == local_timestamps@.len(),
            res@ == refreshed_files(managed@.take(i as int), local_timestamps@),
        decreases managed@.len() - i,
    {
        let ts = local_timestamps[i];
        assert(managed@.take(i + 1).take(i as int) =~= managed@.take(i as int));
        if managed[i].check_modified(ts) {
            let mut file = managed[i].clone();
            file.update_modified_timestamp(ts);
            res.push(file);
        }
        i = i + 1;
    }
    assert(managed@.take(managed@.len() as int) =~= managed@);
    res
}

/// The stored paths of a sequence of library records.
pub open spec fn os_paths(libs: Seq<AudioLibrary>) -> Seq<Seq<char>> {
    libs.map_values(|l: AudioLibrary| l.os_path@)
}

/// The paths with the separator `sep` written as `/`.
pub open spec fn common_paths(paths: Seq<Seq<char>>, sep: char) -> Seq<Seq<char>> {
    paths.map_values(|p: Seq<char>| common_path(p, sep))
}

/// Whether index `i` of `stored` holds the last record of its stored path,
/// and that path is the common form of a stored path and of a local one.
pub open spec fn is_managed_library(stored: Seq<AudioLibrary>, local: Seq<Seq<char>>, sep: char, i: int) -> bool {
    &&& is_last_occurrence(os_paths(stored), i)
    &&& common_paths(os_paths(stored), sep).contains(stored[i].os_path@)
    &&& common_paths(local, sep).contains(stored[i].os_path@)
}

/// What a refresh does to the libraries stored under one library root,
/// from their records and the directories that now hold audio files.
pub struct LibraryRefreshPlan {
    /// Local directories, in the common form, that no record names.
    pub new_paths: Vec<String>,
    /// Stored paths, in the common form, with no local directory.
    pub deleted_paths: Vec<String>,
    /// The records of the libraries that are both stored and local.
    pub managed_libraries: Vec<AudioLibrary>,
}

/// Whether `plan` is the refresh of the records `stored` against the local
/// directories `local`, whose separator is `sep`.
pub open spec fn is_library_refresh_plan(
    stored: Seq<AudioLibrary>,
    local: Seq<Seq<char>>,
    sep: char,
    plan: LibraryRefreshPlan,
) -> bool {
    let stored_keys = common_paths(os_paths(stored), sep);
    let local_keys = common_paths(local, sep);
    &&& views(plan.new_paths@).no_duplicates()
    &&& forall|k: Seq<char>| #[trigger] views(plan.new_paths@).contains(k) <==>
        (local_keys.contains(k) && !stored_keys.contains(k))
    &&& views(plan.deleted_paths@).no_duplicates()
    &&& forall|k: Seq<char>| #[trigger] views(plan.deleted_paths@).contains(k) <==>
        (stored_keys.contains(k) && !local_keys.contains(k))
    &&& os_paths(plan.managed_libraries@).no_duplicates()
    &&& forall|l: AudioLibrary| #[trigger] plan.managed_libraries@.contains(l) <==>
        (exists|i: int| #[trigger] is_managed_library(stored, local, sep, i) && stored[i] == l)
}

/// The stored paths of `libs`, in order.
fn os_path_list(libs: &Vec<AudioLibrary>) -> (res: Vec<String>)
    ensures
        views(res@) == os_paths(libs@),
{
    let mut res: Vec<String> = Vec::new();
    let mut i: usize = 0;
    while i < libs.len()
        invariant
            i <= libs@.len(),
            views(res@) == os_paths(libs@.take(i as int)),
        decreases libs@.len() - i,
    {
        let p = libs[i].os_path.clone();
        proof {
            lemma_views_push(res@, p);
            assert(os_paths(libs@.take(i + 1)) =~= os_paths(libs@.take(i as int)).push(p@));
        }
        res.push(p);
        i = i + 1;
    }
    assert(libs@.take(libs@.len() as int) =~= libs@);
    res
}

/// The paths with the separator `separator` written as `/`, in order.
fn common_path_list(paths: &Vec<String>, separator: char) -> (res: Vec<String>)
    ensures
        views(res@) == common_paths(views(paths@), separator),
{
    let mut res: Vec<String> = Vec::new();
    let mut i: usize = 0;
    while i < paths.len()
        invariant
            i <= paths@.len(),
            views(res@) == common_paths(views(paths@.take(i as int)), separator),
        decreases paths@.len() - i,
    {
        let p = replace_separator(paths[i].as_str(), separator);
        proof {
            lemma_views_push(res@, p);
            lemma_views_push(paths@.take(i as int), paths@[i as int]);
            assert(paths@.take(i + 1) =~= paths@.take(i as int).push(paths@[i as int]));
            assert(common_paths(views(paths@.take(i as int)).push(paths@[i as int]@), separator)
                =~= common_paths(views(paths@.take(i as int)), separator).push(p@));
        }
        res.push(p);
        i = i + 1;
    }
    assert(paths@.take(paths@.len() as int) =~= paths@);
    res
}

/// Compares the libraries stored under a library root with the local
/// directories that hold audio files, both written with the separator
/// `separator`: the paths to add, the paths to delete, and the records of
/// the libraries to keep.
pub fn plan_library_refresh_with(stored: &Vec<AudioLibrary>, local_paths: &Vec<String>, separator: char) -> (res: LibraryRefreshPlan)
    ensures
        is_library_refresh_plan(stored@, views(local_paths@), separator, res),
{
    let raw = os_path_list(stored);
    let stored_keys = common_path_list(&raw, separator);
    let local_keys = common_path_list(local_paths, separator);
    let diff = key_diff(&stored_keys, &local_keys);
    let idxs = selected_indices(&raw, &diff.kept, true);
    proof {
        assert forall|a: int| 0 <= a < idxs@.len() implies idxs@[a] < stored@.len() by {
            assert(idxs@.contains(idxs@[a]));
        }
    }
    let managed = pick_libraries(stored, &idxs);
    let n: usize = stored.len();
    proof {
        let local = views(local_paths@);
        let sel = |i: int| is_managed_library(stored@, local, separator, i);
        assert forall|i: int| #[trigger] sel(i) implies is_last_occurrence(os_paths(stored@), i) && i <= usize::MAX by {
            assert(is_managed_library(stored@, local, separator, i));
            assert(stored@.len() == n);
        }
        assert forall|idx: usize| #[trigger] idxs@.contains(idx) <==> sel(idx as int) by {
            if 0 <= idx < stored@.len() {
                assert(views(raw@)[idx as int] == stored@[idx as int].os_path@);
            }
        }
        lemma_picked(stored@, os_paths(stored@), idxs@, managed@, sel);
        assert forall|l: AudioLibrary| #[trigger] managed@.contains(l) <==>
            (exists|i: int| #[trigger] is_managed_library(stored@, local, separator, i) && stored@[i] == l) by {
            if managed@.contains(l) {
                let i = choose|i: int| #[trigger] sel(i) && stored@[i] == l;
                assert(is_managed_library(stored@, local, separator, i));
            }
            if exists|i: int| #[trigger] is_managed_library(stored@, local, separator, i) && stored@[i] == l {
                let i = choose|i: int| #[trigger] is_managed_library(stored@, local, separator, i) && stored@[i] == l;
                assert(sel(i));
            }
        }
        assert forall|r1: int, r2: int| 0 <= r1 < os_paths(managed@).len() && 0 <= r2 < os_paths(managed@).len() && r1 != r2
            implies os_paths(managed@)[r1] != os_paths(managed@)[r2] by {
            assert(os_paths(managed@)[r1] == os_paths(stored@)[idxs@[r1] as int]);
            assert(os_paths(managed@)[r2] == os_paths(stored@)[idxs@[r2] as int]);
        }
    }
    LibraryRefreshPlan { new_paths: diff.added, deleted_paths: diff.removed, managed_libraries: managed }
}

/// Compares the libraries stored under a library root with the local
/// directories that hold audio files, written with the platform's
/// separator.
pub fn plan_library_refresh(stored: &Vec<AudioLibrary>, local_paths: &Vec<String>) -> (res: LibraryRefreshPlan)
    ensures
        exists|sep: char| is_platform_separator(sep) && is_library_refresh_plan(stored@, views(local_paths@), sep, res),
{
    let sep = main_separator();
    let res = plan_library_refresh_with(stored, local_paths, sep);
    assert(is_platform_separator(sep) && is_library_refresh_plan(stored@, views(local_paths@), sep, res));
    res
}

/// The tags that the records point at, in order.
pub open spec fn tag_refs(files: Seq<AudioFile>) -> Seq<ObjectIdBytes>
    decreases files.len(),
{
    if files.len() == 0 {
        Seq::empty()
    } else {
        let n = files.len() - 1;
        let prev = tag_refs(files.take(n));
        match files[n].audio_tag_refer {
            Some(t) => prev.push(t),
            None => prev,
        }
    }
}

/// Whether every record has an id.
pub open spec fn all_have_ids(files: Seq<AudioFile>) -> bool {
    forall|i: int| 0 <= i < files.len() ==> (#[trigger] files[i]).id is Some
}

/// The ids of the records, in order.
pub open spec fn file_ids(files: Seq<AudioFile>) -> Seq<ObjectIdBytes> {
    files.map_values(|f: AudioFile| f.id.unwrap())
}

/// The records that no tag was made for yet, in order.
pub open spec fn untagged(files: Seq<AudioFile>) -> Seq<AudioFile>
    decreases files.len(),
{
    if files.len() == 0 {
        Seq::empty()
    } else {
        let n = files.len() - 1;
        let prev = untagged(files.take(n));
        if files[n].audio_tag_refer is None {
            prev.push(files[n])
        } else {
            prev
        }
    }
}

/// What removing a set of file records deletes: the records by their ids
/// and the tags they point at.
pub struct RemovalIds {
    pub file_ids: Vec<ObjectIdBytes>,
    pub tag_ids: Vec<ObjectIdBytes>,
}

/// The ids to delete when the records `files` are removed: each record's
/// own id, and the id of each tag a record points at.
pub fn removal_ids(files: &Vec<AudioFile>) -> (res: RemovalIds)
    requires
        all_have_ids(files@),
    ensures
        res.file_ids@ == file_ids(files@),
        res.tag_ids@ == tag_refs(files@),
        res.tag_ids@ == files@.filter_map(|f: AudioFile| f.audio_tag_refer),
        forall|i: int| 0 <= i < files@.len() && (#[trigger] files@[i]).audio_tag_refer is Some
            ==> res.tag_ids@.contains(files@[i].audio_tag_refer.unwrap()),
{
    let mut file_ids_acc: Vec<ObjectIdBytes> = Vec::new();
    let mut tag_ids_acc: Vec<ObjectIdBytes> = Vec::new();
    let mut i: usize = 0;
    while i < files.len()
        invariant
            i <= files@.len(),
            all_have_ids(files@),
            file_ids_acc@ == file_ids(files@.take(i as int)),
            tag_ids_acc@ == tag_refs(files@.take(i as int)),
        decreases files@.len() - i,
    {
        let f = &files[i];
        assert(files@.take(i + 1).take(i as int) =~= files@.take(i as int));
        assert(file_ids(files@.take(i + 1)) =~= file_ids(files@.take(i as int)).push(f.id.unwrap()));
        match f.id {
            Some(id) => file_ids_acc.push(id),
            None => {},
        }
        match f.audio_tag_refer {
            Some(t) => tag_ids_acc.push(t),
            None => {},
        }
        i = i + 1;
    }
    assert(files@.take(files@.len() as int) =~= files@);
    proof {
        removal_deletes_every_tag(files@);
    }
    RemovalIds { file_ids: file_ids_acc, tag_ids: tag_ids_acc }
}

/// The records of `files` that no tag was made for yet: those an analysis
/// makes tags for.
pub fn files_without_tag(files: &Vec<AudioFile>) -> (res: Vec<AudioFile>)
    ensures
        res@ == untagged(files@),
        forall|f: AudioFile| #[trigger] res@.contains(f) <==> (files@.contains(f) && f.audio_tag_refer is None),
{
    let mut res: Vec<AudioFile> = Vec::new();
    let mut i: usize = 0;
    while i < files.len()
        invariant
            i <= files@.len(),
            res@ == untagged(files@.take(i as int)),
        decreases files@.len() - i,
    {
        assert(files@.take(i + 1).take(i as int) =~= files@.take(i as int));
        if files[i].audio_tag_refer.is_none() {
            res.push(files[i].clone());
        }
        i = i + 1;
    }
    assert(files@.take(files@.len() as int) =~= files@);
    proof {
        untagged_are_the_files_without_tag(files@);
    }
    res
}

/// Analysis picks exactly the stored records that have no tag yet: a record
/// is picked if and only if it is stored and points at no tag, and the
/// picked records keep their order (they are those of `files` kept by the
/// filter "points at no tag").
pub proof fn untagged_are_the_files_without_tag(files: Seq<AudioFile>)
    ensures
        untagged(files) == files.filter(|f: AudioFile| f.audio_tag_refer is None),
        forall|f: AudioFile| #[trigger] untagged(files).contains(f)
            <==> (files.contains(f) && f.audio_tag_refer is None),
    decreases files.len(),
{
    let p = |f: AudioFile| f.audio_tag_refer is None;
    reveal(Seq::filter);
    if files.len() > 0 {
        untagged_are_the_files_without_tag(files.take(files.len() - 1));
        assert(files.take(files.len() - 1) =~= files.drop_last());
    }
    if files.len() > 0 {
        let n = files.len() - 1;
        assert(files.take(n) =~= files.drop_last());
        assert(files.last() == files[n]);
        assert(untagged(files.take(n)) == files.drop_last().filter(p));
        if files[n].audio_tag_refer is None {
            assert(untagged(files) == untagged(files.take(n)).push(files[n]));
            assert(files.filter(p) == files.drop_last().filter(p).push(files.last()));
        } else {
            assert(files.filter(p) == files.drop_last().filter(p));
        }
    }
    assert(untagged(files) == files.filter(p));
    assert forall|f: AudioFile| #[trigger] untagged(files).contains(f)
        implies (files.contains(f) && f.audio_tag_refer is None) by {
        files.lemma_filter_contains_rev(p, f);
        let j = choose|j: int| 0 <= j < files.filter(p).len() && files.filter(p)[j] == f;
        files.lemma_filter_pred(p, j);
    }
    assert forall|f: AudioFile| files.contains(f) && f.audio_tag_refer is None
        implies #[trigger] untagged(files).contains(f) by {
        let i = choose|i: int| 0 <= i < files.len() && files[i] == f;
        files.lemma_filter_contains(p, i);
    }
}

/// Removing records deletes every tag they point at, and only those: the
/// tag ids are the tags the records point at, taken in order from each
/// record that points at one (std's `filter_map` over the records' tag
/// references), so there is one for each record with a tag.
pub proof fn removal_deletes_every_tag(files: Seq<AudioFile>)
    ensures
        tag_refs(files) == files.filter_map(|f: AudioFile| f.audio_tag_refer),
        tag_refs(files).len() == files.filter(|f: AudioFile| f.audio_tag_refer is Some).len(),
        forall|i: int| 0 <= i < files.len() && (#[trigger] files[i]).audio_tag_refer is Some
            ==> tag_refs(files).contains(files[i].audio_tag_refer.unwrap()),
        forall|t: ObjectIdBytes| #[trigger] tag_refs(files).contains(t)
            ==> exists|i: int| 0 <= i < files.len() && (#[trigger] files[i]).audio_tag_refer == Some(t),
    decreases files.len(),
{
    let m = |f: AudioFile| f.audio_tag_refer;
    let p = |f: AudioFile| f.audio_tag_refer is Some;
    reveal(Seq::filter);
    if files.len() > 0 {
        let n = files.len() - 1;
        let d = files.take(n);
        removal_deletes_every_tag(d);
        assert(d =~= files.drop_last());
        assert(tag_refs(files) == files.filter_map(m)) by {
            match files[n].audio_tag_refer {
                Some(t) => {
                    assert(d.filter_map(m).push(t) =~= d.filter_map(m) + seq![t]);
                },
                None => {},
            }
        }
        assert forall|i: int| 0 <= i < files.len() && (#[trigger] files[i]).audio_tag_refer is Some
            implies tag_refs(files).contains(files[i].audio_tag_refer.unwrap()) by {
            if i < n {
                assert(d[i] == files[i]);
                let t = files[i].audio_tag_refer.unwrap();
                let j = choose|j: int| 0 <= j < tag_refs(d).len() && tag_refs(d)[j] == t;
                assert(tag_refs(files)[j] == t);
            } else {
                assert(tag_refs(files)[tag_refs(files).len() - 1] == files[n].audio_tag_refer.unwrap());
            }
        }
        assert forall|t: ObjectIdBytes| #[trigger] tag_refs(files).contains(t)
            implies exists|i: int| 0 <= i < files.len() && (#[trigger] files[i]).audio_tag_refer == Some(t) by {
            let j = choose|j: int| 0 <= j < tag_refs(files).len() && tag_refs(files)[j] == t;
            if j < tag_refs(d).len() {
                assert(tag_refs(d).contains(t));
                let i = choose|i: int| 0 <= i < d.len() && (#[trigger] d[i]).audio_tag_refer == Some(t);
                assert(files[i] == d[i]);
            } else {
                assert(files[n].audio_tag_refer == Some(t));
            }
        }
    } else {
        assert(files.filter(p).len() == 0);
    }
}

proof fn lemma_last_occurrence_exists(keys: Seq<Seq<char>>, k: Seq<char>)
    requires
        keys.contains(k),
    ensures
        exists|i: int| #[trigger] is_last_occurrence(keys, i) && keys[i] == k,
    decreases keys.len(),
{
    let n = keys.len() - 1;
    if keys[n] == k {
        assert(is_last_occurrence(keys, n));
    } else {
        let j = choose|j: int| 0 <= j < keys.len() && keys[j] == k;
        let d = keys.drop_last();
        assert(d[j] == k);
        lemma_last_occurrence_exists(d, k);
        let i = choose|i: int| #[trigger] is_last_occurrence(d, i) && d[i] == k;
        assert forall|w: int| i < w < keys.len() implies keys[w] != keys[i] by {
            if w < n {
                assert(d[w] != d[i]);
            }
        }
        assert(is_last_occurrence(keys, i));
    }
}

proof fn lemma_filenames_contains(files: Seq<AudioFile>, k: Seq<char>)
    ensures
        filenames(files).contains(k) <==> (exists|f: AudioFile| #[trigger] files.contains(f) && f.filename@ == k),
{
    if filenames(files).contains(k) {
        let i = choose|i: int| 0 <= i < filenames(files).len() && filenames(files)[i] == k;
        assert(files.contains(files[i]));
    }
    if exists|f: AudioFile| #[trigger] files.contains(f) && f.filename@ == k {
        let f = choose|f: AudioFile| #[trigger] files.contains(f) && f.filename@ == k;
        let i = choose|i: int| 0 <= i < files.len() && files[i] == f;
        assert(filenames(files)[i] == k);
    }
}

/// A file refresh accounts for every name once: each stored name is
/// deleted or kept, each local name is new or kept, and no name is both
/// new and stored, or both deleted and local.
pub proof fn file_plan_partitions(stored: Seq<AudioFile>, local: Seq<Seq<char>>, plan: FileRefreshPlan)
    requires
        is_file_refresh_plan(stored, local, plan),
    ensures
        forall|k: Seq<char>| #[trigger] filenames(stored).contains(k) <==>
            (filenames(plan.deleted_files@).contains(k) || filenames(plan.managed_files@).contains(k)),
        forall|k: Seq<char>| #[trigger] local.contains(k) <==>
            (views(plan.new_filenames@).contains(k) || filenames(plan.managed_files@).contains(k)),
        forall|k: Seq<char>| #[trigger] filenames(plan.deleted_files@).contains(k) ==> !local.contains(k),
        forall|k: Seq<char>| #[trigger] filenames(plan.managed_files@).contains(k) ==> local.contains(k),
        forall|k: Seq<char>| #[trigger] views(plan.new_filenames@).contains(k) ==> !filenames(stored).contains(k),
{
    let keys = filenames(stored);
    assert forall|k: Seq<char>| #[trigger] filenames(plan.deleted_files@).contains(k) <==>
        (keys.contains(k) && !local.contains(k)) by {
        lemma_filenames_contains(plan.deleted_files@, k);
        if filenames(plan.deleted_files@).contains(k) {
            let f = choose|f: AudioFile| #[trigger] plan.deleted_files@.contains(f) && f.filename@ == k;
            let i = choose|i: int| #[trigger] is_selected_record(stored, local, false, i) && stored[i] == f;
            assert(keys[i] == k);
        }
        if keys.contains(k) && !local.contains(k) {
            lemma_last_occurrence_exists(keys, k);
            let i = choose|i: int| #[trigger] is_last_occurrence(keys, i) && keys[i] == k;
            assert(is_selected_record(stored, local, false, i));
            assert(plan.deleted_files@.contains(stored[i]));
        }
    }
    assert forall|k: Seq<char>| #[trigger] filenames(plan.managed_files@).contains(k) <==>
        (keys.contains(k) && local.contains(k)) by {
        lemma_filenames_contains(plan.managed_files@, k);
        if filenames(plan.managed_files@).contains(k) {
            let f = choose|f: AudioFile| #[trigger] plan.managed_files@.contains(f) && f.filename@ == k;
            let i = choose|i: int| #[trigger] is_selected_record(stored, local, true, i) && stored[i] == f;
            assert(keys[i] == k);
        }
        if keys.contains(k) && local.contains(k) {
            lemma_last_occurrence_exists(keys, k);
            let i = choose|i: int| #[trigger] is_last_occurrence(keys, i) && keys[i] == k;
            assert(is_selected_record(stored, local, true, i));
            assert(plan.managed_files@.contains(stored[i]));
        }
    }
}

/// Refreshing a library whose directory holds exactly the stored names adds
/// and deletes nothing.
pub proof fn file_plan_unchanged(stored: Seq<AudioFile>, local: Seq<Seq<char>>, plan: FileRefreshPlan)
    requires
        is_file_refresh_plan(stored, local, plan),
        forall|k: Seq<char>| #[trigger] local.contains(k) <==> filenames(stored).contains(k),
    ensures
        plan.new_filenames@.len() == 0,
        plan.deleted_files@.len() == 0,
{
    file_plan_partitions(stored, local, plan);
    if plan.new_filenames@.len() > 0 {
        assert(views(plan.new_filenames@).contains(views(plan.new_filenames@)[0]));
    }
    if plan.deleted_files@.len() > 0 {
        assert(filenames(plan.deleted_files@).contains(filenames(plan.deleted_files@)[0]));
    }
}

/// When no managed file changed on disk, a refresh updates no record.
pub proof fn file_updates_unchanged(files: Seq<AudioFile>, timestamps: Seq<i64>)
    requires
        files.len() == timestamps.len(),
        forall|i: int| 0 <= i < files.len() ==> timestamps[i] == (#[trigger] files[i]).modified_timestamp,
    ensures
        refreshed_files(files, timestamps).len() == 0,
{
    file_updates_unchanged_prefix(files, timestamps);
}

proof fn file_updates_unchanged_prefix(files: Seq<AudioFile>, timestamps: Seq<i64>)
    requires
        files.len() <= timestamps.len(),
        forall|i: int| 0 <= i < files.len() ==> timestamps[i] == (#[trigger] files[i]).modified_timestamp,
    ensures
        refreshed_files(files, timestamps).len() == 0,
    decreases files.len(),
{
    if files.len() > 0 {
        let n = files.len() - 1;
        assert forall|i: int| 0 <= i < files.take(n).len() implies timestamps[i] == (#[trigger] files.take(n)[i]).modified_timestamp by {
            assert(files.take(n)[i] == files[i]);
        }
        file_updates_unchanged_prefix(files.take(n), timestamps);
    }
}

/// Whether the plan keeps a record of the library stored under `path`.
pub open spec fn keeps_library(plan: LibraryRefreshPlan, path: Seq<char>) -> bool {
    exists|l: AudioLibrary| #[trigger] plan.managed_libraries@.contains(l) && l.os_path@ == path
}

/// Refreshing a library root whose directories are exactly the stored
/// ones, with every stored path already in the common form, adds and
/// deletes no library and keeps a record of each stored path.
pub proof fn library_plan_unchanged(stored: Seq<AudioLibrary>, local: Seq<Seq<char>>, sep: char, plan: LibraryRefreshPlan)
    requires
        is_library_refresh_plan(stored, local, sep, plan),
        forall|k: Seq<char>| #[trigger] common_paths(local, sep).contains(k) <==>
            common_paths(os_paths(stored), sep).contains(k),
        forall|i: int| 0 <= i < stored.len() ==> common_path((#[trigger] stored[i]).os_path@, sep) == stored[i].os_path@,
    ensures
        plan.new_paths@.len() == 0,
        plan.deleted_paths@.len() == 0,
        forall|i: int| 0 <= i < stored.len() ==> keeps_library(plan, (#[trigger] stored[i]).os_path@),
{
    if plan.new_paths@.len() > 0 {
        assert(views(plan.new_paths@).contains(views(plan.new_paths@)[0]));
    }
    if plan.deleted_paths@.len() > 0 {
        assert(views(plan.deleted_paths@).contains(views(plan.deleted_paths@)[0]));
    }
    let keys = os_paths(stored);
    let ckeys = common_paths(keys, sep);
    assert forall|i: int| 0 <= i < stored.len() implies keeps_library(plan, (#[trigger] stored[i]).os_path@) by {
        let k = stored[i].os_path@;
        assert(keys[i] == k);
        lemma_last_occurrence_exists(keys, k);
        let j = choose|j: int| #[trigger] is_last_occurrence(keys, j) && keys[j] == k;
        assert(ckeys[j] == common_path(stored[j].os_path@, sep));
        assert(ckeys[j] == stored[j].os_path@);
        assert(ckeys.contains(stored[j].os_path@));
        assert(is_managed_library(stored, local, sep, j));
        assert(plan.managed_libraries@.contains(stored[j]));
    }
}

/// The extensions of the files that are taken for audio files.
pub fn audio_types() -> (res: Vec<String>)
    ensures
        views(res@) == seq!["aiff"@],
{
    let mut res: Vec<String> = Vec::new();
    res.push("aiff".to_string());
    assert(views(res@) =~= seq!["aiff"@]);
    res
}

/// Whether a file with the extension `extension` is an audio file: the
/// extension is one of `audio_types`.
pub fn is_audio_type(extension: &str, audio_types: &Vec<String>) -> (res: bool)
    ensures
        res == views(audio_types@).contains(extension@),
{
    let ext = extension.to_string();
    contains_key(audio_types, &ext)
}

/// Whether `files` are the new records, under new ids and with no tag, of
/// the files `names` in the directory `dir`, written with the separator
/// `sep`, whose modification times are `timestamps`.
pub open spec fn are_new_file_records(files: Seq<AudioFile>, dir: Seq<char>, names: Seq<Seq<char>>, timestamps: Seq<i64>, sep: char) -> bool {
    &&& files.len() == names.len()
    &&& forall|i: int| 0 <= i < files.len() ==> {
        &&& (#[trigger] files[i]).id is Some
        &&& files[i].filename@ == names[i]
        &&& files[i].modified_timestamp == timestamps[i]
        &&& files[i].parent_path@ == materialized(dir, sep)
        &&& files[i].audio_tag_refer is None
    }
}

/// The records of the new files `names` of the library directory
/// `library_path`, whose modification times are `timestamps`, each under
/// a new id.
pub fn new_file_records(library_path: &str, names: &Vec<String>, timestamps: &Vec<i64>) -> (res: Vec<AudioFile>)
    requires
        names@.len() == timestamps@.len(),
    ensures
        exists|sep: char| is_platform_separator(sep)
            && #[trigger] are_new_file_records(res@, library_path@, views(names@), timestamps@, sep),
{
    let sep = main_separator();
    let mut res: Vec<AudioFile> = Vec::new();
    let mut i: usize = 0;
    while i < names.len()
        invariant
            i <= names@.len(),
            names@.len() == timestamps@.len(),
            res@.len() == i,
            forall|k: int| 0 <= k < i ==> {
                &&& (#[trigger] res@[k]).id is Some
                &&& res@[k].filename@ == views(names@)[k]
                &&& res@[k].modified_timestamp == timestamps@[k]
                &&& res@[k].parent_path@ == materialized(library_path@, sep)
                &&& res@[k].audio_tag_refer is None
            },
        decreases names@.len() - i,
    {
        let id = new_object_id();
        let f = AudioFile::new_with(id, library_path, names[i].as_str(), timestamps[i], sep);
        res.push(f);
        i = i + 1;
    }
    assert(are_new_file_records(res@, library_path@, views(names@), timestamps@, sep));
    res
}

/// A second refresh of a library root, with nothing changed on disk since
/// the first, adds and deletes no library: once the first plan's deleted
/// paths are gone and its new paths are stored, the stored paths are the
/// local ones.
pub proof fn library_refresh_settles(
    stored: Seq<AudioLibrary>,
    local: Seq<Seq<char>>,
    sep: char,
    plan: LibraryRefreshPlan,
    stored_after: Seq<AudioLibrary>,
    second: LibraryRefreshPlan,
)
    requires
        is_library_refresh_plan(stored, local, sep, plan),
        forall|k: Seq<char>| #[trigger] common_paths(os_paths(stored_after), sep).contains(k) <==>
            ((common_paths(os_paths(stored), sep).contains(k) && !views(plan.deleted_paths@).contains(k))
                || views(plan.new_paths@).contains(k)),
        is_library_refresh_plan(stored_after, local, sep, second),
    ensures
        second.new_paths@.len() == 0,
        second.deleted_paths@.len() == 0,
{
    if second.new_paths@.len() > 0 {
        assert(views(second.new_paths@).contains(views(second.new_paths@)[0]));
    }
    if second.deleted_paths@.len() > 0 {
        assert(views(second.deleted_paths@).contains(views(second.deleted_paths@)[0]));
    }
}

/// A second refresh of a library's files, with nothing changed on disk
/// since the first, adds and deletes no file: once the first plan's
/// deleted records are gone and records of its new names are stored, the
/// stored names are the local ones. (Where a name was stored twice, the
/// first refresh deletes only its last record, so the law asks that no name
/// be stored twice.)
pub proof fn file_refresh_settles(
    stored: Seq<AudioFile>,
    local: Seq<Seq<char>>,
    plan: FileRefreshPlan,
    added: Seq<AudioFile>,
    stored_after: Seq<AudioFile>,
    second: FileRefreshPlan,
)
    requires
        filenames(stored).no_duplicates(),
        is_file_refresh_plan(stored, local, plan),
        filenames(added) == views(plan.new_filenames@),
        forall|f: AudioFile| #[trigger] stored_after.contains(f) <==>
            ((stored.contains(f) && !plan.deleted_files@.contains(f)) || added.contains(f)),
        is_file_refresh_plan(stored_after, local, second),
    ensures
        second.new_filenames@.len() == 0,
        second.deleted_files@.len() == 0,
{
    let keys = filenames(stored);
    assert forall|k: Seq<char>| #[trigger] local.contains(k) <==> filenames(stored_after).contains(k) by {
        lemma_filenames_contains(stored_after, k);
        lemma_filenames_contains(stored, k);
        lemma_filenames_contains(added, k);
        if local.contains(k) {
            if keys.contains(k) {
                let f = choose|f: AudioFile| #[trigger] stored.contains(f) && f.filename@ == k;
                if plan.deleted_files@.contains(f) {
                    let i = choose|i: int| #[trigger] is_selected_record(stored, local, false, i) && stored[i] == f;
                    assert(!local.contains(stored[i].filename@));
                }
                assert(stored_after.contains(f));
            } else {
                assert(views(plan.new_filenames@).contains(k));
                let j = choose|j: int| 0 <= j < views(plan.new_filenames@).len() && views(plan.new_filenames@)[j] == k;
                assert(filenames(added)[j] == k);
                assert(added.contains(added[j]));
                assert(stored_after.contains(added[j]));
            }
        }
        if filenames(stored_after).contains(k) {
            let f = choose|f: AudioFile| #[trigger] stored_after.contains(f) && f.filename@ == k;
            if added.contains(f) {
                let j = choose|j: int| 0 <= j < added.len() && added[j] == f;
                assert(filenames(added)[j] == k);
                assert(views(plan.new_filenames@).contains(k));
            } else {
                let j = choose|j: int| 0 <= j < stored.len() && stored[j] == f;
                assert(keys[j] == k);
                if !local.contains(k) {
                    assert forall|w: int| j < w < keys.len() implies keys[w] != keys[j] by {
                        assert(keys[w] != keys[j]);
                    }
                    assert(is_selected_record(stored, local, false, j));
                    assert(plan.deleted_files@.contains(f));
                }
            }
        }
    }
    file_plan_unchanged(stored_after, local, second);
}

/// The managed libraries whose directory's modification time on disk,
/// `timestamps` at the same index, differs from the stored one: the
/// libraries whose files a refresh goes through.
pub open spec fn changed_libraries_of(libs: Seq<AudioLibrary>, timestamps: Seq<i64>) -> Seq<AudioLibrary>
    decreases libs.len(),
{
    if libs.len() == 0 {
        Seq::empty()
    } else {
        let n = libs.len() - 1;
        let prev = changed_libraries_of(libs.take(n), timestamps);
        if timestamps[n] != libs[n].modified_timestamp {
            prev.push(libs[n])
        } else {
            prev
        }
    }
}

/// The managed libraries that changed on disk: `local_timestamps[i]` is
/// the modification time of the directory of `managed[i]`.
pub fn changed_libraries(managed: &Vec<AudioLibrary>, local_timestamps: &Vec<i64>) -> (res: Vec<AudioLibrary>)
    requires
        managed@.len() == local_timestamps@.len(),
    ensures
        res@ == changed_libraries_of(managed@, local_timestamps@),
{
    let mut res: Vec<AudioLibrary> = Vec::new();
    let mut i: usize = 0;
    while i < managed.len()
        invariant
            i <= managed@.len(),
            managed@.len() == local_timestamps@.len(),
            res@ == changed_libraries_of(managed@.take(i as int), local_timestamps@),
        decreases managed@.len() - i,
    {
        assert(managed@.take(i + 1).take(i as int) =~= managed@.take(i as int));
        if managed[i].check_modified(local_timestamps[i]) {
            res.push(managed[i].clone());
        }
        i = i + 1;
    }
    assert(managed@.take(managed@.len() as int) =~= managed@);
    res
}

proof fn lemma_unchanged_libraries(libs: Seq<AudioLibrary>, timestamps: Seq<i64>)
    requires
        libs.len() <= timestamps.len(),
        forall|i: int| 0 <= i < libs.len() ==> timestamps[i] == (#[trigger] libs[i]).modified_timestamp,
    ensures
        changed_libraries_of(libs, timestamps).len() == 0,
    decreases libs.len(),
{
    if libs.len() > 0 {
        let n = libs.len() - 1;
        assert forall|i: int| 0 <= i < libs.take(n).len() implies timestamps[i] == (#[trigger] libs.take(n)[i]).modified_timestamp by {
            assert(libs.take(n)[i] == libs[i]);
        }
        lemma_unchanged_libraries(libs.take(n), timestamps);
    }
}

/// When no library directory changed on disk, a refresh goes through no
/// library's files.
pub proof fn libraries_unchanged(libs: Seq<AudioLibrary>, timestamps: Seq<i64>)
    requires
        libs.len() == timestamps.len(),
        forall|i: int| 0 <= i < libs.len() ==> timestamps[i] == (#[trigger] libs[i]).modified_timestamp,
    ensures
        changed_libraries_of(libs, timestamps).len() == 0,
{
    lemma_unchanged_libraries(libs, timestamps);
}

proof fn lemma_refreshed_members(files: Seq<AudioFile>, timestamps: Seq<i64>)
    requires
        files.len() <= timestamps.len(),
    ensures
        forall|u: AudioFile| #[trigger] refreshed_files(files, timestamps).contains(u) ==>
            exists|i: int| 0 <= i < files.len() && timestamps[i] != files[i].modified_timestamp
                && u == (AudioFile { modified_timestamp: timestamps[i], ..files[i] }),
        forall|i: int| 0 <= i < files.len() && timestamps[i] != (#[trigger] files[i]).modified_timestamp ==>
            refreshed_files(files, timestamps).contains(AudioFile { modified_timestamp: timestamps[i], ..files[i] }),
    decreases files.len(),
{
    if files.len() > 0 {
        let n = files.len() - 1;
        let pre = files.take(n);
        lemma_refreshed_members(pre, timestamps);
        let prev = refreshed_files(pre, timestamps);
        let last = AudioFile { modified_timestamp: timestamps[n], ..files[n] };
        assert forall|u: AudioFile| #[trigger] refreshed_files(files, timestamps).contains(u) implies
            exists|i: int| 0 <= i < files.len() && timestamps[i] != files[i].modified_timestamp
                && u == (AudioFile { modified_timestamp: timestamps[i], ..files[i] }) by {
            if timestamps[n] != files[n].modified_timestamp {
                lemma_contains_push(prev, last);
            }
            if prev.contains(u) {
                let i = choose|i: int| 0 <= i < pre.len() && timestamps[i] != pre[i].modified_timestamp
                    && u == (AudioFile { modified_timestamp: timestamps[i], ..pre[i] });
                assert(pre[i] == files[i]);
            } else {
                assert(u == last);
            }
        }
        assert forall|i: int| 0 <= i < files.len() && timestamps[i] != (#[trigger] files[i]).modified_timestamp implies
            refreshed_files(files, timestamps).contains(AudioFile { modified_timestamp: timestamps[i], ..files[i] }) by {
            lemma_contains_push(prev, last);
            if i < n {
                assert(pre[i] == files[i]);
                assert(timestamps[i] != pre[i].modified_timestamp);
            }
        }
    }
}

/// Whether `after` is what the store holds of a library's files once a
/// refresh applied `plan`: the deleted records gone, each record of
/// `updated` in place of the stored record with its id, and the records of
/// `added` stored.
pub open spec fn is_refreshed_files(
    stored: Seq<AudioFile>,
    plan: FileRefreshPlan,
    added: Seq<AudioFile>,
    updated: Seq<AudioFile>,
    after: Seq<AudioFile>,
) -> bool {
    forall|f: AudioFile| #[trigger] after.contains(f) <==> (
        (stored.contains(f) && !plan.deleted_files@.contains(f)
            && !(exists|u: AudioFile| #[trigger] updated.contains(u) && u.id == f.id))
        || added.contains(f) || updated.contains(f))
}

/// Whether `timestamps` are the modification times on disk, `disk` by
/// file name, of the files of `files`.
pub open spec fn timestamps_on_disk(files: Seq<AudioFile>, timestamps: Seq<i64>, disk: Map<Seq<char>, i64>) -> bool {
    &&& timestamps.len() == files.len()
    &&& forall|i: int| 0 <= i < files.len() ==> timestamps[i] == disk[(#[trigger] files[i]).filename@]
}

/// Whether no two records share an id.
pub open spec fn ids_distinct(files: Seq<AudioFile>) -> bool {
    forall|i: int, j: int| 0 <= i < files.len() && 0 <= j < files.len() && i != j ==> files[i].id != files[j].id
}

/// Refreshing a library's files twice, with nothing changed on disk in
/// between, changes nothing the second time: the second refresh adds,
/// deletes and updates no record, so no tag is made again, and the store
/// holds the records that the first refresh left.
///
/// The first refresh ran on records with no name and no id twice; the
/// files of the directory were `local`, with the modification times
/// `disk`; the new records carry those times.
pub proof fn file_refresh_twice_changes_nothing(
    stored: Seq<AudioFile>,
    local: Seq<Seq<char>>,
    disk: Map<Seq<char>, i64>,
    plan: FileRefreshPlan,
    timestamps: Seq<i64>,
    added: Seq<AudioFile>,
    after: Seq<AudioFile>,
    second: FileRefreshPlan,
    second_timestamps: Seq<i64>,
    second_added: Seq<AudioFile>,
    second_after: Seq<AudioFile>,
)
    requires
        filenames(stored).no_duplicates(),
        ids_distinct(stored),
        is_file_refresh_plan(stored, local, plan),
        timestamps_on_disk(plan.managed_files@, timestamps, disk),
        filenames(added) == views(plan.new_filenames@),
        forall|a: AudioFile| #[trigger] added.contains(a) ==> a.modified_timestamp == disk[a.filename@],
        is_refreshed_files(stored, plan, added, refreshed_files(plan.managed_files@, timestamps), after),
        is_file_refresh_plan(after, local, second),
        timestamps_on_disk(second.managed_files@, second_timestamps, disk),
        filenames(second_added) == views(second.new_filenames@),
        is_refreshed_files(after, second, second_added, refreshed_files(second.managed_files@, second_timestamps), second_after),
    ensures
        second.new_filenames@.len() == 0,
        second.deleted_files@.len() == 0,
        refreshed_files(second.managed_files@, second_timestamps).len() == 0,
        tag_refs(refreshed_files(second.managed_files@, second_timestamps)).len() == 0,
        forall|f: AudioFile| #[trigger] second_after.contains(f) <==> after.contains(f),
{
    let keys = filenames(stored);
    let managed = plan.managed_files@;
    let upd = refreshed_files(managed, timestamps);
    lemma_refreshed_members(managed, timestamps);
    // Each managed record is a stored record whose name is local.
    assert forall|i: int| 0 <= i < managed.len() implies
        local.contains(#[trigger] managed[i].filename@) && stored.contains(managed[i]) by {
        assert(plan.managed_files@.contains(managed[i]));
        let j = choose|j: int| #[trigger] is_selected_record(stored, local, true, j) && stored[j] == managed[i];
    }
    // Every record after the first refresh has a local name and its time on disk.
    assert forall|f: AudioFile| #[trigger] after.contains(f) implies
        local.contains(f.filename@) && f.modified_timestamp == disk[f.filename@] by {
        if added.contains(f) {
            lemma_filenames_contains(added, f.filename@);
            assert(views(plan.new_filenames@).contains(f.filename@));
        } else if upd.contains(f) {
            let i = choose|i: int| 0 <= i < managed.len() && timestamps[i] != managed[i].modified_timestamp
                && f == (AudioFile { modified_timestamp: timestamps[i], ..managed[i] });
            assert(local.contains(managed[i].filename@));
        } else {
            let j = choose|j: int| 0 <= j < stored.len() && stored[j] == f;
            assert(keys[j] == f.filename@);
            assert forall|w: int| j < w < keys.len() implies keys[w] != keys[j] by {
                assert(keys[w] != keys[j]);
            }
            if !local.contains(f.filename@) {
                assert(is_selected_record(stored, local, false, j));
                assert(plan.deleted_files@.contains(f));
            }
            assert(is_selected_record(stored, local, true, j));
            assert(plan.managed_files@.contains(f));
            let i = choose|i: int| 0 <= i < managed.len() && managed[i] == f;
            if timestamps[i] != managed[i].modified_timestamp {
                let u = AudioFile { modified_timestamp: timestamps[i], ..managed[i] };
                assert(upd.contains(u) && u.id == f.id);
            }
        }
    }
    // The names after the first refresh are the local ones.
    assert forall|k: Seq<char>| #[trigger] local.contains(k) <==> filenames(after).contains(k) by {
        lemma_filenames_contains(after, k);
        lemma_filenames_contains(stored, k);
        lemma_filenames_contains(added, k);
        if local.contains(k) {
            if keys.contains(k) {
                let j = choose|j: int| 0 <= j < keys.len() && keys[j] == k;
                let f = stored[j];
                assert forall|w: int| j < w < keys.len() implies keys[w] != keys[j] by {
                    assert(keys[w] != keys[j]);
                }
                assert(is_selected_record(stored, local, true, j));
                assert(plan.managed_files@.contains(f));
                let i = choose|i: int| 0 <= i < managed.len() && managed[i] == f;
                if timestamps[i] != managed[i].modified_timestamp {
                    let u = AudioFile { modified_timestamp: timestamps[i], ..managed[i] };
                    assert(upd.contains(u));
                    assert(after.contains(u) && u.filename@ == k);
                } else if exists|u: AudioFile| #[trigger] upd.contains(u) && u.id == f.id {
                    let u = choose|u: AudioFile| #[trigger] upd.contains(u) && u.id == f.id;
                    let i2 = choose|i2: int| 0 <= i2 < managed.len() && timestamps[i2] != managed[i2].modified_timestamp
                        && u == (AudioFile { modified_timestamp: timestamps[i2], ..managed[i2] });
                    let j2 = choose|j2: int| 0 <= j2 < stored.len() && stored[j2] == managed[i2];
                    assert(stored[j2].id == stored[j].id);
                    assert(j2 == j);
                    assert(after.contains(u) && u.filename@ == k);
                } else {
                    if plan.deleted_files@.contains(f) {
                        let d = choose|d: int| #[trigger] is_selected_record(stored, local, false, d) && stored[d] == f;
                    }
                    assert(after.contains(f));
                }
            } else {
                assert(views(plan.new_filenames@).contains(k));
                let j = choose|j: int| 0 <= j < added.len() && filenames(added)[j] == k;
                assert(added.contains(added[j]));
                assert(after.contains(added[j]));
            }
        }
    }
    file_plan_unchanged(after, local, second);
    let managed2 = second.managed_files@;
    assert forall|i: int| 0 <= i < managed2.len() implies
        second_timestamps[i] == (#[trigger] managed2[i]).modified_timestamp by {
        assert(second.managed_files@.contains(managed2[i]));
        let j = choose|j: int| #[trigger] is_selected_record(after, local, true, j) && after[j] == managed2[i];
        assert(after.contains(after[j]));
    }
    file_updates_unchanged(managed2, second_timestamps);
    let upd2 = refreshed_files(managed2, second_timestamps);
    assert(upd2 =~= Seq::<AudioFile>::empty());
    assert(views(second.new_filenames@).len() == 0);
    assert(filenames(second_added).len() == second_added.len());
    assert(second_added.len() == 0);
    assert forall|f: AudioFile| #[trigger] second_after.contains(f) <==> after.contains(f) by {
        if second.deleted_files@.contains(f) {
            assert(second.deleted_files@.len() > 0);
        }
        if second_added.contains(f) {
            assert(second_added.len() > 0);
        }
    }
}

proof fn lemma_changed_members(libs: Seq<AudioLibrary>, timestamps: Seq<i64>)
    requires
        libs.len() <= timestamps.len(),
    ensures
        forall|c: AudioLibrary| #[trigger] changed_libraries_of(libs, timestamps).contains(c) ==>
            exists|i: int| 0 <= i < libs.len() && timestamps[i] != libs[i].modified_timestamp && c == libs[i],
        forall|i: int| 0 <= i < libs.len() && timestamps[i] != (#[trigger] libs[i]).modified_timestamp ==>
            changed_libraries_of(libs, timestamps).contains(libs[i]),
    decreases libs.len(),
{
    if libs.len() > 0 {
        let n = libs.len() - 1;
        let pre = libs.take(n);
        lemma_changed_members(pre, timestamps);
        let prev = changed_libraries_of(pre, timestamps);
        lemma_contains_push(prev, libs[n]);
        assert forall|c: AudioLibrary| #[trigger] changed_libraries_of(libs, timestamps).contains(c) implies
            exists|i: int| 0 <= i < libs.len() && timestamps[i] != libs[i].modified_timestamp && c == libs[i] by {
            if prev.contains(c) {
                let i = choose|i: int| 0 <= i < pre.len() && timestamps[i] != pre[i].modified_timestamp && c == pre[i];
                assert(pre[i] == libs[i]);
            }
        }
        assert forall|i: int| 0 <= i < libs.len() && timestamps[i] != (#[trigger] libs[i]).modified_timestamp implies
            changed_libraries_of(libs, timestamps).contains(libs[i]) by {
            if i < n {
                assert(pre[i] == libs[i]);
            }
        }
    }
}

proof fn lemma_keys_contains(libs: Seq<AudioLibrary>, sep: char, k: Seq<char>)
    ensures
        common_paths(os_paths(libs), sep).contains(k) <==>
            (exists|l: AudioLibrary| #[trigger] libs.contains(l) && common_path(l.os_path@, sep) == k),
{
    let keys = common_paths(os_paths(libs), sep);
    if keys.contains(k) {
        let i = choose|i: int| 0 <= i < keys.len() && keys[i] == k;
        assert(libs.contains(libs[i]));
    }
    if exists|l: AudioLibrary| #[trigger] libs.contains(l) && common_path(l.os_path@, sep) == k {
        let l = choose|l: AudioLibrary| #[trigger] libs.contains(l) && common_path(l.os_path@, sep) == k;
        let i = choose|i: int| 0 <= i < libs.len() && libs[i] == l;
        assert(keys[i] == k);
    }
}

proof fn lemma_os_paths_contains(libs: Seq<AudioLibrary>, k: Seq<char>)
    ensures
        os_paths(libs).contains(k) <==> (exists|l: AudioLibrary| #[trigger] libs.contains(l) && l.os_path@ == k),
{
    if os_paths(libs).contains(k) {
        let i = choose|i: int| 0 <= i < os_paths(libs).len() && os_paths(libs)[i] == k;
        assert(libs.contains(libs[i]));
    }
    if exists|l: AudioLibrary| #[trigger] libs.contains(l) && l.os_path@ == k {
        let l = choose|l: AudioLibrary| #[trigger] libs.contains(l) && l.os_path@ == k;
        let i = choose|i: int| 0 <= i < libs.len() && libs[i] == l;
        assert(os_paths(libs)[i] == k);
    }
}

/// Whether `timestamps` are the modification times on disk, `disk` by
/// path, of the directories of `libs`.
pub open spec fn library_timestamps_on_disk(libs: Seq<AudioLibrary>, timestamps: Seq<i64>, disk: Map<Seq<char>, i64>) -> bool {
    &&& timestamps.len() == libs.len()
    &&& forall|i: int| 0 <= i < libs.len() ==> timestamps[i] == disk[(#[trigger] libs[i]).os_path@]
}

/// Whether `after` is what the store holds of the libraries under a root
/// once a refresh applied `plan`: the records of the deleted paths gone,
/// the records of `added` stored, and each library of `changed` with its
/// directory's modification time on disk recorded.
pub open spec fn is_refreshed_libraries(
    stored: Seq<AudioLibrary>,
    sep: char,
    plan: LibraryRefreshPlan,
    added: Seq<AudioLibrary>,
    changed: Seq<AudioLibrary>,
    disk: Map<Seq<char>, i64>,
    after: Seq<AudioLibrary>,
) -> bool {
    forall|l: AudioLibrary| #[trigger] after.contains(l) <==> (
        (stored.contains(l) && !views(plan.deleted_paths@).contains(common_path(l.os_path@, sep)) && !changed.contains(l))
        || added.contains(l)
        || (exists|c: AudioLibrary| #[trigger] changed.contains(c)
            && l == (AudioLibrary { modified_timestamp: disk[c.os_path@], ..c })))
}

/// Refreshing a library root twice, with nothing changed on disk in
/// between, changes nothing the second time: the second refresh adds and
/// deletes no library and finds none changed, so it goes through no
/// library's files, and the store holds the libraries that the first
/// refresh left.
///
/// The first refresh ran on records stored under distinct paths already in
/// the common form; the directories were `local`, with the modification
/// times `disk`; the new records carry those times.
pub proof fn library_refresh_twice_changes_nothing(
    stored: Seq<AudioLibrary>,
    local: Seq<Seq<char>>,
    sep: char,
    disk: Map<Seq<char>, i64>,
    plan: LibraryRefreshPlan,
    timestamps: Seq<i64>,
    added: Seq<AudioLibrary>,
    after: Seq<AudioLibrary>,
    second: LibraryRefreshPlan,
    second_timestamps: Seq<i64>,
    second_added: Seq<AudioLibrary>,
    second_after: Seq<AudioLibrary>,
)
    requires
        is_platform_separator(sep),
        os_paths(stored).no_duplicates(),
        forall|i: int| 0 <= i < stored.len() ==> common_path((#[trigger] stored[i]).os_path@, sep) == stored[i].os_path@,
        is_library_refresh_plan(stored, local, sep, plan),
        library_timestamps_on_disk(plan.managed_libraries@, timestamps, disk),
        os_paths(added) == views(plan.new_paths@),
        forall|a: AudioLibrary| #[trigger] added.contains(a) ==> a.modified_timestamp == disk[a.os_path@],
        is_refreshed_libraries(stored, sep, plan, added, changed_libraries_of(plan.managed_libraries@, timestamps), disk, after),
        is_library_refresh_plan(after, local, sep, second),
        library_timestamps_on_disk(second.managed_libraries@, second_timestamps, disk),
        os_paths(second_added) == views(second.new_paths@),
        is_refreshed_libraries(after, sep, second, second_added,
            changed_libraries_of(second.managed_libraries@, second_timestamps), disk, second_after),
    ensures
        second.new_paths@.len() == 0,
        second.deleted_paths@.len() == 0,
        changed_libraries_of(second.managed_libraries@, second_timestamps).len() == 0,
        forall|l: AudioLibrary| #[trigger] second_after.contains(l) <==> after.contains(l),
{
    let keys = os_paths(stored);
    let k1 = common_paths(keys, sep);
    let lk = common_paths(local, sep);
    let managed = plan.managed_libraries@;
    let changed = changed_libraries_of(managed, timestamps);
    let deleted = views(plan.deleted_paths@);
    let new = views(plan.new_paths@);
    lemma_changed_members(managed, timestamps);
    // Each local key is in the common form.
    assert forall|k: Seq<char>| #[trigger] lk.contains(k) implies common_path(k, sep) == k by {
        let i = choose|i: int| 0 <= i < lk.len() && lk[i] == k;
        common_path_idempotent(local[i], sep);
    }
    // Each managed library is stored, its path in the common form, its key local.
    assert forall|i: int| 0 <= i < managed.len() implies
        stored.contains(#[trigger] managed[i]) && common_path(managed[i].os_path@, sep) == managed[i].os_path@
            && lk.contains(managed[i].os_path@) && k1.contains(managed[i].os_path@) by {
        assert(plan.managed_libraries@.contains(managed[i]));
        let j = choose|j: int| #[trigger] is_managed_library(stored, local, sep, j) && stored[j] == managed[i];
    }
    // Every library after the first refresh has a local key, a path in the
    // common form and its time on disk.
    assert forall|l: AudioLibrary| #[trigger] after.contains(l) implies
        lk.contains(l.os_path@) && common_path(l.os_path@, sep) == l.os_path@
            && l.modified_timestamp == disk[l.os_path@] by {
        if added.contains(l) {
            lemma_os_paths_contains(added, l.os_path@);
            assert(new.contains(l.os_path@));
        } else if exists|c: AudioLibrary| #[trigger] changed.contains(c)
            && l == (AudioLibrary { modified_timestamp: disk[c.os_path@], ..c }) {
            let c = choose|c: AudioLibrary| #[trigger] changed.contains(c)
                && l == (AudioLibrary { modified_timestamp: disk[c.os_path@], ..c });
            let i = choose|i: int| 0 <= i < managed.len() && timestamps[i] != managed[i].modified_timestamp && c == managed[i];
            assert(stored.contains(managed[i]));
        } else {
            let j = choose|j: int| 0 <= j < stored.len() && stored[j] == l;
            assert(keys[j] == l.os_path@);
            assert(k1[j] == l.os_path@);
            assert(!deleted.contains(l.os_path@));
            assert(lk.contains(l.os_path@));
            assert forall|w: int| j < w < keys.len() implies keys[w] != keys[j] by {
                assert(keys[w] != keys[j]);
            }
            assert(is_managed_library(stored, local, sep, j));
            assert(plan.managed_libraries@.contains(l));
            let i = choose|i: int| 0 <= i < managed.len() && managed[i] == l;
            if timestamps[i] != managed[i].modified_timestamp {
                assert(changed.contains(managed[i]));
            }
        }
    }
    // The keys after the first refresh: the stored keys not deleted, and the new ones.
    assert forall|k: Seq<char>| #[trigger] common_paths(os_paths(after), sep).contains(k) <==>
        ((k1.contains(k) && !deleted.contains(k)) || new.contains(k)) by {
        lemma_keys_contains(after, sep, k);
        lemma_keys_contains(stored, sep, k);
        if common_paths(os_paths(after), sep).contains(k) {
            let l = choose|l: AudioLibrary| #[trigger] after.contains(l) && common_path(l.os_path@, sep) == k;
            assert(lk.contains(k));
            if added.contains(l) {
                lemma_os_paths_contains(added, l.os_path@);
            } else if exists|c: AudioLibrary| #[trigger] changed.contains(c)
                && l == (AudioLibrary { modified_timestamp: disk[c.os_path@], ..c }) {
                let c = choose|c: AudioLibrary| #[trigger] changed.contains(c)
                    && l == (AudioLibrary { modified_timestamp: disk[c.os_path@], ..c });
                let i = choose|i: int| 0 <= i < managed.len() && timestamps[i] != managed[i].modified_timestamp && c == managed[i];
                assert(stored.contains(c));
                assert(k1.contains(k));
            } else {
                assert(stored.contains(l));
            }
        }
        if k1.contains(k) && !deleted.contains(k) {
            let l = choose|l: AudioLibrary| #[trigger] stored.contains(l) && common_path(l.os_path@, sep) == k;
            if changed.contains(l) {
                let l2 = AudioLibrary { modified_timestamp: disk[l.os_path@], ..l };
                assert(after.contains(l2));
            } else {
                assert(after.contains(l));
            }
        }
        if new.contains(k) {
            lemma_os_paths_contains(added, k);
            let a = choose|a: AudioLibrary| #[trigger] added.contains(a) && a.os_path@ == k;
            assert(after.contains(a));
            assert(lk.contains(k));
        }
    }
    library_refresh_settles(stored, local, sep, plan, after, second);
    let managed2 = second.managed_libraries@;
    assert forall|i: int| 0 <= i < managed2.len() implies
        second_timestamps[i] == (#[trigger] managed2[i]).modified_timestamp by {
        assert(second.managed_libraries@.contains(managed2[i]));
        let j = choose|j: int| #[trigger] is_managed_library(after, local, sep, j) && after[j] == managed2[i];
        assert(after.contains(after[j]));
    }
    libraries_unchanged(managed2, second_timestamps);
    let changed2 = changed_libraries_of(managed2, second_timestamps);
    assert(views(second.new_paths@).len() == 0);
    assert(os_paths(second_added).len() == second_added.len());
    assert(second_added.len() == 0);
    assert forall|l: AudioLibrary| #[trigger] second_after.contains(l) <==> after.contains(l) by {
        if views(second.deleted_paths@).contains(common_path(l.os_path@, sep)) {
            assert(views(second.deleted_paths@).len() > 0);
        }
        if second_added.contains(l) {
            assert(second_added.len() > 0);
        }
        if changed2.contains(l) {
            assert(changed2.len() > 0);
        }
        if exists|c: AudioLibrary| #[trigger] changed2.contains(c)
            && l == (AudioLibrary { modified_timestamp: disk[c.os_path@], ..c }) {
            let c = choose|c: AudioLibrary| #[trigger] changed2.contains(c)
                && l == (AudioLibrary { modified_timestamp: disk[c.os_path@], ..c });
            assert(changed2.len() > 0);
        }
    }
}

} // verus!
