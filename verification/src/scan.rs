//! The index that makes a second scan cheap: for every file that a scan
//! has looked at, the time at which the file was last modified.

use vstd::prelude::*;
use crate::persist::Loaded;

verus! {

/// A file that a scan looks at, and when it was last modified, in seconds
/// since the Unix epoch.
#[derive(Debug, Clone, PartialEq, Eq)]
pub struct ScannedFile {
    pub path: String,
    pub mtime: u64,
}

impl View for ScannedFile {
    type V = (Seq<char>, u64);

    open spec fn view(&self) -> (Seq<char>, u64) {
        (self.path@, self.mtime)
    }
}

/// The path and time of each file of a list, in order.
pub open spec fn file_views(v: Seq<ScannedFile>) -> Seq<(Seq<char>, u64)> {
    v.map_values(|f: ScannedFile| f@)
}

/// The path of the file at position `i`.
pub open spec fn path_at(s: Seq<(Seq<char>, u64)>, i: int) -> Seq<char> {
    s[i].0
}

/// Whether some file of `s` has the path `path`.
pub open spec fn has_path(s: Seq<(Seq<char>, u64)>, path: Seq<char>) -> bool {
    exists|i: int| 0 <= i < s.len() && #[trigger] path_at(s, i) == path
}

/// No two files of `s` share a path.
pub open spec fn distinct_paths(s: Seq<(Seq<char>, u64)>) -> bool {
    forall|i: int, j: int|
        0 <= i < j < s.len() ==> #[trigger] path_at(s, i) != #[trigger] path_at(s, j)
}

/// A position at which `s` holds a file with the path `path`.
pub open spec fn place_of(s: Seq<(Seq<char>, u64)>, path: Seq<char>) -> int {
    choose|i: int| 0 <= i < s.len() && #[trigger] path_at(s, i) == path
}

/// The times of `s`, each under its file's path.
pub open spec fn times_by_path(s: Seq<(Seq<char>, u64)>) -> Map<Seq<char>, u64> {
    Map::new(|path: Seq<char>| has_path(s, path), |path: Seq<char>| s[place_of(s, path)].1)
}

proof fn lemma_times_at(s: Seq<(Seq<char>, u64)>, i: int)
    requires
        distinct_paths(s),
        0 <= i < s.len(),
    ensures
        times_by_path(s).contains_key(path_at(s, i)),
        times_by_path(s)[path_at(s, i)] == s[i].1,
{
    let path = path_at(s, i);
    assert(has_path(s, path));
    let p = place_of(s, path);
    assert(path_at(s, p) == path);
    if p < i {
        assert(path_at(s, p) != path_at(s, i));
    } else if i < p {
        assert(path_at(s, i) != path_at(s, p));
    }
}

proof fn lemma_times_push(s: Seq<(Seq<char>, u64)>, f: (Seq<char>, u64))
    requires
        distinct_paths(s),
        !has_path(s, f.0),
    ensures
        distinct_paths(s.push(f)),
        times_by_path(s.push(f)) == times_by_path(s).insert(f.0, f.1),
{
    let t = s.push(f);
    assert forall|i: int, j: int| 0 <= i < j < t.len() implies #[trigger] path_at(t, i)
        != #[trigger] path_at(t, j) by {
        if j < s.len() {
            assert(path_at(s, i) != path_at(s, j));
        } else {
            assert(path_at(s, i) == path_at(t, i));
        }
    }
    assert forall|path: Seq<char>|
        times_by_path(t).contains_key(path) <==> times_by_path(s).insert(f.0, f.1).contains_key(
            path,
        ) by {
        if has_path(s, path) {
            let p = place_of(s, path);
            assert(path_at(t, p) == path);
        }
        if path == f.0 {
            assert(path_at(t, s.len() as int) == path);
        }
        if has_path(t, path) {
            let p = place_of(t, path);
            if p < s.len() {
                assert(path_at(s, p) == path);
            }
        }
    }
    assert forall|path: Seq<char>| #[trigger]
        times_by_path(t).contains_key(path) implies times_by_path(t)[path] == times_by_path(
        s,
    ).insert(f.0, f.1)[path] by {
        let p = place_of(t, path);
        assert(path_at(t, p) == path);
        lemma_times_at(t, p);
        if p < s.len() {
            assert(path_at(s, p) == path);
            lemma_times_at(s, p);
        }
    }
    assert(times_by_path(t) =~= times_by_path(s).insert(f.0, f.1));
}

proof fn lemma_times_update(s: Seq<(Seq<char>, u64)>, i: int, f: (Seq<char>, u64))
    requires
        distinct_paths(s),
        0 <= i < s.len(),
        f.0 == path_at(s, i),
    ensures
        distinct_paths(s.update(i, f)),
        times_by_path(s.update(i, f)) == times_by_path(s).insert(f.0, f.1),
{
    let t = s.update(i, f);
    assert forall|k: int| 0 <= k < s.len() implies #[trigger] path_at(t, k) == path_at(s, k) by {}
    assert forall|a: int, b: int| 0 <= a < b < t.len() implies #[trigger] path_at(t, a)
        != #[trigger] path_at(t, b) by {
        assert(path_at(s, a) != path_at(s, b));
    }
    assert forall|path: Seq<char>|
        times_by_path(t).contains_key(path) <==> times_by_path(s).insert(f.0, f.1).contains_key(
            path,
        ) by {
        if has_path(s, path) {
            let p = place_of(s, path);
            assert(path_at(t, p) == path);
        }
        if has_path(t, path) {
            let p = place_of(t, path);
            assert(path_at(s, p) == path);
        }
        if path == f.0 {
            assert(path_at(s, i) == path);
        }
    }
    assert forall|path: Seq<char>| #[trigger]
        times_by_path(t).contains_key(path) implies times_by_path(t)[path] == times_by_path(
        s,
    ).insert(f.0, f.1)[path] by {
        let p = place_of(t, path);
        assert(path_at(t, p) == path);
        lemma_times_at(t, p);
        lemma_times_at(s, p);
    }
    assert(times_by_path(t) =~= times_by_path(s).insert(f.0, f.1));
}

/// The time that the index holds for `path`; 0 where it holds none.
pub open spec fn recorded(index: Map<Seq<char>, u64>, path: Seq<char>) -> u64 {
    if index.contains_key(path) {
        index[path]
    } else {
        0
    }
}

/// The index after a scan has looked at `files`: it holds the time of each
/// of them, whether the file had changed or not.
pub open spec fn index_after(index: Map<Seq<char>, u64>, files: Seq<(Seq<char>, u64)>) -> Map<
    Seq<char>,
    u64,
>
    decreases files.len(),
{
    if files.len() == 0 {
        index
    } else {
        index_after(index, files.drop_last()).insert(files.last().0, files.last().1)
    }
}

/// The paths that a scan reads again, in the order of `files`: all of them
/// where the scan is full, else those modified later than the index holds
/// at the moment the scan comes to them.
pub open spec fn to_scan(
    index: Map<Seq<char>, u64>,
    files: Seq<(Seq<char>, u64)>,
    full: bool,
) -> Seq<Seq<char>>
    decreases files.len(),
{
    if files.len() == 0 {
        Seq::empty()
    } else {
        let before = to_scan(index, files.drop_last(), full);
        let file = files.last();
        if full || recorded(index_after(index, files.drop_last()), file.0) < file.1 {
            before.push(file.0)
        } else {
            before
        }
    }
}

/// The scan index: for each path, when the file was last seen modified.
#[derive(Debug)]
pub struct ScanIndex {
    entries: Vec<ScannedFile>,
}

impl View for ScanIndex {
    type V = Map<Seq<char>, u64>;

    closed spec fn view(&self) -> Map<Seq<char>, u64> {
        times_by_path(file_views(self.entries@))
    }
}

fn place_in(entries: &Vec<ScannedFile>, path: &String) -> (r: Option<usize>)
    ensures
        match r {
            Some(i) => i < entries.len() && path_at(file_views(entries@), i as int) == path@,
            None => !has_path(file_views(entries@), path@),
        },
{
    let mut i: usize = 0;
    while i < entries.len()
        invariant
            i <= entries.len(),
            forall|j: int| 0 <= j < i ==> #[trigger] path_at(file_views(entries@), j) != path@,
        decreases entries.len() - i,
    {
        if entries[i].path == *path {
            return Some(i);
        }
        i = i + 1;
    }
    None
}

fn record(entries: &mut Vec<ScannedFile>, file: ScannedFile)
    requires
        distinct_paths(file_views(old(entries)@)),
    ensures
        distinct_paths(file_views(final(entries)@)),
        times_by_path(file_views(final(entries)@)) == times_by_path(
            file_views(old(entries)@),
        ).insert(file@.0, file@.1),
{
    let ghost before = file_views(entries@);
    match place_in(entries, &file.path) {
        Some(i) => {
            proof {
                lemma_times_update(before, i as int, file@);
            }
            entries[i] = file;
            assert(file_views(entries@) =~= before.update(i as int, file@));
        },
        None => {
            proof {
                lemma_times_push(before, file@);
            }
            entries.push(file);
            assert(file_views(entries@) =~= before.push(file@));
        },
    }
}

impl ScanIndex {
    #[verifier::type_invariant]
    spec fn paths_are_distinct(self) -> bool {
        distinct_paths(file_views(self.entries@))
    }

    /// The index that holds nothing: every file counts as changed.
    pub fn new() -> (index: ScanIndex)
        ensures
            index@ == Map::<Seq<char>, u64>::empty(),
    {
        let index = ScanIndex { entries: Vec::new() };
        assert(index@ =~= Map::<Seq<char>, u64>::empty()) by {
            assert forall|path: Seq<char>| !has_path(file_views(index.entries@), path) by {}
        }
        index
    }

    /// The index that holds `files`; of two with one path the later stays.
    pub fn from_entries(files: Vec<ScannedFile>) -> (index: ScanIndex)
        ensures
            index@ == index_after(Map::empty(), file_views(files@)),
    {
        let ghost all = file_views(files@);
        let mut entries: Vec<ScannedFile> = Vec::new();
        proof {
            assert forall|path: Seq<char>| !has_path(file_views(entries@), path) by {}
            assert(times_by_path(file_views(entries@)) =~= Map::<Seq<char>, u64>::empty());
        }
        for file in it: files.into_iter()
            invariant
                it.seq() == files@,
                all == file_views(files@),
                distinct_paths(file_views(entries@)),
                times_by_path(file_views(entries@)) == index_after(
                    Map::empty(),
                    all.take(it.index() as int),
                ),
        {
            proof {
                let k = it.index() as int;
                assert(all.take(k + 1).drop_last() =~= all.take(k));
                assert(all.take(k + 1).last() == file@);
            }
            record(&mut entries, file);
        }
        assert(all.take(all.len() as int) =~= all);
        ScanIndex { entries }
    }

    /// What the index holds, one entry for each path.
    pub fn entries(&self) -> (files: &Vec<ScannedFile>)
        ensures
            distinct_paths(file_views(files@)),
            times_by_path(file_views(files@)) == self@,
    {
        proof {
            use_type_invariant(self);
        }
        &self.entries
    }

    /// The time that the index holds for `path`.
    pub fn get(&self, path: &String) -> (r: Option<u64>)
        ensures
            r is Some <==> self@.contains_key(path@),
            r is Some ==> r.unwrap() == self@[path@],
    {
        match place_in(&self.entries, path) {
            Some(i) => {
                proof {
                    use_type_invariant(self);
                    lemma_times_at(file_views(self.entries@), i as int);
                }
                Some(self.entries[i].mtime)
            },
            None => None,
        }
    }

    /// Notes that the file at `path` was last modified at `mtime`.
    pub fn insert(&mut self, path: String, mtime: u64)
        ensures
            final(self)@ == old(self)@.insert(path@, mtime),
    {
        proof {
            use_type_invariant(&*self);
        }
        let mut entries: Vec<ScannedFile> = Vec::new();
        std::mem::swap(&mut self.entries, &mut entries);
        record(&mut entries, ScannedFile { path, mtime });
        self.entries = entries;
    }
}

/// The index that an index file stands for: the entries that were read
/// from it, and the empty index where the file is missing or its content
/// cannot be understood.
pub fn load_scan_index(file: Loaded<Vec<ScannedFile>>) -> (index: ScanIndex)
    ensures
        index@ == match file {
            Loaded::Read(files) => index_after(Map::empty(), file_views(files@)),
            _ => Map::empty(),
        },
{
    match file {
        Loaded::Read(files) => ScanIndex::from_entries(files),
        _ => ScanIndex::new(),
    }
}

/// Looks at `files` one after another, says which of them a scan has to
/// read again, and notes the time of each in the index.
pub fn plan_scan(index: &mut ScanIndex, files: Vec<ScannedFile>, full: bool) -> (chosen: Vec<
    String,
>)
    ensures
        final(index)@ == index_after(old(index)@, file_views(files@)),
        chosen@.map_values(|p: String| p@) == to_scan(old(index)@, file_views(files@), full),
{
    proof {
        use_type_invariant(&*index);
    }
    let ghost all = file_views(files@);
    let ghost start = index@;
    let mut entries: Vec<ScannedFile> = Vec::new();
    std::mem::swap(&mut index.entries, &mut entries);
    let mut chosen: Vec<String> = Vec::new();
    for file in it: files.into_iter()
        invariant
            it.seq() == files@,
            all == file_views(files@),
            distinct_paths(file_views(entries@)),
            times_by_path(file_views(entries@)) == index_after(start, all.take(it.index() as int)),
            chosen@.map_values(|p: String| p@) == to_scan(
                start,
                all.take(it.index() as int),
                full,
            ),
    {
        proof {
            let k = it.index() as int;
            assert(all.take(k + 1).drop_last() =~= all.take(k));
            assert(all.take(k + 1).last() == file@);
        }
        let known = match place_in(&entries, &file.path) {
            Some(i) => {
                proof {
                    lemma_times_at(file_views(entries@), i as int);
                }
                entries[i].mtime
            },
            None => 0,
        };
        if full || known < file.mtime {
            let ghost before = chosen@.map_values(|p: String| p@);
            chosen.push(file.path.clone());
            assert(chosen@.map_values(|p: String| p@) =~= before.push(file.path@));
        }
        record(&mut entries, file);
    }
    assert(all.take(all.len() as int) =~= all);
    index.entries = entries;
    chosen
}

/// Whether the index holds, for each file of `files`, a time that is not
/// earlier than the file's own.
pub open spec fn covers(index: Map<Seq<char>, u64>, files: Seq<(Seq<char>, u64)>) -> bool {
    forall|i: int| 0 <= i < files.len() ==> recorded(index, #[trigger] path_at(files, i)) >= files[i].1
}

proof fn lemma_index_after_elsewhere(
    index: Map<Seq<char>, u64>,
    files: Seq<(Seq<char>, u64)>,
    path: Seq<char>,
)
    requires
        !has_path(files, path),
    ensures
        recorded(index_after(index, files), path) == recorded(index, path),
    decreases files.len(),
{
    if files.len() > 0 {
        let rest = files.drop_last();
        assert(path_at(files, files.len() - 1) != path);
        assert forall|i: int| 0 <= i < rest.len() implies #[trigger] path_at(rest, i) != path by {
            assert(path_at(files, i) == path_at(rest, i));
        }
        lemma_index_after_elsewhere(index, rest, path);
    }
}

proof fn lemma_covered_files_are_skipped(index: Map<Seq<char>, u64>, files: Seq<(Seq<char>, u64)>)
    requires
        distinct_paths(files),
        covers(index, files),
    ensures
        to_scan(index, files, false) == Seq::<Seq<char>>::empty(),
    decreases files.len(),
{
    if files.len() > 0 {
        let rest = files.drop_last();
        let last = files.last();
        assert forall|i: int, j: int| 0 <= i < j < rest.len() implies #[trigger] path_at(rest, i)
            != #[trigger] path_at(rest, j) by {
            assert(path_at(files, i) != path_at(files, j));
        }
        assert forall|i: int| 0 <= i < rest.len() implies recorded(
            index,
            #[trigger] path_at(rest, i),
        ) >= rest[i].1 by {
            assert(path_at(files, i) == path_at(rest, i));
        }
        lemma_covered_files_are_skipped(index, rest);
        assert forall|i: int| 0 <= i < rest.len() implies #[trigger] path_at(rest, i)
            != last.0 by {
            assert(path_at(files, i) != path_at(files, files.len() - 1));
        }
        lemma_index_after_elsewhere(index, rest, last.0);
        assert(path_at(files, files.len() - 1) == last.0);
    }
}

proof fn lemma_index_after_covers(index: Map<Seq<char>, u64>, files: Seq<(Seq<char>, u64)>)
    requires
        distinct_paths(files),
    ensures
        covers(index_after(index, files), files),
    decreases files.len(),
{
    if files.len() > 0 {
        let rest = files.drop_last();
        let last = files.last();
        assert forall|i: int, j: int| 0 <= i < j < rest.len() implies #[trigger] path_at(rest, i)
            != #[trigger] path_at(rest, j) by {
            assert(path_at(files, i) != path_at(files, j));
        }
        lemma_index_after_covers(index, rest);
        assert forall|i: int| 0 <= i < files.len() implies recorded(
            index_after(index, files),
            #[trigger] path_at(files, i),
        ) >= files[i].1 by {
            if i < rest.len() {
                assert(path_at(files, i) != path_at(files, files.len() - 1));
                assert(path_at(rest, i) == path_at(files, i));
            }
        }
    }
}

/// A scan that follows another, and finds the same files unchanged, reads
/// none of them again, unless it is a full scan.
pub proof fn second_scan_reads_nothing(index: Map<Seq<char>, u64>, files: Seq<(Seq<char>, u64)>)
    requires
        distinct_paths(files),
    ensures
        to_scan(index_after(index, files), files, false) == Seq::<Seq<char>>::empty(),
{
    lemma_index_after_covers(index, files);
    lemma_covered_files_are_skipped(index_after(index, files), files);
}

/// A full scan reads every file, whatever the index holds.
pub proof fn full_scan_reads_everything(index: Map<Seq<char>, u64>, files: Seq<(Seq<char>, u64)>)
    ensures
        to_scan(index, files, true) == files.map_values(|f: (Seq<char>, u64)| f.0),
    decreases files.len(),
{
    if files.len() > 0 {
        full_scan_reads_everything(index, files.drop_last());
        assert(to_scan(index, files, true) =~= files.map_values(|f: (Seq<char>, u64)| f.0));
    } else {
        assert(to_scan(index, files, true) =~= files.map_values(|f: (Seq<char>, u64)| f.0));
    }
}

} // verus!
