//! Which files an index pass over one scan root has to (re)read, which it
//! may skip, and which indexed paths have gone from disk.

use vstd::prelude::*;
use vstd::hash_map::StringHashMap;
use vstd::hash_set::StringHashSet;

use crate::text::chars_of;

verus! {

broadcast use vstd::string::group_string_axioms;

// ---------------------------------------------------------------------------
// Model
// ---------------------------------------------------------------------------

/// `(path, modification time)` entries as plain values.
pub open spec fn entries_view(rows: Seq<(String, i64)>) -> Seq<(Seq<char>, i64)> {
    rows.map_values(|r: (String, i64)| (r.0@, r.1))
}

/// The path → modification time map of `rows` (a later entry for a path wins).
pub open spec fn mtime_map(rows: Seq<(Seq<char>, i64)>) -> Map<Seq<char>, i64>
    decreases rows.len(),
{
    if rows.len() == 0 {
        Map::empty()
    } else {
        mtime_map(rows.drop_last()).insert(rows.last().0, rows.last().1)
    }
}

/// The files that need reading, in order: `(index, is_new)` for each file
/// whose path is not indexed (`true`) or is indexed with another
/// modification time (`false`).
pub open spec fn work_spec(files: Seq<(Seq<char>, i64)>, indexed: Map<Seq<char>, i64>) -> Seq<
    (int, bool),
>
    decreases files.len(),
{
    if files.len() == 0 {
        Seq::empty()
    } else {
        let w = work_spec(files.drop_last(), indexed);
        let i = files.len() - 1;
        let p = files.last().0;
        if !indexed.contains_key(p) {
            w.push((i, true))
        } else if indexed[p] != files.last().1 {
            w.push((i, false))
        } else {
            w
        }
    }
}

/// How many files are indexed with their current modification time.
pub open spec fn skipped_spec(files: Seq<(Seq<char>, i64)>, indexed: Map<Seq<char>, i64>) -> nat
    decreases files.len(),
{
    if files.len() == 0 {
        0
    } else {
        let s = skipped_spec(files.drop_last(), indexed);
        let p = files.last().0;
        if indexed.contains_key(p) && indexed[p] == files.last().1 {
            s + 1
        } else {
            s
        }
    }
}

/// The indexed paths (each once, in order of first appearance) that start
/// with `root` and are not on disk.
pub open spec fn missing_spec(
    root: Seq<char>,
    on_disk: Set<Seq<char>>,
    indexed: Seq<(Seq<char>, i64)>,
) -> Seq<Seq<char>>
    decreases indexed.len(),
{
    if indexed.len() == 0 {
        Seq::empty()
    } else {
        let prev = missing_spec(root, on_disk, indexed.drop_last());
        let p = indexed.last().0;
        if root.is_prefix_of(p) && !on_disk.contains(p) && !mtime_map(
            indexed.drop_last(),
        ).contains_key(p) {
            prev.push(p)
        } else {
            prev
        }
    }
}

pub open spec fn work_view(w: Seq<(usize, bool)>) -> Seq<(int, bool)> {
    w.map_values(|x: (usize, bool)| (x.0 as int, x.1))
}

pub open spec fn strings_view(v: Seq<String>) -> Seq<Seq<char>> {
    v.map_values(|s: String| s@)
}

/// What an index pass does with the files of one root.
pub struct IndexPlan {
    /// `(index into the scanned files, is new)` for each file to read.
    pub work: Vec<(usize, bool)>,
    /// Files already indexed with their current modification time.
    pub skipped: u64,
    /// Indexed paths under the root that are no longer on disk.
    pub missing: Vec<String>,
}

// ---------------------------------------------------------------------------
// Planning
// ---------------------------------------------------------------------------

/// Whether `s` starts with `prefix`.
pub fn starts_with(s: &str, prefix: &str) -> (r: bool)
    ensures
        r == prefix@.is_prefix_of(s@),
{
    let a = chars_of(s);
    let b = chars_of(prefix);
    if b.len() > a.len() {
        return false;
    }
    let mut i: usize = 0;
    while i < b.len()
        invariant
            i <= b@.len() <= a@.len(),
            a@ == s@,
            b@ == prefix@,
            forall|j: int| 0 <= j < i ==> a@[j] == b@[j],
        decreases b@.len() - i,
    {
        if a[i] != b[i] {
            assert(a@.subrange(0, b@.len() as int)[i as int] != b@[i as int]);
            return false;
        }
        i = i + 1;
    }
    assert(b@ =~= a@.subrange(0, b@.len() as int));
    true
}

fn mtime_map_of(rows: &[(String, i64)]) -> (m: StringHashMap<i64>)
    ensures
        m@ == mtime_map(entries_view(rows@)),
{
    let ghost ev = entries_view(rows@);
    let mut m: StringHashMap<i64> = StringHashMap::new();
    let mut i: usize = 0;
    assert(ev.take(0) =~= Seq::<(Seq<char>, i64)>::empty());
    while i < rows.len()
        invariant
            i <= rows@.len(),
            ev == entries_view(rows@),
            m@ == mtime_map(ev.take(i as int)),
        decreases rows@.len() - i,
    {
        assert(ev.take(i + 1).drop_last() =~= ev.take(i as int));
        m.insert(rows[i].0.clone(), rows[i].1);
        i = i + 1;
    }
    assert(ev.take(rows@.len() as int) =~= ev);
    m
}

fn path_set_of(rows: &[(String, i64)]) -> (s: StringHashSet)
    ensures
        s@ == mtime_map(entries_view(rows@)).dom(),
{
    let ghost ev = entries_view(rows@);
    let mut s = StringHashSet::new();
    let mut i: usize = 0;
    assert(ev.take(0) =~= Seq::<(Seq<char>, i64)>::empty());
    assert(mtime_map(ev.take(0)).dom() =~= Set::<Seq<char>>::empty());
    while i < rows.len()
        invariant
            i <= rows@.len(),
            ev == entries_view(rows@),
            s@ == mtime_map(ev.take(i as int)).dom(),
        decreases rows@.len() - i,
    {
        assert(ev.take(i + 1).drop_last() =~= ev.take(i as int));
        s.insert(rows[i].0.clone());
        assert(s@ =~= mtime_map(ev.take(i + 1)).dom());
        i = i + 1;
    }
    assert(ev.take(rows@.len() as int) =~= ev);
    s
}

/// Plans an index pass over the root `root_key`: `files` are the scanned
/// `(path, modification time)` pairs, `indexed` those already in the
/// library. New and changed files are read, unchanged ones skipped, and
/// indexed paths under the root that are gone from disk are reported.
pub fn plan_index_work(root_key: &str, files: &[(String, i64)], indexed: &[(String, i64)]) -> (r:
    IndexPlan)
    ensures
        work_view(r.work@) == work_spec(entries_view(files@), mtime_map(entries_view(indexed@))),
        r.skipped as int == skipped_spec(entries_view(files@), mtime_map(entries_view(indexed@))),
        strings_view(r.missing@) == missing_spec(
            root_key@,
            mtime_map(entries_view(files@)).dom(),
            entries_view(indexed@),
        ),
{
    let ghost fv = entries_view(files@);
    let ghost iv = entries_view(indexed@);
    let known = mtime_map_of(indexed);
    let on_disk = path_set_of(files);

    let mut work: Vec<(usize, bool)> = Vec::new();
    let mut skipped: u64 = 0;
    let mut i: usize = 0;
    assert(fv.take(0) =~= Seq::<(Seq<char>, i64)>::empty());
    assert(work_view(work@) =~= Seq::<(int, bool)>::empty());
    while i < files.len()
        invariant
            i <= files@.len(),
            fv == entries_view(files@),
            known@ == mtime_map(iv),
            iv == entries_view(indexed@),
            work_view(work@) == work_spec(fv.take(i as int), known@),
            skipped as int == skipped_spec(fv.take(i as int), known@),
            skipped <= i,
        decreases files@.len() - i,
    {
        assert(fv.take(i + 1).drop_last() =~= fv.take(i as int));
        assert(fv.take(i + 1).last() == (files@[i as int].0@, files@[i as int].1));
        let (path, mtime) = &files[i];
        match known.get(path.as_str()) {
            None => {
                work.push((i, true));
            },
            Some(m) => {
                if *m != *mtime {
                    work.push((i, false));
                } else {
                    skipped = skipped + 1;
                }
            },
        }
        assert(work_view(work@) =~= work_spec(fv.take(i + 1), known@));
        i = i + 1;
    }
    assert(fv.take(files@.len() as int) =~= fv);

    let mut missing: Vec<String> = Vec::new();
    let mut seen = StringHashSet::new();
    let mut k: usize = 0;
    assert(iv.take(0) =~= Seq::<(Seq<char>, i64)>::empty());
    assert(mtime_map(iv.take(0)).dom() =~= Set::<Seq<char>>::empty());
    assert(strings_view(missing@) =~= Seq::<Seq<char>>::empty());
    while k < indexed.len()
        invariant
            k <= indexed@.len(),
            iv == entries_view(indexed@),
            on_disk@ == mtime_map(fv).dom(),
            seen@ == mtime_map(iv.take(k as int)).dom(),
            strings_view(missing@) == missing_spec(
                root_key@,
                mtime_map(fv).dom(),
                iv.take(k as int),
            ),
        decreases indexed@.len() - k,
    {
        assert(iv.take(k + 1).drop_last() =~= iv.take(k as int));
        let path = &indexed[k].0;
        assert(iv.take(k + 1).last().0 == path@);
        if starts_with(path.as_str(), root_key) && !on_disk.contains(path.as_str())
            && !seen.contains(path.as_str()) {
            missing.push(path.clone());
        }
        seen.insert(path.clone());
        assert(seen@ =~= mtime_map(iv.take(k + 1)).dom());
        assert(strings_view(missing@) =~= missing_spec(
            root_key@,
            mtime_map(fv).dom(),
            iv.take(k + 1),
        ));
        k = k + 1;
    }
    assert(iv.take(indexed@.len() as int) =~= iv);
    IndexPlan { work, skipped, missing }
}

// ---------------------------------------------------------------------------
// Laws
// ---------------------------------------------------------------------------

/// Law: every scanned file is either read or skipped, never both.
pub proof fn law_plan_covers_every_file(files: Seq<(Seq<char>, i64)>, indexed: Map<Seq<char>, i64>)
    ensures
        work_spec(files, indexed).len() + skipped_spec(files, indexed) == files.len(),
    decreases files.len(),
{
    if files.len() > 0 {
        law_plan_covers_every_file(files.drop_last(), indexed);
    }
}

/// Law: a pass over files that are all indexed with their current
/// modification times reads nothing and skips them all.
pub proof fn law_rescan_skips_unchanged(files: Seq<(Seq<char>, i64)>, indexed: Map<Seq<char>, i64>)
    requires
        forall|i: int|
            0 <= i < files.len() ==> #[trigger] indexed.contains_key(files[i].0) && indexed[files[i].0]
                == files[i].1,
    ensures
        work_spec(files, indexed).len() == 0,
        skipped_spec(files, indexed) == files.len(),
    decreases files.len(),
{
    if files.len() > 0 {
        let head = files.drop_last();
        assert forall|i: int| 0 <= i < head.len() implies #[trigger] indexed.contains_key(head[i].0)
            && indexed[head[i].0] == head[i].1 by {
            assert(head[i] == files[i]);
            assert(indexed.contains_key(files[i].0));
        }
        law_rescan_skips_unchanged(head, indexed);
        assert(indexed.contains_key(files[files.len() - 1].0));
    }
}

/// Law: a scanned file whose path is not indexed is read as a new file.
pub proof fn law_new_file_is_read(files: Seq<(Seq<char>, i64)>, indexed: Map<Seq<char>, i64>, i: int)
    requires
        0 <= i < files.len(),
        !indexed.contains_key(files[i].0),
    ensures
        work_spec(files, indexed).contains((i, true)),
    decreases files.len(),
{
    let w = work_spec(files, indexed);
    if i == files.len() - 1 {
        assert(w.last() == (i, true));
    } else {
        let head = files.drop_last();
        assert(head[i] == files[i]);
        law_new_file_is_read(head, indexed, i);
        let prev = work_spec(head, indexed);
        let j = choose|j: int| 0 <= j < prev.len() && prev[j] == (i, true);
        assert(w[j] == prev[j]);
    }
}

/// Law: an indexed path under the root that is not on disk is reported
/// missing.
pub proof fn law_gone_file_is_missing(
    root: Seq<char>,
    on_disk: Set<Seq<char>>,
    indexed: Seq<(Seq<char>, i64)>,
    i: int,
)
    requires
        0 <= i < indexed.len(),
        root.is_prefix_of(indexed[i].0),
        !on_disk.contains(indexed[i].0),
    ensures
        missing_spec(root, on_disk, indexed).contains(indexed[i].0),
    decreases indexed.len(),
{
    let p = indexed[i].0;
    let r = missing_spec(root, on_disk, indexed);
    let head = indexed.drop_last();
    if i == indexed.len() - 1 {
        if mtime_map(head).contains_key(p) {
            lemma_key_has_entry(head, p);
            let k = choose|k: int| 0 <= k < head.len() && head[k].0 == p;
            law_gone_file_is_missing(root, on_disk, head, k);
            let prev = missing_spec(root, on_disk, head);
            let j = choose|j: int| 0 <= j < prev.len() && prev[j] == p;
            assert(r[j] == prev[j]);
        } else {
            assert(r.last() == p);
        }
    } else {
        assert(head[i] == indexed[i]);
        law_gone_file_is_missing(root, on_disk, head, i);
        let prev = missing_spec(root, on_disk, head);
        let j = choose|j: int| 0 <= j < prev.len() && prev[j] == p;
        assert(r[j] == prev[j]);
    }
}

/// Every key of `mtime_map(rows)` comes from some entry.
proof fn lemma_key_has_entry(rows: Seq<(Seq<char>, i64)>, p: Seq<char>)
    requires
        mtime_map(rows).contains_key(p),
    ensures
        exists|k: int| 0 <= k < rows.len() && rows[k].0 == p,
    decreases rows.len(),
{
    let head = rows.drop_last();
    if rows.last().0 != p {
        lemma_key_has_entry(head, p);
        let k = choose|k: int| 0 <= k < head.len() && head[k].0 == p;
        assert(rows[k] == head[k]);
    }
}

} // verus!
