//! The nested folder tree shown in the sidebar, built from flat
//! `(folder, file count)` rows.

use vstd::prelude::*;

use crate::models::FolderNode;
use crate::text::{char_seqs, chars_of, is_sep, lemma_pieces_clean, pieces, split_pieces, string_of, Separators};

verus! {

broadcast use vstd::string::group_string_axioms;

// ---------------------------------------------------------------------------
// Model
// ---------------------------------------------------------------------------

/// A folder node as a plain value.
pub struct FolderTreeV {
    pub name: Seq<char>,
    pub path: Seq<char>,
    pub count: u64,
    pub children: Seq<FolderTreeV>,
}

/// A node as a plain value.
pub open spec fn node_view(n: FolderNode) -> FolderTreeV
    decreases n,
{
    FolderTreeV {
        name: n.name@,
        path: n.path@,
        count: n.count,
        children: forest_view(n.children@),
    }
}

/// A list of nodes as plain values.
pub open spec fn forest_view(s: Seq<FolderNode>) -> Seq<FolderTreeV>
    decreases s,
{
    if s.len() == 0 {
        Seq::empty()
    } else {
        forest_view(s.drop_last()).push(node_view(s.last()))
    }
}

pub proof fn lemma_forest_view(s: Seq<FolderNode>)
    ensures
        forest_view(s).len() == s.len(),
        forall|i: int| 0 <= i < s.len() ==> #[trigger] forest_view(s)[i] == node_view(s[i]),
    decreases s.len(),
{
    if s.len() > 0 {
        lemma_forest_view(s.drop_last());
    }
}

/// Whether `a` sorts strictly before `b`: character-wise by code point, a
/// proper prefix first (the order of `String` keys).
pub open spec fn name_lt(a: Seq<char>, b: Seq<char>) -> bool
    decreases a.len(),
{
    if b.len() == 0 {
        false
    } else if a.len() == 0 {
        true
    } else if a[0] != b[0] {
        (a[0] as u32) < (b[0] as u32)
    } else {
        name_lt(a.drop_first(), b.drop_first())
    }
}

/// The index of the node named `name`, if there is one (the first).
pub open spec fn find_name(f: Seq<FolderTreeV>, name: Seq<char>) -> Option<int>
    decreases f.len(),
{
    if f.len() == 0 {
        None
    } else if f[0].name == name {
        Some(0)
    } else {
        match find_name(f.drop_first(), name) {
            Some(i) => Some(i + 1),
            None => None,
        }
    }
}

/// Where a new node named `name` goes: before the first node that does not
/// sort before it.
pub open spec fn insert_pos(f: Seq<FolderTreeV>, name: Seq<char>) -> int
    decreases f.len(),
{
    if f.len() == 0 {
        0
    } else if !name_lt(f[0].name, name) {
        0
    } else {
        insert_pos(f.drop_first(), name) + 1
    }
}

/// The path of child `name` under a node whose path is `prefix`.
pub open spec fn child_path(prefix: Seq<char>, name: Seq<char>) -> Seq<char> {
    prefix + seq!['/'] + name
}

/// Records the folder `segs` (below the node with path `prefix`) holding
/// `count` files: walks or creates one node per segment, keeping each level
/// sorted by name; the last segment's node gets the count.
pub open spec fn insert_segs(
    f: Seq<FolderTreeV>,
    segs: Seq<Seq<char>>,
    prefix: Seq<char>,
    count: u64,
) -> Seq<FolderTreeV>
    decreases segs.len(),
{
    if segs.len() == 0 {
        f
    } else {
        let name = segs[0];
        let path = child_path(prefix, name);
        let last = segs.len() == 1;
        match find_name(f, name) {
            Some(i) => {
                let n = f[i];
                let n2 = if last {
                    FolderTreeV { name: n.name, path, count, children: n.children }
                } else {
                    FolderTreeV {
                        name: n.name,
                        path: n.path,
                        count: n.count,
                        children: insert_segs(n.children, segs.drop_first(), path, count),
                    }
                };
                f.update(i, n2)
            },
            None => {
                let n2 = FolderTreeV {
                    name,
                    path,
                    count: if last {
                        count
                    } else {
                        0
                    },
                    children: if last {
                        Seq::empty()
                    } else {
                        insert_segs(Seq::empty(), segs.drop_first(), path, count)
                    },
                };
                f.insert(insert_pos(f, name), n2)
            },
        }
    }
}

/// The folder rows as plain values.
pub open spec fn rows_view(rows: Seq<(String, u64)>) -> Seq<(Seq<char>, u64)> {
    rows.map_values(|r: (String, u64)| (r.0@, r.1))
}

/// The tree of `rows`: each row's folder, split on `/` into non-empty
/// segments, recorded in order (later rows for the same folder win).
pub open spec fn folder_tree_spec(rows: Seq<(Seq<char>, u64)>) -> Seq<FolderTreeV>
    decreases rows.len(),
{
    if rows.len() == 0 {
        Seq::empty()
    } else {
        let f = folder_tree_spec(rows.drop_last());
        let segs = pieces(rows.last().0, Separators::Slash);
        if segs.len() == 0 {
            f
        } else {
            insert_segs(f, segs, Seq::empty(), rows.last().1)
        }
    }
}

// ---------------------------------------------------------------------------
// Building
// ---------------------------------------------------------------------------

fn names_lt(a: &[char], b: &[char]) -> (r: bool)
    ensures
        r == name_lt(a@, b@),
{
    let mut i: usize = 0;
    assert(a@.skip(0) =~= a@);
    assert(b@.skip(0) =~= b@);
    while i < a.len() && i < b.len() && a[i] == b[i]
        invariant
            i <= a@.len(),
            i <= b@.len(),
            name_lt(a@, b@) == name_lt(a@.skip(i as int), b@.skip(i as int)),
        decreases a@.len() - i,
    {
        assert(a@.skip(i as int).drop_first() =~= a@.skip(i + 1));
        assert(b@.skip(i as int).drop_first() =~= b@.skip(i + 1));
        i = i + 1;
    }
    if i == b.len() {
        false
    } else if i == a.len() {
        true
    } else {
        (a[i] as u32) < (b[i] as u32)
    }
}

fn find_node(f: &Vec<FolderNode>, name: &String) -> (r: Option<usize>)
    ensures
        match r {
            Some(i) => find_name(forest_view(f@), name@) == Some(i as int),
            None => find_name(forest_view(f@), name@) is None,
        },
        r matches Some(i) ==> i < f@.len(),
{
    proof {
        lemma_forest_view(f@);
    }
    let ghost fv = forest_view(f@);
    let mut i: usize = 0;
    assert(fv.skip(0) =~= fv);
    while i < f.len()
        invariant
            i <= f@.len(),
            fv == forest_view(f@),
            fv.len() == f@.len(),
            forall|j: int| 0 <= j < f@.len() ==> #[trigger] fv[j] == node_view(f@[j]),
            forall|j: int| 0 <= j < i ==> fv[j].name != name@,
            find_name(fv, name@) == match find_name(fv.skip(i as int), name@) {
                Some(k) => Some(k + i),
                None => None,
            },
        decreases f@.len() - i,
    {
        if f[i].name == *name {
            return Some(i);
        }
        assert(fv.skip(i as int).drop_first() =~= fv.skip(i + 1));
        i = i + 1;
    }
    None
}

fn find_insert_pos(f: &Vec<FolderNode>, name: &Vec<char>) -> (r: usize)
    ensures
        r as int == insert_pos(forest_view(f@), name@),
        r <= f@.len(),
{
    proof {
        lemma_forest_view(f@);
    }
    let ghost fv = forest_view(f@);
    let mut i: usize = 0;
    assert(fv.skip(0) =~= fv);
    while i < f.len()
        invariant
            i <= f@.len(),
            fv == forest_view(f@),
            fv.len() == f@.len(),
            forall|j: int| 0 <= j < f@.len() ==> #[trigger] fv[j] == node_view(f@[j]),
            insert_pos(fv, name@) == insert_pos(fv.skip(i as int), name@) + i,
        decreases f@.len() - i,
    {
        let n = chars_of(f[i].name.as_str());
        if !names_lt(&n, name) {
            return i;
        }
        assert(fv.skip(i as int).drop_first() =~= fv.skip(i + 1));
        i = i + 1;
    }
    i
}

/// Executable form of [`insert_segs`] for the segments `segs[k..]`.
fn insert_path(
    f: Vec<FolderNode>,
    segs: &Vec<Vec<char>>,
    k: usize,
    prefix: &Vec<char>,
    count: u64,
) -> (r: Vec<FolderNode>)
    requires
        k <= segs@.len(),
    ensures
        forest_view(r@) == insert_segs(
            forest_view(f@),
            char_seqs(segs@).skip(k as int),
            prefix@,
            count,
        ),
    decreases segs@.len() - k,
{
    let ghost sv = char_seqs(segs@).skip(k as int);
    if k == segs.len() {
        assert(sv.len() == 0);
        return f;
    }
    assert(sv[0] == segs@[k as int]@);
    assert(char_seqs(segs@).skip(k + 1) =~= sv.drop_first());
    let name_chars = &segs[k];
    let name = string_of(name_chars);
    let mut path_chars: Vec<char> = Vec::new();
    crate::text::append_chars(&mut path_chars, prefix);
    path_chars.push('/');
    crate::text::append_chars(&mut path_chars, name_chars);
    assert(path_chars@ =~= child_path(prefix@, name_chars@));
    let last = k + 1 == segs.len();
    let mut f = f;
    proof {
        lemma_forest_view(f@);
    }
    let ghost fv = forest_view(f@);
    match find_node(&f, &name) {
        Some(i) => {
            let old_node = f.remove(i);
            let FolderNode { name: n_name, path: n_path, count: n_count, children } = old_node;
            let new_node = if last {
                FolderNode { name: n_name, path: string_of(&path_chars), count, children }
            } else {
                let c2 = insert_path(children, segs, k + 1, &path_chars, count);
                FolderNode { name: n_name, path: n_path, count: n_count, children: c2 }
            };
            let ghost nv = node_view(new_node);
            f.insert(i, new_node);
            proof {
                lemma_forest_view(f@);
                assert(forest_view(f@) =~= fv.update(i as int, nv));
            }
            f
        },
        None => {
            let pos = find_insert_pos(&f, name_chars);
            let new_node = if last {
                FolderNode { name, path: string_of(&path_chars), count, children: Vec::new() }
            } else {
                let c2 = insert_path(Vec::new(), segs, k + 1, &path_chars, count);
                FolderNode { name, path: string_of(&path_chars), count: 0, children: c2 }
            };
            let ghost nv = node_view(new_node);
            proof {
                let e: Seq<FolderNode> = Seq::empty();
                assert(forest_view(e) =~= Seq::<FolderTreeV>::empty());
            }
            f.insert(pos, new_node);
            proof {
                lemma_forest_view(f@);
                assert(forest_view(f@) =~= fv.insert(pos as int, nv));
            }
            f
        },
    }
}

/// Builds nested folder nodes from flat `(folder, file count)` rows: one
/// node per folder and per ancestor folder, children sorted by name, each
/// node's path the `/`-joined segments leading to it, each row's count on
/// its folder's node (ancestors without a row count zero).
pub fn build_folder_tree(flat: &[(String, u64)]) -> (r: Vec<FolderNode>)
    ensures
        forest_view(r@) == folder_tree_spec(rows_view(flat@)),
{
    let ghost rv = rows_view(flat@);
    let mut forest: Vec<FolderNode> = Vec::new();
    let empty_prefix: Vec<char> = Vec::new();
    let mut i: usize = 0;
    proof {
        let e: Seq<FolderNode> = Seq::empty();
        assert(forest_view(e) =~= Seq::<FolderTreeV>::empty());
        assert(rv.take(0) =~= Seq::<(Seq<char>, u64)>::empty());
    }
    while i < flat.len()
        invariant
            i <= flat@.len(),
            rv == rows_view(flat@),
            empty_prefix@ == Seq::<char>::empty(),
            forest_view(forest@) == folder_tree_spec(rv.take(i as int)),
        decreases flat@.len() - i,
    {
        let (folder, count) = &flat[i];
        let chars = chars_of(folder.as_str());
        let segs = split_pieces(&chars, Separators::Slash);
        assert(rv.take(i + 1).drop_last() =~= rv.take(i as int));
        assert(rv.take(i + 1).last() == (folder@, *count));
        if segs.len() > 0 {
            assert(char_seqs(segs@).skip(0) =~= char_seqs(segs@));
            forest = insert_path(forest, &segs, 0, &empty_prefix, *count);
        }
        i = i + 1;
    }
    assert(rv.take(flat@.len() as int) =~= rv);
    forest
}

// ---------------------------------------------------------------------------
// Laws
// ---------------------------------------------------------------------------

pub proof fn lemma_name_lt_irreflexive(a: Seq<char>)
    ensures
        !name_lt(a, a),
    decreases a.len(),
{
    if a.len() > 0 {
        lemma_name_lt_irreflexive(a.drop_first());
    }
}

pub proof fn lemma_name_lt_transitive(a: Seq<char>, b: Seq<char>, c: Seq<char>)
    requires
        name_lt(a, b),
        name_lt(b, c),
    ensures
        name_lt(a, c),
    decreases a.len(),
{
    if a.len() > 0 && b.len() > 0 && c.len() > 0 && a[0] == b[0] && b[0] == c[0] {
        lemma_name_lt_transitive(a.drop_first(), b.drop_first(), c.drop_first());
    }
}

pub proof fn lemma_name_lt_total(a: Seq<char>, b: Seq<char>)
    requires
        a != b,
    ensures
        name_lt(a, b) || name_lt(b, a),
    decreases a.len(),
{
    if a.len() > 0 && b.len() > 0 {
        if a[0] == b[0] {
            if a.drop_first() == b.drop_first() {
                assert(a =~= seq![a[0]] + a.drop_first());
                assert(b =~= seq![b[0]] + b.drop_first());
            }
            lemma_name_lt_total(a.drop_first(), b.drop_first());
        } else if (a[0] as u32) == (b[0] as u32) {
            let u = a[0] as u32;
            vstd::utf8::char_u32_cast(a[0], u);
            vstd::utf8::char_u32_cast(b[0], u);
        }
    } else if a.len() == 0 && b.len() == 0 {
        assert(a =~= b);
    }
}

/// Nodes of one level in strictly increasing name order (so names are unique).
pub open spec fn level_sorted(f: Seq<FolderTreeV>) -> bool {
    forall|i: int, j: int| 0 <= i < j < f.len() ==> name_lt(#[trigger] f[i].name, #[trigger] f[j].name)
}

/// Every level of the forest is in strictly increasing name order.
pub open spec fn well_sorted(f: Seq<FolderTreeV>) -> bool
    decreases f,
{
    &&& level_sorted(f)
    &&& forall|i: int| 0 <= i < f.len() ==> well_sorted(#[trigger] f[i].children)
}

proof fn lemma_find_name(f: Seq<FolderTreeV>, name: Seq<char>)
    ensures
        find_name(f, name) matches Some(i) ==> 0 <= i < f.len() && f[i].name == name && forall|
            j: int,
        |
            0 <= j < i ==> f[j].name != name,
        find_name(f, name) is None ==> forall|j: int| 0 <= j < f.len() ==> f[j].name != name,
    decreases f.len(),
{
    if f.len() > 0 {
        lemma_find_name(f.drop_first(), name);
        assert forall|j: int| 0 < j < f.len() implies f[j] == f.drop_first()[j - 1] by {}
    }
}

/// `find_name` gives the first node with that name.
proof fn lemma_find_name_at(f: Seq<FolderTreeV>, name: Seq<char>, i: int)
    requires
        0 <= i < f.len(),
        f[i].name == name,
        forall|j: int| 0 <= j < i ==> f[j].name != name,
    ensures
        find_name(f, name) == Some(i),
    decreases i,
{
    if i > 0 {
        assert forall|j: int| 0 <= j < i - 1 implies f.drop_first()[j].name != name by {
            assert(f.drop_first()[j] == f[j + 1]);
        }
        lemma_find_name_at(f.drop_first(), name, i - 1);
    }
}

/// Replacing a node by one of the same name leaves every lookup by name as it was.
proof fn lemma_find_name_update(f: Seq<FolderTreeV>, k: int, x: FolderTreeV, name: Seq<char>)
    requires
        0 <= k < f.len(),
        x.name == f[k].name,
    ensures
        find_name(f.update(k, x), name) == find_name(f, name),
{
    let g = f.update(k, x);
    lemma_find_name(f, name);
    lemma_find_name(g, name);
    if let Some(i) = find_name(f, name) {
        lemma_find_name_at(g, name, i);
    } else if let Some(i) = find_name(g, name) {
        assert(f[i].name == g[i].name);
    }
}

/// Inserting a node of another name keeps each lookup on the same node.
proof fn lemma_find_name_insert(f: Seq<FolderTreeV>, p: int, x: FolderTreeV, name: Seq<char>)
    requires
        0 <= p <= f.len(),
        x.name != name,
        find_name(f, name) is Some,
    ensures
        find_name(f.insert(p, x), name) matches Some(k) && f.insert(p, x)[k] == f[find_name(
            f,
            name,
        )->0],
{
    let g = f.insert(p, x);
    lemma_find_name(f, name);
    let i = find_name(f, name)->0;
    let k = if i < p {
        i
    } else {
        i + 1
    };
    assert forall|j: int| 0 <= j < k implies g[j].name != name by {
        if j < p {
            assert(g[j] == f[j]);
        } else if j > p {
            assert(g[j] == f[j - 1]);
        }
    }
    lemma_find_name_at(g, name, k);
}

proof fn lemma_insert_pos(f: Seq<FolderTreeV>, name: Seq<char>)
    ensures
        0 <= insert_pos(f, name) <= f.len(),
        forall|j: int| 0 <= j < insert_pos(f, name) ==> name_lt(f[j].name, name),
        insert_pos(f, name) < f.len() ==> !name_lt(f[insert_pos(f, name)].name, name),
    decreases f.len(),
{
    if f.len() > 0 && name_lt(f[0].name, name) {
        lemma_insert_pos(f.drop_first(), name);
        assert forall|j: int| 0 <= j < insert_pos(f, name) implies name_lt(f[j].name, name) by {
            if j > 0 {
                assert(f[j] == f.drop_first()[j - 1]);
            }
        }
    }
}

proof fn lemma_empty_well_sorted()
    ensures
        well_sorted(Seq::<FolderTreeV>::empty()),
{
}

/// Recording a folder keeps every level of a well-sorted forest sorted.
pub proof fn lemma_insert_segs_well_sorted(
    f: Seq<FolderTreeV>,
    segs: Seq<Seq<char>>,
    prefix: Seq<char>,
    count: u64,
)
    requires
        well_sorted(f),
    ensures
        well_sorted(insert_segs(f, segs, prefix, count)),
    decreases segs.len(),
{
    if segs.len() == 0 {
        return;
    }
    let name = segs[0];
    let path = child_path(prefix, name);
    let last = segs.len() == 1;
    lemma_find_name(f, name);
    let r = insert_segs(f, segs, prefix, count);
    match find_name(f, name) {
        Some(i) => {
            let n = f[i];
            assert(well_sorted(n.children));
            if !last {
                lemma_insert_segs_well_sorted(n.children, segs.drop_first(), path, count);
            }
            assert(r.len() == f.len());
            assert forall|a: int, b: int| 0 <= a < b < r.len() implies name_lt(
                #[trigger] r[a].name,
                #[trigger] r[b].name,
            ) by {
                assert(r[a].name == f[a].name);
                assert(r[b].name == f[b].name);
            }
            assert forall|j: int| 0 <= j < r.len() implies well_sorted(#[trigger] r[j].children) by {
                if j != i {
                    assert(well_sorted(f[j].children));
                }
            }
        },
        None => {
            let pos = insert_pos(f, name);
            lemma_insert_pos(f, name);
            if !last {
                lemma_empty_well_sorted();
                lemma_insert_segs_well_sorted(Seq::empty(), segs.drop_first(), path, count);
            }
            assert(r.len() == f.len() + 1);
            assert forall|a: int, b: int| 0 <= a < b < r.len() implies name_lt(
                #[trigger] r[a].name,
                #[trigger] r[b].name,
            ) by {
                if b < pos {
                    assert(r[a] == f[a] && r[b] == f[b]);
                } else if b == pos {
                    assert(r[a] == f[a]);
                } else if a < pos {
                    assert(r[a] == f[a] && r[b] == f[b - 1]);
                    assert(name_lt(f[a].name, name));
                    assert(f[pos].name != name);
                    lemma_name_lt_total(f[pos].name, name);
                    if pos < b - 1 {
                        lemma_name_lt_transitive(name, f[pos].name, f[b - 1].name);
                    }
                    lemma_name_lt_transitive(f[a].name, name, f[b - 1].name);
                } else if a == pos {
                    assert(r[b] == f[b - 1]);
                    assert(f[pos].name != name);
                    lemma_name_lt_total(f[pos].name, name);
                    if pos < b - 1 {
                        lemma_name_lt_transitive(name, f[pos].name, f[b - 1].name);
                    }
                } else {
                    assert(r[a] == f[a - 1] && r[b] == f[b - 1]);
                }
            }
            assert forall|j: int| 0 <= j < r.len() implies well_sorted(#[trigger] r[j].children) by {
                if j < pos {
                    assert(well_sorted(f[j].children));
                } else if j > pos {
                    assert(r[j] == f[j - 1]);
                    assert(well_sorted(f[j - 1].children));
                }
            }
        },
    }
}

/// The node reached by following the segments `segs` down from `f`.
pub open spec fn lookup(f: Seq<FolderTreeV>, segs: Seq<Seq<char>>) -> Option<FolderTreeV>
    decreases segs.len(),
{
    if segs.len() == 0 {
        None
    } else {
        match find_name(f, segs[0]) {
            None => None,
            Some(i) => if segs.len() == 1 {
                Some(f[i])
            } else {
                lookup(f[i].children, segs.drop_first())
            },
        }
    }
}

/// The path of the node reached by `segs` below the path `prefix`.
pub open spec fn segs_path(prefix: Seq<char>, segs: Seq<Seq<char>>) -> Seq<char>
    decreases segs.len(),
{
    if segs.len() == 0 {
        prefix
    } else {
        segs_path(child_path(prefix, segs[0]), segs.drop_first())
    }
}

proof fn lemma_seqs_eq_by_head(a: Seq<Seq<char>>, b: Seq<Seq<char>>)
    requires
        a.len() > 0,
        b.len() > 0,
        a[0] == b[0],
        a.drop_first() == b.drop_first(),
    ensures
        a == b,
{
    assert(a =~= seq![a[0]] + a.drop_first());
    assert(b =~= seq![b[0]] + b.drop_first());
}

/// After recording `segs`, the node they lead to holds the recorded count and
/// the path made of those segments.
proof fn lemma_insert_segs_hit(f: Seq<FolderTreeV>, segs: Seq<Seq<char>>, prefix: Seq<char>, count: u64)
    requires
        segs.len() > 0,
    ensures
        lookup(insert_segs(f, segs, prefix, count), segs) matches Some(n) && n.count == count
            && n.path == segs_path(prefix, segs),
    decreases segs.len(),
{
    let name = segs[0];
    let path = child_path(prefix, name);
    let r = insert_segs(f, segs, prefix, count);
    lemma_find_name(f, name);
    assert(segs_path(prefix, segs) == segs_path(path, segs.drop_first()));
    if segs.len() == 1 {
        assert(segs_path(path, segs.drop_first()) == path);
    }
    match find_name(f, name) {
        Some(i) => {
            lemma_find_name_update(f, i, r[i], name);
            assert(r == f.update(i, r[i]));
            if segs.len() > 1 {
                lemma_insert_segs_hit(f[i].children, segs.drop_first(), path, count);
            }
        },
        None => {
            let pos = insert_pos(f, name);
            lemma_insert_pos(f, name);
            assert forall|j: int| 0 <= j < pos implies r[j].name != name by {
                assert(r[j] == f[j]);
            }
            lemma_find_name_at(r, name, pos);
            if segs.len() > 1 {
                lemma_insert_segs_hit(Seq::empty(), segs.drop_first(), path, count);
            }
        },
    }
}

/// Recording `segs` leaves the node of any other segments where it was, with
/// its count and path.
proof fn lemma_insert_segs_frame(
    f: Seq<FolderTreeV>,
    segs: Seq<Seq<char>>,
    prefix: Seq<char>,
    count: u64,
    other: Seq<Seq<char>>,
)
    requires
        segs.len() > 0,
        other != segs,
        lookup(f, other) is Some,
    ensures
        lookup(insert_segs(f, segs, prefix, count), other) matches Some(n) && n.count == lookup(
            f,
            other,
        )->0.count && n.path == lookup(f, other)->0.path,
    decreases segs.len(),
{
    let name = segs[0];
    let path = child_path(prefix, name);
    let r = insert_segs(f, segs, prefix, count);
    lemma_find_name(f, name);
    lemma_find_name(f, other[0]);
    let k = find_name(f, other[0])->0;
    match find_name(f, name) {
        Some(i) => {
            lemma_find_name_update(f, i, r[i], other[0]);
            assert(r == f.update(i, r[i]));
            if k == i {
                if other.len() == 1 {
                    if segs.len() == 1 {
                        assert(segs.drop_first() =~= other.drop_first());
                        lemma_seqs_eq_by_head(segs, other);
                    }
                } else if segs.len() > 1 {
                    if segs.drop_first() == other.drop_first() {
                        lemma_seqs_eq_by_head(segs, other);
                    }
                    lemma_insert_segs_frame(
                        f[i].children,
                        segs.drop_first(),
                        path,
                        count,
                        other.drop_first(),
                    );
                }
            }
        },
        None => {
            let pos = insert_pos(f, name);
            lemma_insert_pos(f, name);
            lemma_find_name_insert(f, pos, r[pos], other[0]);
            assert(r == f.insert(pos, r[pos]));
        },
    }
}

/// Law: the node of a row's folder holds that row's count and the path made
/// of its segments, unless a later row names the same folder.
pub proof fn law_folder_tree_row_count(rows: Seq<(Seq<char>, u64)>, i: int)
    requires
        0 <= i < rows.len(),
        pieces(rows[i].0, Separators::Slash).len() > 0,
        forall|j: int|
            i < j < rows.len() ==> #[trigger] pieces(rows[j].0, Separators::Slash) != pieces(
                rows[i].0,
                Separators::Slash,
            ),
    ensures
        lookup(folder_tree_spec(rows), pieces(rows[i].0, Separators::Slash)) matches Some(n)
            && n.count == rows[i].1 && n.path == segs_path(
            Seq::empty(),
            pieces(rows[i].0, Separators::Slash),
        ),
    decreases rows.len(),
{
    let segs = pieces(rows[i].0, Separators::Slash);
    let last = pieces(rows.last().0, Separators::Slash);
    if i == rows.len() - 1 {
        lemma_insert_segs_hit(folder_tree_spec(rows.drop_last()), segs, Seq::empty(), rows[i].1);
    } else {
        let head = rows.drop_last();
        assert(head[i] == rows[i]);
        assert forall|j: int| i < j < head.len() implies #[trigger] pieces(
            head[j].0,
            Separators::Slash,
        ) != segs by {
            assert(head[j] == rows[j]);
        }
        law_folder_tree_row_count(head, i);
        assert(pieces(rows[rows.len() - 1].0, Separators::Slash) != segs);
        if last.len() > 0 {
            lemma_insert_segs_frame(
                folder_tree_spec(head),
                last,
                Seq::empty(),
                rows.last().1,
                segs,
            );
        }
    }
}

/// Law: the siblings of a sorted level have distinct names.
pub proof fn law_sorted_level_names_distinct(f: Seq<FolderTreeV>)
    requires
        level_sorted(f),
    ensures
        forall|i: int, j: int| 0 <= i < j < f.len() ==> #[trigger] f[i].name != #[trigger] f[j].name,
{
    assert forall|i: int, j: int| 0 <= i < j < f.len() implies #[trigger] f[i].name != #[trigger] f[j].name by {
        assert(name_lt(f[i].name, f[j].name));
        if f[i].name == f[j].name {
            lemma_name_lt_irreflexive(f[i].name);
        }
    }
}

/// Law: every level of the folder tree is in strictly increasing name order,
/// so no two siblings share a name.
pub proof fn law_folder_tree_sorted(rows: Seq<(Seq<char>, u64)>)
    ensures
        well_sorted(folder_tree_spec(rows)),
    decreases rows.len(),
{
    if rows.len() == 0 {
        lemma_empty_well_sorted();
    } else {
        law_folder_tree_sorted(rows.drop_last());
        let segs = pieces(rows.last().0, Separators::Slash);
        if segs.len() > 0 {
            lemma_insert_segs_well_sorted(
                folder_tree_spec(rows.drop_last()),
                segs,
                Seq::empty(),
                rows.last().1,
            );
        }
    }
}

/// Every node of `f` (below a parent with path `prefix`) has a non-empty
/// name without `/`, and its path is its parent's path, `/`, and its name;
/// likewise at every level below.
pub open spec fn paths_well_formed(f: Seq<FolderTreeV>, prefix: Seq<char>) -> bool
    decreases f,
{
    forall|i: int|
        0 <= i < f.len() ==> {
            &&& (#[trigger] f[i]).name.len() > 0
            &&& forall|t: int| 0 <= t < f[i].name.len() ==> f[i].name[t] != '/'
            &&& f[i].path == child_path(prefix, f[i].name)
            &&& paths_well_formed(f[i].children, f[i].path)
        }
}

/// Recording a folder whose segments are non-empty and free of `/` keeps
/// names and paths well formed.
proof fn lemma_insert_segs_paths(f: Seq<FolderTreeV>, segs: Seq<Seq<char>>, prefix: Seq<char>, count: u64)
    requires
        paths_well_formed(f, prefix),
        forall|j: int|
            0 <= j < segs.len() ==> (#[trigger] segs[j]).len() > 0 && forall|t: int|
                0 <= t < segs[j].len() ==> segs[j][t] != '/',
    ensures
        paths_well_formed(insert_segs(f, segs, prefix, count), prefix),
    decreases segs.len(),
{
    if segs.len() == 0 {
        return;
    }
    let name = segs[0];
    let path = child_path(prefix, name);
    let last = segs.len() == 1;
    let rest = segs.drop_first();
    assert forall|j: int| 0 <= j < rest.len() implies (#[trigger] rest[j]).len() > 0 && forall|t: int|
        0 <= t < rest[j].len() ==> rest[j][t] != '/' by {
        assert(rest[j] == segs[j + 1]);
    }
    lemma_find_name(f, name);
    let r = insert_segs(f, segs, prefix, count);
    match find_name(f, name) {
        Some(i) => {
            let n = f[i];
            assert(n.path == path);
            if !last {
                lemma_insert_segs_paths(n.children, rest, path, count);
            }
            assert(paths_well_formed(r[i].children, r[i].path));
            assert forall|j: int| 0 <= j < r.len() implies {
                &&& (#[trigger] r[j]).name.len() > 0
                &&& forall|t: int| 0 <= t < r[j].name.len() ==> r[j].name[t] != '/'
                &&& r[j].path == child_path(prefix, r[j].name)
                &&& paths_well_formed(r[j].children, r[j].path)
            } by {
                if j != i {
                    assert(r[j] == f[j]);
                }
            }
        },
        None => {
            let pos = insert_pos(f, name);
            lemma_insert_pos(f, name);
            let e = Seq::<FolderTreeV>::empty();
            assert(paths_well_formed(e, path));
            if !last {
                lemma_insert_segs_paths(e, rest, path, count);
            }
            assert(paths_well_formed(r[pos].children, r[pos].path));
            assert forall|j: int| 0 <= j < r.len() implies {
                &&& (#[trigger] r[j]).name.len() > 0
                &&& forall|t: int| 0 <= t < r[j].name.len() ==> r[j].name[t] != '/'
                &&& r[j].path == child_path(prefix, r[j].name)
                &&& paths_well_formed(r[j].children, r[j].path)
            } by {
                if j < pos {
                    assert(r[j] == f[j]);
                } else if j > pos {
                    assert(r[j] == f[j - 1]);
                }
            }
        },
    }
}

/// Law: in the folder tree every name is non-empty and holds no `/`; every
/// top-level node's path is `/` and its name, and every child's path is its
/// parent's path, `/`, and its name.
pub proof fn law_folder_tree_paths(rows: Seq<(Seq<char>, u64)>)
    ensures
        paths_well_formed(folder_tree_spec(rows), Seq::empty()),
    decreases rows.len(),
{
    if rows.len() == 0 {
        assert(paths_well_formed(Seq::<FolderTreeV>::empty(), Seq::empty()));
    } else {
        law_folder_tree_paths(rows.drop_last());
        let s = rows.last().0;
        let segs = pieces(s, Separators::Slash);
        if segs.len() > 0 {
            let any = |c: char| true;
            lemma_pieces_clean(s, Separators::Slash, any);
            assert forall|j: int| 0 <= j < segs.len() implies (#[trigger] segs[j]).len() > 0 && forall|
                t: int,
            | 0 <= t < segs[j].len() ==> segs[j][t] != '/' by {
                assert forall|t: int| 0 <= t < segs[j].len() implies segs[j][t] != '/' by {
                    assert(!is_sep(Separators::Slash, segs[j][t]));
                }
            }
            lemma_insert_segs_paths(
                folder_tree_spec(rows.drop_last()),
                segs,
                Seq::empty(),
                rows.last().1,
            );
        }
    }
}

} // verus!
