//! Character classes and whitespace handling over `Seq<char>`, with the
//! executable helpers that the string-building modules share.

use vstd::prelude::*;
use vstd::std_specs::iter::IteratorSpec;

verus! {

broadcast use vstd::string::group_string_axioms;

/// Unicode `White_Space`, the property behind `char::is_whitespace`.
pub open spec fn is_ws(c: char) -> bool {
    let u = c as u32;
    ||| (0x9 <= u && u <= 0xD)
    ||| u == 0x20
    ||| u == 0x85
    ||| u == 0xA0
    ||| u == 0x1680
    ||| (0x2000 <= u && u <= 0x200A)
    ||| u == 0x2028
    ||| u == 0x2029
    ||| u == 0x202F
    ||| u == 0x205F
    ||| u == 0x3000
}

/// Unicode general category `Cc`, the property behind `char::is_control`.
pub open spec fn is_control(c: char) -> bool {
    let u = c as u32;
    u <= 0x1F || (0x7F <= u && u <= 0x9F)
}

/// ASCII case folding of one character (`char::to_ascii_lowercase`).
pub open spec fn ascii_lower(c: char) -> char {
    if 'A' <= c && c <= 'Z' {
        ((c as u32) + 32) as char
    } else {
        c
    }
}

/// ASCII case folding of a whole sequence.
pub open spec fn ascii_lower_seq(s: Seq<char>) -> Seq<char> {
    s.map_values(|c: char| ascii_lower(c))
}

/// Same as `char::is_whitespace`.
pub fn char_is_whitespace(c: char) -> (b: bool)
    ensures
        b == is_ws(c),
{
    let u = c as u32;
    (0x9 <= u && u <= 0xD) || u == 0x20 || u == 0x85 || u == 0xA0 || u == 0x1680 || (0x2000 <= u
        && u <= 0x200A) || u == 0x2028 || u == 0x2029 || u == 0x202F || u == 0x205F || u == 0x3000
}

/// Same as `char::is_control`.
pub fn char_is_control(c: char) -> (b: bool)
    ensures
        b == is_control(c),
{
    let u = c as u32;
    u <= 0x1F || (0x7F <= u && u <= 0x9F)
}

/// `char::to_ascii_lowercase`: maps `A..=Z` to `a..=z`, every other character to itself.
#[verifier::external_body]
pub(crate) fn char_to_ascii_lowercase(c: char) -> (r: char)
    ensures
        r == ascii_lower(c),
{
    c.to_ascii_lowercase()
}

/// `String::push`: appends one character.
#[verifier::external_body]
pub(crate) fn push_char(s: &mut String, c: char)
    ensures
        final(s)@ == old(s)@.push(c),
{
    s.push(c)
}

/// The characters of `s`, in order.
pub fn chars_of(s: &str) -> (v: Vec<char>)
    ensures
        v@ == s@,
{
    let mut v: Vec<char> = Vec::new();
    let mut it = s.chars();
    loop
        invariant
            v@ + it.remaining() == s@,
            it.obeys_prophetic_iter_laws(),
            it.decrease() is Some,
        decreases it.decrease()->0,
    {
        let ghost before = it.remaining();
        match it.next() {
            Some(c) => {
                assert(before.len() > 0);
                v.push(c);
                assert(v@ + it.remaining() =~= s@) by {
                    assert(before =~= seq![c] + it.remaining());
                }
            },
            None => {
                assert(v@ =~= s@);
                return v;
            },
        }
    }
}

/// `s` with `A..=Z` turned into `a..=z` (`str::to_ascii_lowercase`).
pub fn ascii_lowercase(s: &str) -> (r: String)
    ensures
        r@ == ascii_lower_seq(s@),
{
    let chars = chars_of(s);
    let mut out = String::new();
    let mut i: usize = 0;
    while i < chars.len()
        invariant
            i <= chars@.len(),
            chars@ == s@,
            out@ == ascii_lower_seq(chars@.take(i as int)),
        decreases chars@.len() - i,
    {
        let c = char_to_ascii_lowercase(chars[i]);
        push_char(&mut out, c);
        assert(ascii_lower_seq(chars@.take(i + 1)) =~= ascii_lower_seq(chars@.take(i as int)).push(c));
        i = i + 1;
    }
    assert(chars@.take(chars@.len() as int) =~= chars@);
    out
}

/// A `String` holding exactly the characters of `v`.
pub fn string_of(v: &[char]) -> (s: String)
    ensures
        s@ == v@,
{
    let mut s = String::new();
    let mut i: usize = 0;
    while i < v.len()
        invariant
            i <= v@.len(),
            s@ == v@.take(i as int),
        decreases v@.len() - i,
    {
        push_char(&mut s, v[i]);
        assert(v@.take(i + 1) =~= v@.take(i as int).push(v@[i as int]));
        i = i + 1;
    }
    assert(v@.take(v@.len() as int) =~= v@);
    s
}

// ---------------------------------------------------------------------------
// Joining
// ---------------------------------------------------------------------------

/// `parts` joined with `sep` between neighbours (`[..].join(sep)`).
pub open spec fn join(parts: Seq<Seq<char>>, sep: Seq<char>) -> Seq<char>
    decreases parts.len(),
{
    if parts.len() == 0 {
        Seq::empty()
    } else if parts.len() == 1 {
        parts[0]
    } else {
        join(parts.drop_last(), sep) + sep + parts.last()
    }
}

pub proof fn lemma_join_push(parts: Seq<Seq<char>>, p: Seq<char>, sep: Seq<char>)
    ensures
        join(parts.push(p), sep) == if parts.len() == 0 {
            p
        } else {
            join(parts, sep) + sep + p
        },
{
    assert(parts.push(p).drop_last() =~= parts);
}

pub proof fn lemma_join_extend_last(parts: Seq<Seq<char>>, c: char, sep: Seq<char>)
    requires
        parts.len() > 0,
    ensures
        join(parts.update(parts.len() - 1, parts.last().push(c)), sep) == join(parts, sep).push(
            c,
        ),
{
    let q = parts.update(parts.len() - 1, parts.last().push(c));
    if parts.len() > 1 {
        assert(q.drop_last() =~= parts.drop_last());
        assert(join(q, sep) =~= join(parts, sep).push(c));
    }
}

// ---------------------------------------------------------------------------
// Words and whitespace collapsing
// ---------------------------------------------------------------------------

/// Which characters split text into pieces.
#[derive(Debug, Clone, Copy, PartialEq, Eq, Structural)]
pub enum Separators {
    /// Unicode whitespace (`str::split_whitespace`).
    Whitespace,
    /// Path separators and word joiners in folder names: `/ \ _ -` and space.
    Folder,
    /// Word joiners in file names: `_ -`, space and `.`.
    FileName,
    /// The path separator `/`.
    Slash,
}

/// Whether `c` is a separator of kind `k`.
pub open spec fn is_sep(k: Separators, c: char) -> bool {
    match k {
        Separators::Whitespace => is_ws(c),
        Separators::Folder => c == '/' || c == '\\' || c == '_' || c == '-' || c == ' ',
        Separators::FileName => c == '_' || c == '-' || c == ' ' || c == '.',
        Separators::Slash => c == '/',
    }
}

fn char_is_sep(k: Separators, c: char) -> (r: bool)
    ensures
        r == is_sep(k, c),
{
    match k {
        Separators::Whitespace => char_is_whitespace(c),
        Separators::Folder => c == '/' || c == '\\' || c == '_' || c == '-' || c == ' ',
        Separators::FileName => c == '_' || c == '-' || c == ' ' || c == '.',
        Separators::Slash => c == '/',
    }
}

/// The maximal runs of non-separator characters of `s`, left to right
/// (splitting on the separators and dropping empty pieces).
pub open spec fn pieces(s: Seq<char>, k: Separators) -> Seq<Seq<char>>
    decreases s.len(),
{
    if s.len() == 0 {
        Seq::empty()
    } else {
        let w = pieces(s.drop_last(), k);
        let c = s.last();
        if is_sep(k, c) {
            w
        } else if s.len() >= 2 && !is_sep(k, s[s.len() - 2]) {
            w.update(w.len() - 1, w.last().push(c))
        } else {
            w.push(seq![c])
        }
    }
}

/// The maximal runs of non-whitespace characters (`str::split_whitespace`).
pub open spec fn words(s: Seq<char>) -> Seq<Seq<char>> {
    pieces(s, Separators::Whitespace)
}

/// The words of `s` separated by single spaces
/// (`s.split_whitespace().collect::<Vec<_>>().join(" ")`).
pub open spec fn collapse_ws(s: Seq<char>) -> Seq<char> {
    join(words(s), seq![' '])
}

proof fn lemma_pieces_nonempty_when_last_kept(s: Seq<char>, k: Separators)
    requires
        s.len() > 0,
        !is_sep(k, s.last()),
    ensures
        pieces(s, k).len() > 0,
    decreases s.len(),
{
    if s.len() >= 2 && !is_sep(k, s[s.len() - 2]) {
        lemma_pieces_nonempty_when_last_kept(s.drop_last(), k);
    }
}

/// The non-empty pieces of `s` between separators of kind `k`, joined by
/// single spaces.
pub fn split_join(s: &[char], k: Separators) -> (r: Vec<char>)
    ensures
        r@ == join(pieces(s@, k), seq![' ']),
{
    let mut out: Vec<char> = Vec::new();
    let mut i: usize = 0;
    while i < s.len()
        invariant
            i <= s@.len(),
            out@ == join(pieces(s@.take(i as int), k), seq![' ']),
            out@.len() == 0 <==> pieces(s@.take(i as int), k).len() == 0,
        decreases s@.len() - i,
    {
        let c = s[i];
        let ghost pre = s@.take(i as int);
        let ghost cur = s@.take(i + 1);
        assert(cur.drop_last() =~= pre);
        assert(cur.last() == c);
        if char_is_sep(k, c) {
        } else if i > 0 && !char_is_sep(k, s[i - 1]) {
            proof {
                assert(cur[cur.len() - 2] == s@[i - 1]);
                assert(pre.last() == s@[i - 1]);
                lemma_pieces_nonempty_when_last_kept(pre, k);
                lemma_join_extend_last(pieces(pre, k), c, seq![' ']);
            }
            out.push(c);
        } else {
            proof {
                if i > 0 {
                    assert(cur[cur.len() - 2] == s@[i - 1]);
                }
                lemma_join_push(pieces(pre, k), seq![c], seq![' ']);
            }
            if out.len() > 0 {
                out.push(' ');
            }
            out.push(c);
            proof {
                if pieces(pre, k).len() == 0 {
                    assert(out@ =~= seq![c]);
                } else {
                    assert(out@ =~= join(pieces(pre, k), seq![' ']) + seq![' '] + seq![c]);
                }
            }
        }
        i = i + 1;
    }
    assert(s@.take(s@.len() as int) =~= s@);
    out
}

/// The non-empty pieces of `s` between separators of kind `k`.
pub fn split_pieces(s: &[char], k: Separators) -> (r: Vec<Vec<char>>)
    ensures
        char_seqs(r@) == pieces(s@, k),
{
    let mut out: Vec<Vec<char>> = Vec::new();
    let mut i: usize = 0;
    assert(char_seqs(out@) =~= pieces(s@.take(0), k));
    while i < s.len()
        invariant
            i <= s@.len(),
            char_seqs(out@) == pieces(s@.take(i as int), k),
        decreases s@.len() - i,
    {
        let c = s[i];
        let ghost pre = s@.take(i as int);
        let ghost cur = s@.take(i + 1);
        assert(cur.drop_last() =~= pre);
        assert(cur.last() == c);
        if char_is_sep(k, c) {
        } else if i > 0 && !char_is_sep(k, s[i - 1]) {
            proof {
                assert(cur[cur.len() - 2] == s@[i - 1]);
                assert(pre.last() == s@[i - 1]);
                lemma_pieces_nonempty_when_last_kept(pre, k);
            }
            let ghost before = out@;
            let mut last = out.pop().unwrap();
            last.push(c);
            let ghost lv = last@;
            out.push(last);
            assert(char_seqs(out@) =~= char_seqs(before).update(
                before.len() - 1,
                char_seqs(before).last().push(c),
            ));
        } else {
            proof {
                if i > 0 {
                    assert(cur[cur.len() - 2] == s@[i - 1]);
                }
            }
            let ghost before = out@;
            let mut piece: Vec<char> = Vec::new();
            piece.push(c);
            out.push(piece);
            assert(char_seqs(out@) =~= char_seqs(before).push(seq![c]));
        }
        i = i + 1;
    }
    assert(s@.take(s@.len() as int) =~= s@);
    out
}

/// Collapses whitespace: the words of `s` joined by single spaces.
pub fn collapse_whitespace(s: &[char]) -> (r: Vec<char>)
    ensures
        r@ == collapse_ws(s@),
{
    split_join(s, Separators::Whitespace)
}

/// Whether `s` is words separated by single spaces: no whitespace but the
/// space, none at either end, never two spaces in a row.
pub open spec fn is_collapsed(s: Seq<char>) -> bool {
    &&& forall|i: int| 0 <= i < s.len() && is_ws(#[trigger] s[i]) ==> s[i] == ' '
    &&& s.len() > 0 ==> s[0] != ' ' && s[s.len() - 1] != ' '
    &&& forall|i: int| 0 <= i < s.len() - 1 && #[trigger] s[i] == ' ' ==> s[i + 1] != ' '
}

/// Every piece is non-empty, holds no separator, and holds only characters
/// that satisfy `p` when all of `s` does.
pub proof fn lemma_pieces_clean(s: Seq<char>, k: Separators, p: spec_fn(char) -> bool)
    requires
        forall|i: int| 0 <= i < s.len() ==> p(#[trigger] s[i]),
    ensures
        forall|j: int|
            0 <= j < pieces(s, k).len() ==> (#[trigger] pieces(s, k)[j]).len() > 0 && forall|t: int|
                0 <= t < pieces(s, k)[j].len() ==> !is_sep(k, #[trigger] pieces(s, k)[j][t]) && p(
                    pieces(s, k)[j][t],
                ),
    decreases s.len(),
{
    if s.len() > 0 {
        let head = s.drop_last();
        assert forall|i: int| 0 <= i < head.len() implies p(#[trigger] head[i]) by {
            assert(head[i] == s[i]);
        }
        lemma_pieces_clean(head, k, p);
        let w = pieces(head, k);
        let c = s.last();
        assert(p(s[s.len() - 1]));
        if !is_sep(k, c) && s.len() >= 2 && !is_sep(k, s[s.len() - 2]) {
            assert(head.last() == s[s.len() - 2]);
            lemma_pieces_nonempty_when_last_kept(head, k);
            let r = pieces(s, k);
            assert forall|j: int| 0 <= j < r.len() implies (#[trigger] r[j]).len() > 0 && forall|
                t: int,
            | 0 <= t < r[j].len() ==> !is_sep(k, #[trigger] r[j][t]) && p(r[j][t]) by {
                if j == w.len() - 1 {
                    assert forall|t: int| 0 <= t < r[j].len() implies !is_sep(k, #[trigger] r[j][t])
                        && p(r[j][t]) by {
                        if t < w[j].len() {
                            assert(r[j][t] == w[j][t]);
                        }
                    }
                } else {
                    assert(r[j] == w[j]);
                }
            }
        }
    }
}

/// Non-empty parts without whitespace, joined by single spaces, are
/// collapsed text; and when all their characters satisfy `p` and the space
/// does too, so do all characters of the result.
pub proof fn lemma_join_collapsed(parts: Seq<Seq<char>>, p: spec_fn(char) -> bool)
    requires
        p(' '),
        forall|j: int|
            0 <= j < parts.len() ==> (#[trigger] parts[j]).len() > 0 && forall|t: int|
                0 <= t < parts[j].len() ==> !is_ws(#[trigger] parts[j][t]) && p(parts[j][t]),
    ensures
        is_collapsed(join(parts, seq![' '])),
        forall|i: int| 0 <= i < join(parts, seq![' ']).len() ==> p(#[trigger] join(parts, seq![' '])[i]),
    decreases parts.len(),
{
    let r = join(parts, seq![' ']);
    if parts.len() == 0 {
    } else if parts.len() == 1 {
        let q = parts[0];
        assert(r == q);
        assert(!is_ws(q[0]));
        assert(!is_ws(q[q.len() - 1]));
    } else {
        let head = parts.drop_last();
        assert forall|j: int| 0 <= j < head.len() implies (#[trigger] head[j]).len() > 0 && forall|t: int|
            0 <= t < head[j].len() ==> !is_ws(#[trigger] head[j][t]) && p(head[j][t]) by {
            assert(head[j] == parts[j]);
        }
        lemma_join_collapsed(head, p);
        let a = join(head, seq![' ']);
        let q = parts.last();
        assert(q == parts[parts.len() - 1]);
        assert(r =~= a + seq![' '] + q);
        assert(a.len() > 0) by {
            if head.len() == 1 {
                assert(a == head[0]);
            }
        }
        assert(!is_ws(q[0]));
        assert(!is_ws(q[q.len() - 1]));
        assert forall|i: int| 0 <= i < r.len() implies p(#[trigger] r[i]) && (is_ws(r[i]) ==> r[i]
            == ' ') by {
            if i < a.len() {
                assert(r[i] == a[i]);
            } else if i > a.len() {
                assert(r[i] == q[i - a.len() - 1]);
            }
        }
        assert forall|i: int| 0 <= i < r.len() - 1 && #[trigger] r[i] == ' ' implies r[i + 1] != ' ' by {
            if i < a.len() - 1 {
                assert(r[i] == a[i] && r[i + 1] == a[i + 1]);
            } else if i == a.len() - 1 {
                assert(r[i] == a[a.len() - 1]);
            } else if i == a.len() {
                assert(r[i + 1] == q[0]);
            } else {
                assert(r[i] == q[i - a.len() - 1]);
                assert(r[i + 1] == q[i + 1 - a.len() - 1]);
            }
        }
        assert(r[0] == a[0]);
        assert(r[r.len() - 1] == q[q.len() - 1]);
    }
}

/// Appending a run of non-separators after a separator (or to nothing)
/// adds exactly that run as a new piece.
proof fn lemma_pieces_append_run(x: Seq<char>, p: Seq<char>, k: Separators)
    requires
        x.len() == 0 || is_sep(k, x.last()),
        p.len() > 0,
        forall|t: int| 0 <= t < p.len() ==> !is_sep(k, #[trigger] p[t]),
    ensures
        pieces(x + p, k) == pieces(x, k).push(p),
    decreases p.len(),
{
    let s = x + p;
    let c = p.last();
    assert(s.last() == c);
    assert(!is_sep(k, p[p.len() - 1]));
    if p.len() == 1 {
        assert(s.drop_last() =~= x);
        if s.len() >= 2 {
            assert(s[s.len() - 2] == x.last());
        }
        assert(p =~= seq![c]);
    } else {
        let q = p.drop_last();
        assert forall|t: int| 0 <= t < q.len() implies !is_sep(k, #[trigger] q[t]) by {
            assert(q[t] == p[t]);
        }
        lemma_pieces_append_run(x, q, k);
        assert(s.drop_last() =~= x + q);
        assert(s[s.len() - 2] == p[p.len() - 2]);
        assert(!is_sep(k, p[p.len() - 2]));
        let w = pieces(x + q, k);
        assert(w == pieces(x, k).push(q));
        assert(w.last() == q);
        assert(q.push(c) =~= p);
        assert(w.update(w.len() - 1, w.last().push(c)) =~= pieces(x, k).push(p));
    }
}

/// The pieces of text that follows a separator (or nothing) are the pieces
/// of what came before followed by its own pieces.
pub proof fn lemma_pieces_concat(x: Seq<char>, y: Seq<char>, k: Separators)
    requires
        x.len() == 0 || is_sep(k, x.last()),
    ensures
        pieces(x + y, k) == pieces(x, k) + pieces(y, k),
    decreases y.len(),
{
    if y.len() == 0 {
        assert(x + y =~= x);
        assert(pieces(x, k) + pieces(y, k) =~= pieces(x, k));
    } else {
        let y0 = y.drop_last();
        let c = y.last();
        let s = x + y;
        lemma_pieces_concat(x, y0, k);
        assert(s.drop_last() =~= x + y0);
        assert(s.last() == c);
        let a = pieces(x, k);
        let b0 = pieces(y0, k);
        if is_sep(k, c) {
        } else if s.len() >= 2 && !is_sep(k, s[s.len() - 2]) {
            if y0.len() == 0 {
                assert(s[s.len() - 2] == x.last());
            }
            assert(y0.len() > 0);
            assert(s[s.len() - 2] == y0.last());
            assert(y[y.len() - 2] == y0.last());
            lemma_pieces_nonempty_when_last_kept(y0, k);
            let ab = a + b0;
            assert(ab.update(ab.len() - 1, ab.last().push(c)) =~= a + b0.update(
                b0.len() - 1,
                b0.last().push(c),
            ));
        } else {
            if y.len() >= 2 {
                assert(y[y.len() - 2] == s[s.len() - 2]);
            }
            assert((a + b0).push(seq![c]) =~= a + b0.push(seq![c]));
        }
    }
}

/// The words of two texts joined by a space are the words of the first,
/// then those of the second.
pub proof fn lemma_words_space_concat(a: Seq<char>, b: Seq<char>)
    ensures
        words(a + seq![' '] + b) == words(a) + words(b),
{
    let x = a + seq![' '];
    assert(is_ws(' '));
    assert(x.drop_last() =~= a);
    assert(words(x) == words(a));
    lemma_pieces_concat(x, b, Separators::Whitespace);
}

/// The words of non-empty, whitespace-free parts joined by single spaces
/// are those parts.
pub proof fn lemma_words_of_join(parts: Seq<Seq<char>>)
    requires
        forall|j: int|
            0 <= j < parts.len() ==> (#[trigger] parts[j]).len() > 0 && forall|t: int|
                0 <= t < parts[j].len() ==> !is_ws(#[trigger] parts[j][t]),
    ensures
        words(join(parts, seq![' '])) == parts,
    decreases parts.len(),
{
    let k = Separators::Whitespace;
    if parts.len() == 0 {
        assert(words(join(parts, seq![' '])) =~= parts);
    } else {
        let q = parts.last();
        assert(q == parts[parts.len() - 1]);
        assert forall|t: int| 0 <= t < q.len() implies !is_sep(k, #[trigger] q[t]) by {}
        if parts.len() == 1 {
            lemma_pieces_append_run(Seq::<char>::empty(), q, k);
            assert(Seq::<char>::empty() + q =~= q);
            assert(pieces(Seq::<char>::empty(), k) =~= Seq::<Seq<char>>::empty());
            assert(parts =~= seq![q]);
            assert(Seq::<Seq<char>>::empty().push(q) =~= seq![q]);
        } else {
            let head = parts.drop_last();
            assert forall|j: int| 0 <= j < head.len() implies (#[trigger] head[j]).len() > 0 && forall|
                t: int,
            | 0 <= t < head[j].len() ==> !is_ws(#[trigger] head[j][t]) by {
                assert(head[j] == parts[j]);
            }
            lemma_words_of_join(head);
            let a = join(head, seq![' ']);
            let x = a + seq![' '];
            assert(is_ws(' '));
            assert(x.drop_last() =~= a);
            assert(pieces(x, k) == pieces(a, k));
            lemma_pieces_append_run(x, q, k);
            assert(join(parts, seq![' ']) == x + q);
            assert(head.push(q) =~= parts);
        }
    }
}

/// The character sequences of `parts`.
pub open spec fn char_seqs(parts: Seq<Vec<char>>) -> Seq<Seq<char>> {
    parts.map_values(|p: Vec<char>| p@)
}

/// `parts` joined with the single character `sep` between neighbours.
pub fn join_chars(parts: &Vec<Vec<char>>, sep: char) -> (r: Vec<char>)
    ensures
        r@ == join(char_seqs(parts@), seq![sep]),
{
    let ghost pv = char_seqs(parts@);
    let mut out: Vec<char> = Vec::new();
    let mut i: usize = 0;
    while i < parts.len()
        invariant
            i <= parts@.len(),
            pv == char_seqs(parts@),
            out@ == join(pv.take(i as int), seq![sep]),
        decreases parts@.len() - i,
    {
        proof {
            lemma_join_push(pv.take(i as int), pv[i as int], seq![sep]);
            assert(pv.take(i + 1) =~= pv.take(i as int).push(pv[i as int]));
        }
        if i > 0 {
            out.push(sep);
        }
        append_chars(&mut out, &parts[i]);
        proof {
            if i > 0 {
                assert(out@ =~= join(pv.take(i as int), seq![sep]) + seq![sep] + pv[i as int]);
            }
        }
        i = i + 1;
    }
    assert(pv.take(parts@.len() as int) =~= pv);
    out
}

// ---------------------------------------------------------------------------
// Trimming
// ---------------------------------------------------------------------------

/// `s` without its leading whitespace.
pub open spec fn trim_start(s: Seq<char>) -> Seq<char>
    decreases s.len(),
{
    if s.len() > 0 && is_ws(s[0]) {
        trim_start(s.drop_first())
    } else {
        s
    }
}

/// `s` without its trailing whitespace.
pub open spec fn trim_end(s: Seq<char>) -> Seq<char>
    decreases s.len(),
{
    if s.len() > 0 && is_ws(s.last()) {
        trim_end(s.drop_last())
    } else {
        s
    }
}

/// `str::trim`: both ends stripped of whitespace.
pub open spec fn trim(s: Seq<char>) -> Seq<char> {
    trim_end(trim_start(s))
}

/// Trimming keeps only characters of the input, and never lengthens it.
pub proof fn lemma_trim_keeps(s: Seq<char>, p: spec_fn(char) -> bool)
    requires
        forall|i: int| 0 <= i < s.len() ==> p(#[trigger] s[i]),
    ensures
        trim(s).len() <= s.len(),
        forall|i: int| 0 <= i < trim(s).len() ==> p(#[trigger] trim(s)[i]),
{
    lemma_trim_start_keeps(s, p);
    lemma_trim_end_keeps(trim_start(s), p);
}

proof fn lemma_trim_start_keeps(s: Seq<char>, p: spec_fn(char) -> bool)
    requires
        forall|i: int| 0 <= i < s.len() ==> p(#[trigger] s[i]),
    ensures
        trim_start(s).len() <= s.len(),
        forall|i: int| 0 <= i < trim_start(s).len() ==> p(#[trigger] trim_start(s)[i]),
    decreases s.len(),
{
    if s.len() > 0 && is_ws(s[0]) {
        let t = s.drop_first();
        assert forall|i: int| 0 <= i < t.len() implies p(#[trigger] t[i]) by {
            assert(t[i] == s[i + 1]);
        }
        lemma_trim_start_keeps(t, p);
    }
}

proof fn lemma_trim_end_keeps(s: Seq<char>, p: spec_fn(char) -> bool)
    requires
        forall|i: int| 0 <= i < s.len() ==> p(#[trigger] s[i]),
    ensures
        trim_end(s).len() <= s.len(),
        forall|i: int| 0 <= i < trim_end(s).len() ==> p(#[trigger] trim_end(s)[i]),
    decreases s.len(),
{
    if s.len() > 0 && is_ws(s.last()) {
        let t = s.drop_last();
        assert forall|i: int| 0 <= i < t.len() implies p(#[trigger] t[i]) by {
            assert(t[i] == s[i]);
        }
        lemma_trim_end_keeps(t, p);
    }
}

/// `str::trim` on a character vector.
pub fn trim_chars(s: &[char]) -> (r: Vec<char>)
    ensures
        r@ == trim(s@),
{
    let mut a: usize = 0;
    assert(s@.skip(0) =~= s@);
    while a < s.len() && char_is_whitespace(s[a])
        invariant
            a <= s@.len(),
            trim_start(s@) == trim_start(s@.skip(a as int)),
        decreases s@.len() - a,
    {
        assert(s@.skip(a as int).drop_first() =~= s@.skip(a + 1));
        a = a + 1;
    }
    let mut b: usize = s.len();
    let ghost t = s@.skip(a as int);
    assert(trim_start(s@) == t);
    assert(s@.subrange(a as int, b as int) =~= t);
    while b > a && char_is_whitespace(s[b - 1])
        invariant
            a <= b <= s@.len(),
            t == s@.skip(a as int),
            trim_end(t) == trim_end(s@.subrange(a as int, b as int)),
        decreases b,
    {
        assert(s@.subrange(a as int, b as int).drop_last() =~= s@.subrange(a as int, b - 1));
        b = b - 1;
    }
    let mut r: Vec<char> = Vec::new();
    let mut k: usize = a;
    while k < b
        invariant
            a <= k <= b,
            b <= s@.len(),
            r@ == s@.subrange(a as int, k as int),
        decreases b - k,
    {
        r.push(s[k]);
        assert(s@.subrange(a as int, k + 1) =~= s@.subrange(a as int, k as int).push(s@[k as int]));
        k = k + 1;
    }
    r
}

/// Appends all of `src` to `dst`.
pub fn append_chars(dst: &mut Vec<char>, src: &[char])
    ensures
        final(dst)@ == old(dst)@ + src@,
{
    let mut k: usize = 0;
    while k < src.len()
        invariant
            k <= src@.len(),
            dst@ == old(dst)@ + src@.take(k as int),
        decreases src@.len() - k,
    {
        dst.push(src[k]);
        assert(src@.take(k + 1) =~= src@.take(k as int).push(src@[k as int]));
        k = k + 1;
    }
    assert(src@.take(src@.len() as int) =~= src@);
}

/// Whether `a` and `b` hold the same characters.
pub fn chars_eq(a: &[char], b: &[char]) -> (r: bool)
    ensures
        r == (a@ == b@),
{
    if a.len() != b.len() {
        return false;
    }
    let mut k: usize = 0;
    while k < a.len()
        invariant
            a@.len() == b@.len(),
            k <= a@.len(),
            forall|j: int| 0 <= j < k ==> a@[j] == b@[j],
        decreases a@.len() - k,
    {
        if a[k] != b[k] {
            return false;
        }
        k = k + 1;
    }
    assert(a@ =~= b@);
    true
}

// ---------------------------------------------------------------------------
// Unicode case mapping
// ---------------------------------------------------------------------------

/// What `str::to_lowercase` returns (Unicode lowercase mapping, including its
/// context-dependent rules); its result depends on the text alone.
pub uninterp spec fn unicode_lowercase(s: Seq<char>) -> Seq<char>;

/// `str::to_lowercase`; the result is named, not spelled out.
#[verifier::external_body]
pub(crate) fn str_to_lowercase(s: &str) -> (r: String)
    ensures
        r@ == unicode_lowercase(s@),
{
    s.to_lowercase()
}

// ---------------------------------------------------------------------------
// Decimal numbers
// ---------------------------------------------------------------------------

/// The ASCII digit for `d` (0..=9).
pub open spec fn digit_char(d: int) -> char {
    (48 + d) as char
}

/// The decimal digits of `n`, most significant first (`n.to_string()`).
pub open spec fn decimal(n: nat) -> Seq<char>
    decreases n,
{
    if n < 10 {
        seq![digit_char(n as int)]
    } else {
        decimal(n / 10).push(digit_char((n % 10) as int))
    }
}

fn digit(d: u64) -> (c: char)
    requires
        d < 10,
    ensures
        c == digit_char(d as int),
{
    let b: u8 = 48u8 + (d as u8);
    let c = b as char;
    assert(c == digit_char(d as int));
    c
}

fn decimal_chars(n: u64) -> (v: Vec<char>)
    ensures
        v@ == decimal(n as nat),
    decreases n,
{
    if n < 10 {
        let mut v: Vec<char> = Vec::new();
        v.push(digit(n));
        assert(v@ =~= decimal(n as nat));
        v
    } else {
        let mut v = decimal_chars(n / 10);
        v.push(digit(n % 10));
        v
    }
}

/// `n` written in decimal.
pub fn u64_to_decimal(n: u64) -> (s: String)
    ensures
        s@ == decimal(n as nat),
{
    let v = decimal_chars(n);
    string_of(&v)
}

} // verus!
