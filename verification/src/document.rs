//! The text document embedded for an asset: its names, folder, metadata and
//! tags in one whitespace-normalised string.

use vstd::prelude::*;

use crate::models::Asset;
use crate::text::{
    chars_eq, chars_of, char_seqs, collapse_whitespace, collapse_ws, join, join_chars, pieces,
    split_join, string_of, trim, trim_chars, Separators, words, lemma_words_space_concat,
    lemma_pieces_clean, lemma_words_of_join,
};

verus! {

broadcast use vstd::string::group_string_axioms;

/// `parts` with `p` appended when it is not empty.
pub open spec fn push_nonempty(parts: Seq<Seq<char>>, p: Seq<char>) -> Seq<Seq<char>> {
    if p.len() > 0 {
        parts.push(p)
    } else {
        parts
    }
}

/// An optional text, trimmed; empty when absent.
pub open spec fn trimmed_or_empty(o: Option<String>) -> Seq<char> {
    match o {
        Some(s) => trim(s@),
        None => Seq::empty(),
    }
}

/// The file name's words (split on `_ - . ` and space), joined by spaces.
pub open spec fn name_tokens(filename: Seq<char>) -> Seq<char> {
    join(pieces(filename, Separators::FileName), seq![' '])
}

/// The folder's words (split on `/ \ _ -` and space), joined by spaces.
pub open spec fn folder_tokens(folder: Seq<char>) -> Seq<char> {
    join(pieces(folder, Separators::Folder), seq![' '])
}

/// The parts of an asset's document, in order, empty ones left out: file
/// name; its words when they differ from it; folder; folder words;
/// category, publisher and notes (trimmed); tag names joined by spaces.
pub open spec fn document_parts(a: Asset, tags: Seq<Seq<char>>) -> Seq<Seq<char>> {
    let f = a.filename@;
    let nt = name_tokens(f);
    let p0 = push_nonempty(Seq::empty(), f);
    let p1 = if nt != f {
        push_nonempty(p0, nt)
    } else {
        p0
    };
    let p2 = push_nonempty(p1, a.folder@);
    let p3 = push_nonempty(p2, folder_tokens(a.folder@));
    let p4 = push_nonempty(p3, trimmed_or_empty(a.category));
    let p5 = push_nonempty(p4, trimmed_or_empty(a.publisher));
    let p6 = push_nonempty(p5, trimmed_or_empty(a.notes));
    push_nonempty(p6, join(tags, seq![' ']))
}

/// The document of an asset: its parts joined by spaces, whitespace collapsed.
pub open spec fn document_spec(a: Asset, tags: Seq<Seq<char>>) -> Seq<char> {
    collapse_ws(join(document_parts(a, tags), seq![' ']))
}

fn push_if_nonempty(parts: &mut Vec<Vec<char>>, p: Vec<char>)
    ensures
        char_seqs(final(parts)@) == push_nonempty(char_seqs(old(parts)@), p@),
{
    if p.len() > 0 {
        let ghost before = parts@;
        let ghost pv = p@;
        parts.push(p);
        assert(char_seqs(parts@) =~= char_seqs(before).push(pv));
    }
}

fn trimmed_option(o: &Option<String>) -> (r: Vec<char>)
    ensures
        r@ == trimmed_or_empty(*o),
{
    match o {
        Some(s) => {
            let c = chars_of(s.as_str());
            trim_chars(&c)
        },
        None => Vec::new(),
    }
}

/// The tag names as one space-separated text.
fn tag_text(tag_names: &Vec<String>) -> (r: Vec<char>)
    ensures
        r@ == join(tag_names@.map_values(|s: String| s@), seq![' ']),
{
    let mut parts: Vec<Vec<char>> = Vec::new();
    let ghost tv = tag_names@.map_values(|s: String| s@);
    let mut i: usize = 0;
    while i < tag_names.len()
        invariant
            i <= tag_names@.len(),
            tv == tag_names@.map_values(|s: String| s@),
            char_seqs(parts@) == tv.take(i as int),
        decreases tag_names@.len() - i,
    {
        let c = chars_of(tag_names[i].as_str());
        let ghost before = parts@;
        parts.push(c);
        assert(char_seqs(parts@) =~= char_seqs(before).push(tv[i as int]));
        assert(tv.take(i + 1) =~= tv.take(i as int).push(tv[i as int]));
        i = i + 1;
    }
    assert(tv.take(tag_names@.len() as int) =~= tv);
    join_chars(&parts, ' ')
}

/// Builds the normalised text document of `asset` with the names of its
/// tags (for text embedding).
pub fn asset_document(asset: &Asset, tag_names: &Vec<String>) -> (r: String)
    ensures
        r@ == document_spec(*asset, tag_names@.map_values(|s: String| s@)),
{
    let ghost tags = tag_names@.map_values(|s: String| s@);
    let filename = chars_of(asset.filename.as_str());
    let folder = chars_of(asset.folder.as_str());
    let name_tok = split_join(&filename, Separators::FileName);
    let folder_tok = split_join(&folder, Separators::Folder);
    let tag_part = tag_text(tag_names);
    let mut parts: Vec<Vec<char>> = Vec::new();
    assert(char_seqs(parts@) =~= Seq::<Seq<char>>::empty());
    let same = chars_eq(&name_tok, &filename);
    push_if_nonempty(&mut parts, filename);
    if !same {
        push_if_nonempty(&mut parts, name_tok);
    }
    push_if_nonempty(&mut parts, folder);
    push_if_nonempty(&mut parts, folder_tok);
    push_if_nonempty(&mut parts, trimmed_option(&asset.category));
    push_if_nonempty(&mut parts, trimmed_option(&asset.publisher));
    push_if_nonempty(&mut parts, trimmed_option(&asset.notes));
    push_if_nonempty(&mut parts, tag_part);
    assert(char_seqs(parts@) == document_parts(*asset, tags));
    let doc = join_chars(&parts, ' ');
    let collapsed = collapse_whitespace(&doc);
    string_of(&collapsed)
}

// ---------------------------------------------------------------------------
// Laws
// ---------------------------------------------------------------------------

/// The words of each part, part after part.
pub open spec fn words_of_parts(parts: Seq<Seq<char>>) -> Seq<Seq<char>>
    decreases parts.len(),
{
    if parts.len() == 0 {
        Seq::empty()
    } else {
        words_of_parts(parts.drop_last()) + words(parts.last())
    }
}

proof fn lemma_words_of_joined_parts(parts: Seq<Seq<char>>)
    ensures
        words(join(parts, seq![' '])) == words_of_parts(parts),
    decreases parts.len(),
{
    if parts.len() == 0 {
        assert(words(Seq::<char>::empty()) =~= Seq::<Seq<char>>::empty());
    } else if parts.len() == 1 {
        assert(parts.drop_last() =~= Seq::<Seq<char>>::empty());
        assert(words_of_parts(parts.drop_last()) =~= Seq::<Seq<char>>::empty());
        assert(words_of_parts(parts) =~= words(parts[0]));
    } else {
        lemma_words_of_joined_parts(parts.drop_last());
        lemma_words_space_concat(join(parts.drop_last(), seq![' ']), parts.last());
    }
}

proof fn lemma_words_push_nonempty(parts: Seq<Seq<char>>, p: Seq<char>)
    ensures
        words_of_parts(push_nonempty(parts, p)) == words_of_parts(parts) + words(p),
{
    if p.len() > 0 {
        assert(parts.push(p).drop_last() =~= parts);
    } else {
        assert(words(p) =~= Seq::<Seq<char>>::empty());
        assert(words_of_parts(parts) + words(p) =~= words_of_parts(parts));
    }
}

/// Collapsing whitespace keeps the words.
proof fn lemma_words_of_collapse(x: Seq<char>)
    ensures
        words(collapse_ws(x)) == words(x),
{
    let any = |c: char| true;
    lemma_pieces_clean(x, Separators::Whitespace, any);
    lemma_words_of_join(words(x));
}

/// Law: the words of an asset's document are, in order, the words of its
/// file name; those of the file name split on `_ - .` and space when that
/// differs from the name; those of its folder and of the folder split on
/// `/ \ _ -` and space; those of its trimmed category, publisher and notes
/// (none when absent); and those of its tag names — so every non-blank
/// field reaches the embedded text, and nothing else does.
pub proof fn law_document_words(a: Asset, tags: Seq<Seq<char>>)
    ensures
        words(document_spec(a, tags)) == words(a.filename@) + (if name_tokens(a.filename@)
            != a.filename@ {
            words(name_tokens(a.filename@))
        } else {
            Seq::empty()
        }) + words(a.folder@) + words(folder_tokens(a.folder@)) + words(trimmed_or_empty(a.category))
            + words(trimmed_or_empty(a.publisher)) + words(trimmed_or_empty(a.notes)) + words(
            join(tags, seq![' ']),
        ),
{
    let f = a.filename@;
    let nt = name_tokens(f);
    let e = Seq::<Seq<char>>::empty();
    assert(words_of_parts(e) =~= e);
    let q0 = push_nonempty(e, f);
    lemma_words_push_nonempty(e, f);
    let q1 = if nt != f {
        push_nonempty(q0, nt)
    } else {
        q0
    };
    if nt != f {
        lemma_words_push_nonempty(q0, nt);
    }
    let q2 = push_nonempty(q1, a.folder@);
    lemma_words_push_nonempty(q1, a.folder@);
    let q3 = push_nonempty(q2, folder_tokens(a.folder@));
    lemma_words_push_nonempty(q2, folder_tokens(a.folder@));
    let q4 = push_nonempty(q3, trimmed_or_empty(a.category));
    lemma_words_push_nonempty(q3, trimmed_or_empty(a.category));
    let q5 = push_nonempty(q4, trimmed_or_empty(a.publisher));
    lemma_words_push_nonempty(q4, trimmed_or_empty(a.publisher));
    let q6 = push_nonempty(q5, trimmed_or_empty(a.notes));
    lemma_words_push_nonempty(q5, trimmed_or_empty(a.notes));
    let q7 = push_nonempty(q6, join(tags, seq![' ']));
    lemma_words_push_nonempty(q6, join(tags, seq![' ']));
    assert(document_parts(a, tags) == q7);
    lemma_words_of_joined_parts(q7);
    lemma_words_of_collapse(join(q7, seq![' ']));
    let skip: Seq<Seq<char>> = if nt != f {
        words(nt)
    } else {
        Seq::empty()
    };
    assert(words_of_parts(q1) =~= e + words(f) + skip);
    assert(words(document_spec(a, tags)) =~= words(f) + skip + words(a.folder@) + words(
        folder_tokens(a.folder@),
    ) + words(trimmed_or_empty(a.category)) + words(trimmed_or_empty(a.publisher)) + words(
        trimmed_or_empty(a.notes),
    ) + words(join(tags, seq![' '])));
}

} // verus!
