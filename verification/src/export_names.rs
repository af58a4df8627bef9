//! Suggested file names for exported audio.

use vstd::prelude::*;
use vstd::string::StringExecFns;

use crate::paths::{path_file_stem, path_file_stem_of};
use crate::text::{char_is_control, chars_of, is_control, lemma_trim_keeps, string_of, trim, trim_chars};

verus! {

broadcast use vstd::string::group_string_axioms;

/// Characters that file systems reject or treat specially in names.
pub open spec fn is_unsafe_name_char(c: char) -> bool {
    c == '/' || c == '\\' || c == ':' || c == '*' || c == '?' || c == '"' || c == '<' || c == '>'
        || c == '|' || c == '\0' || is_control(c)
}

/// `s` with every unsafe character replaced by `_`.
pub open spec fn replace_unsafe(s: Seq<char>) -> Seq<char> {
    s.map_values(|c: char| if is_unsafe_name_char(c) { '_' } else { c })
}

/// `s` without trailing dots.
pub open spec fn trim_trailing_dots(s: Seq<char>) -> Seq<char>
    decreases s.len(),
{
    if s.len() > 0 && s.last() == '.' {
        trim_trailing_dots(s.drop_last())
    } else {
        s
    }
}

/// The default stem `clip`.
pub open spec fn default_stem() -> Seq<char> {
    seq!['c', 'l', 'i', 'p']
}

/// A file-name stem made safe: unsafe characters replaced by `_`, at most
/// 120 characters, trimmed, trailing dots removed; `clip` when nothing (or
/// only `.`) is left.
pub open spec fn clean_stem(stem: Seq<char>) -> Seq<char> {
    let safe = replace_unsafe(stem.take(if stem.len() < 120 { stem.len() as int } else { 120 }));
    let t = trim(safe);
    if t.len() == 0 || t == seq!['.'] {
        default_stem()
    } else {
        trim_trailing_dots(t)
    }
}

/// The file-name stem of `source_filename` made safe (see [`clean_stem`]);
/// `clip` when the name has no stem.
pub open spec fn safe_stem(source_filename: Seq<char>) -> Seq<char> {
    clean_stem(
        match path_file_stem_of(source_filename) {
            Some(s) => s,
            None => default_stem(),
        },
    )
}

/// The stem used in exported file names (see [`safe_stem`]).
pub fn sanitize_source_stem(source_filename: &str) -> (r: String)
    ensures
        r@ == safe_stem(source_filename@),
{
    match path_file_stem(source_filename) {
        Some(s) => clean_stem_text(s.as_str()),
        None => {
            let d = ['c', 'l', 'i', 'p'];
            assert(d@ =~= default_stem());
            let t = string_of(&d);
            clean_stem_text(t.as_str())
        },
    }
}

/// A file-name stem made safe for export names (see [`clean_stem`]).
pub fn clean_stem_text(stem_text: &str) -> (r: String)
    ensures
        r@ == clean_stem(stem_text@),
{
    let stem: Vec<char> = chars_of(stem_text);
    let limit: usize = if stem.len() < 120 {
        stem.len()
    } else {
        120
    };
    let mut safe: Vec<char> = Vec::new();
    let mut i: usize = 0;
    while i < limit
        invariant
            i <= limit,
            limit <= stem@.len(),
            safe@ == replace_unsafe(stem@.take(i as int)),
        decreases limit - i,
    {
        let c = stem[i];
        let d = if c == '/' || c == '\\' || c == ':' || c == '*' || c == '?' || c == '"' || c == '<'
            || c == '>' || c == '|' || c == '\0' || char_is_control(c) {
            '_'
        } else {
            c
        };
        safe.push(d);
        assert(replace_unsafe(stem@.take(i + 1)) =~= replace_unsafe(stem@.take(i as int)).push(d));
        i = i + 1;
    }
    let mut t = trim_chars(&safe);
    if t.len() == 0 || (t.len() == 1 && t[0] == '.') {
        proof {
            if t.len() == 1 {
                assert(t@ =~= seq!['.']);
            }
        }
        let d = ['c', 'l', 'i', 'p'];
        assert(d@ =~= default_stem());
        return string_of(&d);
    }
    proof {
        if t@ == seq!['.'] {
            assert(t@.len() == 1);
        }
    }
    let ghost full = t@;
    while t.len() > 0 && t[t.len() - 1] == '.'
        invariant
            trim_trailing_dots(full) == trim_trailing_dots(t@),
        decreases t@.len(),
    {
        let ghost before = t@;
        t.pop();
        assert(t@ =~= before.drop_last());
    }
    string_of(&t)
}

/// Default save-as name for a full-file export: `{stem}.wav`.
pub fn export_full_wav_suggested_filename(source_filename: &str) -> (r: String)
    ensures
        r@ == safe_stem(source_filename@) + ".wav"@,
{
    let mut name = sanitize_source_stem(source_filename);
    name.append(".wav");
    name
}

/// Save-as name for a clip: `{stem}_{start}-{end}s.wav`, with the clip's
/// start and end times already formatted as text.
pub fn clip_export_filename(source_filename: &str, start_text: &str, end_text: &str) -> (r: String)
    ensures
        r@ == safe_stem(source_filename@) + "_"@ + start_text@ + "-"@ + end_text@ + "s.wav"@,
{
    let mut name = sanitize_source_stem(source_filename);
    name.append("_");
    name.append(start_text);
    name.append("-");
    name.append(end_text);
    name.append("s.wav");
    name
}

proof fn lemma_trim_trailing_dots_keeps(s: Seq<char>, p: spec_fn(char) -> bool)
    requires
        forall|i: int| 0 <= i < s.len() ==> p(#[trigger] s[i]),
    ensures
        trim_trailing_dots(s).len() <= s.len(),
        forall|i: int| 0 <= i < trim_trailing_dots(s).len() ==> p(#[trigger] trim_trailing_dots(s)[i]),
    decreases s.len(),
{
    if s.len() > 0 && s.last() == '.' {
        let t = s.drop_last();
        assert forall|i: int| 0 <= i < t.len() implies p(#[trigger] t[i]) by {
            assert(t[i] == s[i]);
        }
        lemma_trim_trailing_dots_keeps(t, p);
    }
}

/// Law: the stem of a suggested export name holds no character that file
/// systems reject and is at most 120 characters long.
pub proof fn law_safe_stem_is_safe(source_filename: Seq<char>)
    ensures
        safe_stem(source_filename).len() <= 120,
        forall|i: int|
            0 <= i < safe_stem(source_filename).len() ==> !is_unsafe_name_char(
                #[trigger] safe_stem(source_filename)[i],
            ),
{
    let stem = match path_file_stem_of(source_filename) {
        Some(s) => s,
        None => default_stem(),
    };
    assert(safe_stem(source_filename) == clean_stem(stem));
    let safe = replace_unsafe(stem.take(if stem.len() < 120 { stem.len() as int } else { 120 }));
    let p = |c: char| !is_unsafe_name_char(c);
    assert forall|i: int| 0 <= i < safe.len() implies p(#[trigger] safe[i]) by {}
    lemma_trim_keeps(safe, p);
    let t = trim(safe);
    lemma_trim_trailing_dots_keeps(t, p);
    let d = default_stem();
    assert forall|i: int| 0 <= i < d.len() implies p(#[trigger] d[i]) by {
        assert(!is_control(d[i])) by {
            assert(d[i] == 'c' || d[i] == 'l' || d[i] == 'i' || d[i] == 'p');
        }
    }
}

} // verus!
