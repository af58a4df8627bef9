//! Which files and directories a library scan picks up.

use vstd::prelude::*;
use vstd::string::StringExecFns;

use crate::paths::{or_empty, path_extension, path_extension_of, path_file_stem, path_file_stem_of};
use crate::text::{ascii_lower_seq, ascii_lowercase, char_to_ascii_lowercase, chars_of};

verus! {

broadcast use vstd::string::group_string_axioms;

/// One file discovered on disk.
#[derive(Debug, Clone, PartialEq, Eq)]
pub struct ScannedFile {
    pub path: String,
    pub filename: String,
    pub extension: String,
    pub file_size: u64,
    pub modified_at: i64,
}

/// The recognised audio extensions (lowercase).
pub open spec fn audio_extensions() -> Seq<Seq<char>> {
    seq![
        seq!['w', 'a', 'v'],
        seq!['f', 'l', 'a', 'c'],
        seq!['m', 'p', '3'],
        seq!['o', 'g', 'g'],
        seq!['a', 'i', 'f', 'f'],
        seq!['a', 'i', 'f'],
    ]
}

/// Whether `ext`, compared without regard to ASCII case, is an audio extension.
pub open spec fn is_audio_extension(ext: Seq<char>) -> bool {
    audio_extensions().contains(ascii_lower_seq(ext))
}

/// Whether a file extension names a supported audio format
/// (`wav`, `flac`, `mp3`, `ogg`, `aiff`, `aif`; ASCII case ignored).
pub fn is_audio_ext(ext: &str) -> (r: bool)
    ensures
        r == is_audio_extension(ext@),
{
    let chars = chars_of(ext);
    let mut lower: Vec<char> = Vec::new();
    let mut i: usize = 0;
    while i < chars.len()
        invariant
            i <= chars@.len(),
            lower@ == ascii_lower_seq(chars@.take(i as int)),
        decreases chars@.len() - i,
    {
        let c = char_to_ascii_lowercase(chars[i]);
        lower.push(c);
        assert(ascii_lower_seq(chars@.take(i + 1)) =~= ascii_lower_seq(chars@.take(i as int)).push(c));
        i = i + 1;
    }
    assert(chars@.take(chars@.len() as int) =~= chars@);
    let l = lower.len();
    let r = (l == 3 && lower[0] == 'w' && lower[1] == 'a' && lower[2] == 'v') || (l == 4 && lower[0]
        == 'f' && lower[1] == 'l' && lower[2] == 'a' && lower[3] == 'c') || (l == 3 && lower[0]
        == 'm' && lower[1] == 'p' && lower[2] == '3') || (l == 3 && lower[0] == 'o' && lower[1]
        == 'g' && lower[2] == 'g') || (l == 4 && lower[0] == 'a' && lower[1] == 'i' && lower[2]
        == 'f' && lower[3] == 'f') || (l == 3 && lower[0] == 'a' && lower[1] == 'i' && lower[2]
        == 'f');
    proof {
        let lv = lower@;
        let exts = audio_extensions();
        if r {
            if l == 3 && lower[0] == 'w' {
                assert(lv =~= exts[0]);
            } else if l == 4 && lower[0] == 'f' {
                assert(lv =~= exts[1]);
            } else if l == 3 && lower[0] == 'm' {
                assert(lv =~= exts[2]);
            } else if l == 3 && lower[0] == 'o' {
                assert(lv =~= exts[3]);
            } else if l == 4 {
                assert(lv =~= exts[4]);
            } else {
                assert(lv =~= exts[5]);
            }
        } else {
            assert forall|k: int| 0 <= k < exts.len() implies exts[k] != lv by {
                if exts[k] == lv {
                    assert(exts[k][0] == lv[0]);
                }
            }
        }
    }
    r
}

/// Whether a directory entry met during a walk is kept: the root itself
/// always, others unless hidden entries are skipped and the name starts with
/// a dot.
pub fn keeps_entry(skip_hidden: bool, depth: usize, name: &str) -> (r: bool)
    ensures
        r == (!skip_hidden || depth == 0 || !(name@.len() > 0 && name@[0] == '.')),
{
    if !skip_hidden {
        return true;
    }
    if depth == 0 {
        return true;
    }
    let chars = chars_of(name);
    !(chars.len() > 0 && chars[0] == '.')
}

/// The record of a file met during a scan, or `None` when its extension is
/// not an audio one: the path, the file stem as its name, the extension in
/// ASCII lowercase, its size and modification time.
pub fn scanned_file_for(path: &str, file_size: u64, modified_at: i64) -> (r: Option<ScannedFile>)
    ensures
        !is_audio_extension(or_empty(path_extension_of(path@))) <==> r is None,
        r matches Some(f) ==> f.path@ == path@ && f.filename@ == or_empty(
            path_file_stem_of(path@),
        ) && f.extension@ == ascii_lower_seq(or_empty(path_extension_of(path@)))
            && f.file_size == file_size && f.modified_at == modified_at,
{
    let ext = match path_extension(path) {
        Some(e) => e,
        None => String::new(),
    };
    if !is_audio_ext(ext.as_str()) {
        return None;
    }
    let filename = match path_file_stem(path) {
        Some(s) => s,
        None => String::new(),
    };
    let extension = ascii_lowercase(ext.as_str());
    Some(ScannedFile { path: String::from_str(path), filename, extension, file_size, modified_at })
}

} // verus!
