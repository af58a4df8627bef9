//! Folder keys and path-derived metadata (publisher, category, file name).

use vstd::prelude::*;
use vstd::string::StringExecFns;

use crate::models::PathMetadata;
use crate::text::{chars_of, join, lemma_join_push, str_to_lowercase, string_of, unicode_lowercase};

verus! {

broadcast use vstd::string::group_string_axioms;

// ---------------------------------------------------------------------------
// Folder keys
// ---------------------------------------------------------------------------

/// `s` with every backslash turned into a forward slash.
pub open spec fn forward_slashes(s: Seq<char>) -> Seq<char> {
    s.map_values(|c: char| if c == '\\' { '/' } else { c })
}

/// `s` without trailing slashes, except that a lone `/` stays.
pub open spec fn trim_trailing_slashes(s: Seq<char>) -> Seq<char>
    decreases s.len(),
{
    if s.len() > 1 && s.last() == '/' {
        trim_trailing_slashes(s.drop_last())
    } else {
        s
    }
}

/// The key under which a folder is stored and compared: forward slashes
/// only, no trailing slash (the root stays `/`).
pub open spec fn folder_key(s: Seq<char>) -> Seq<char> {
    trim_trailing_slashes(forward_slashes(s))
}

/// Normalises a folder path into its key (see [`folder_key`]).
pub fn normalize_folder_key(folder: &str) -> (r: String)
    ensures
        r@ == folder_key(folder@),
{
    let chars = chars_of(folder);
    let mut out: Vec<char> = Vec::new();
    let mut i: usize = 0;
    while i < chars.len()
        invariant
            i <= chars@.len(),
            out@ == forward_slashes(chars@.take(i as int)),
        decreases chars@.len() - i,
    {
        let c = chars[i];
        out.push(
            if c == '\\' {
                '/'
            } else {
                c
            },
        );
        assert(forward_slashes(chars@.take(i + 1)) =~= forward_slashes(chars@.take(i as int)).push(
            if c == '\\' {
                '/'
            } else {
                c
            },
        ));
        i = i + 1;
    }
    assert(chars@.take(chars@.len() as int) =~= chars@);
    let ghost full = out@;
    while out.len() > 1 && out[out.len() - 1] == '/'
        invariant
            trim_trailing_slashes(full) == trim_trailing_slashes(out@),
        decreases out@.len(),
    {
        let ghost before = out@;
        out.pop();
        assert(out@ =~= before.drop_last());
    }
    string_of(&out)
}

proof fn lemma_trim_trailing_slashes(s: Seq<char>)
    ensures
        trim_trailing_slashes(s).len() <= s.len(),
        forall|i: int|
            0 <= i < trim_trailing_slashes(s).len() ==> #[trigger] trim_trailing_slashes(s)[i] == s[i],
        trim_trailing_slashes(s).len() <= 1 || trim_trailing_slashes(s).last() != '/',
    decreases s.len(),
{
    if s.len() > 1 && s.last() == '/' {
        lemma_trim_trailing_slashes(s.drop_last());
    }
}

/// Law: a folder key is its own key, so normalising twice changes nothing.
pub proof fn law_folder_key_idempotent(s: Seq<char>)
    ensures
        folder_key(folder_key(s)) == folder_key(s),
{
    let k = folder_key(s);
    lemma_trim_trailing_slashes(forward_slashes(s));
    assert(forward_slashes(k) =~= k);
    assert(trim_trailing_slashes(k) == k);
}

// ---------------------------------------------------------------------------
// Standard path functions
// ---------------------------------------------------------------------------

/// One component of a path, as `std::path::Component` distinguishes them.
#[derive(Debug, Clone, PartialEq, Eq)]
pub enum PathComponent {
    Prefix,
    RootDir,
    CurDir,
    ParentDir,
    Normal(String),
}

/// A path component as a plain value.
pub enum PathComponentView {
    Prefix,
    RootDir,
    CurDir,
    ParentDir,
    Normal(Seq<char>),
}

impl View for PathComponent {
    type V = PathComponentView;

    open spec fn view(&self) -> PathComponentView {
        match self {
            PathComponent::Prefix => PathComponentView::Prefix,
            PathComponent::RootDir => PathComponentView::RootDir,
            PathComponent::CurDir => PathComponentView::CurDir,
            PathComponent::ParentDir => PathComponentView::ParentDir,
            PathComponent::Normal(s) => PathComponentView::Normal(s@),
        }
    }
}

/// What `Path::parent` returns for a path (as text).
pub uninterp spec fn path_parent_of(p: Seq<char>) -> Option<Seq<char>>;

/// What `Path::strip_prefix` returns for a path and a base (as text).
pub uninterp spec fn path_strip_prefix_of(p: Seq<char>, base: Seq<char>) -> Option<Seq<char>>;

/// What `Path::components` yields for a path.
pub uninterp spec fn path_components_of(p: Seq<char>) -> Seq<PathComponentView>;

/// What `Path::file_stem` returns for a path (as text).
pub uninterp spec fn path_file_stem_of(p: Seq<char>) -> Option<Seq<char>>;

/// What `Path::extension` returns for a path (as text).
pub uninterp spec fn path_extension_of(p: Seq<char>) -> Option<Seq<char>>;

/// An optional string as an optional character sequence.
pub open spec fn opt_view(o: Option<String>) -> Option<Seq<char>> {
    match o {
        Some(s) => Some(s@),
        None => None,
    }
}

/// `Path::parent`; the result is named, not spelled out.
#[verifier::external_body]
fn path_parent(p: &str) -> (r: Option<String>)
    ensures
        opt_view(r) == path_parent_of(p@),
{
    std::path::Path::new(p).parent().map(|q| q.to_string_lossy().into_owned())
}

/// `Path::strip_prefix`; the result is named, not spelled out.
#[verifier::external_body]
fn path_strip_prefix(p: &str, base: &str) -> (r: Option<String>)
    ensures
        opt_view(r) == path_strip_prefix_of(p@, base@),
{
    std::path::Path::new(p).strip_prefix(base).ok().map(|q| q.to_string_lossy().into_owned())
}

/// `Path::components`; the result is named, not spelled out.
#[verifier::external_body]
fn path_components(p: &str) -> (r: Vec<PathComponent>)
    ensures
        r@.len() == path_components_of(p@).len(),
        forall|i: int| 0 <= i < r@.len() ==> r@[i]@ == path_components_of(p@)[i],
{
    std::path::Path::new(p).components().map(|c| match c {
        std::path::Component::Prefix(_) => PathComponent::Prefix,
        std::path::Component::RootDir => PathComponent::RootDir,
        std::path::Component::CurDir => PathComponent::CurDir,
        std::path::Component::ParentDir => PathComponent::ParentDir,
        std::path::Component::Normal(os) => PathComponent::Normal(os.to_string_lossy().into_owned()),
    }).collect()
}

/// `Path::file_stem`; the result is named, not spelled out.
#[verifier::external_body]
pub(crate) fn path_file_stem(p: &str) -> (r: Option<String>)
    ensures
        opt_view(r) == path_file_stem_of(p@),
{
    std::path::Path::new(p).file_stem().map(|q| q.to_string_lossy().into_owned())
}

/// `Path::extension`; the result is named, not spelled out.
#[verifier::external_body]
pub(crate) fn path_extension(p: &str) -> (r: Option<String>)
    ensures
        opt_view(r) == path_extension_of(p@),
{
    std::path::Path::new(p).extension().map(|q| q.to_string_lossy().into_owned())
}

// ---------------------------------------------------------------------------
// Publisher and category
// ---------------------------------------------------------------------------

/// The names of the normal components, in order (root, `.` and `..` dropped).
pub open spec fn normal_names(c: Seq<PathComponentView>) -> Seq<Seq<char>>
    decreases c.len(),
{
    if c.len() == 0 {
        Seq::empty()
    } else {
        let rest = normal_names(c.drop_last());
        match c.last() {
            PathComponentView::Normal(n) => rest.push(n),
            _ => rest,
        }
    }
}

/// The separator between category levels.
pub open spec fn category_sep() -> Seq<char> {
    seq![' ', '>', ' ']
}

/// The publisher: the first folder below the scan root, if any.
pub open spec fn publisher_of(names: Seq<Seq<char>>) -> Option<Seq<char>> {
    if names.len() >= 1 {
        Some(names[0])
    } else {
        None
    }
}

/// The category: the folders below the publisher joined by ` > `, if any.
pub open spec fn category_of(names: Seq<Seq<char>>) -> Option<Seq<char>> {
    if names.len() >= 2 {
        Some(join(names.drop_first(), category_sep()))
    } else {
        None
    }
}

/// The folder names as character sequences.
pub open spec fn names_view(v: Seq<String>) -> Seq<Seq<char>> {
    v.map_values(|s: String| s@)
}

/// Publisher and category from the folder names between the scan root and
/// the file: the first name is the publisher, the others joined by ` > `
/// are the category.
pub fn publisher_and_category(names: &Vec<String>) -> (r: (Option<String>, Option<String>))
    ensures
        opt_view(r.0) == publisher_of(names_view(names@)),
        opt_view(r.1) == category_of(names_view(names@)),
{
    let ghost nv = names_view(names@);
    if names.len() == 0 {
        return (None, None);
    }
    let publisher = names[0].clone();
    if names.len() == 1 {
        return (Some(publisher), None);
    }
    let mut cat = String::new();
    let mut i: usize = 1;
    assert(nv.subrange(1, 1) =~= Seq::<Seq<char>>::empty());
    while i < names.len()
        invariant
            1 <= i <= names@.len(),
            nv == names_view(names@),
            cat@ == join(nv.subrange(1, i as int), category_sep()),
        decreases names@.len() - i,
    {
        proof {
            lemma_join_push(nv.subrange(1, i as int), nv[i as int], category_sep());
            assert(nv.subrange(1, i + 1) =~= nv.subrange(1, i as int).push(nv[i as int]));
        }
        if i > 1 {
            cat.append(" > ");
            proof {
                reveal_strlit(" > ");
                assert(" > "@ =~= category_sep());
            }
        }
        cat.append(names[i].as_str());
        i = i + 1;
    }
    assert(nv.subrange(1, names@.len() as int) =~= nv.drop_first());
    (Some(publisher), Some(cat))
}

/// The names of the normal components of `comps`.
fn normal_component_names(comps: &Vec<PathComponent>) -> (r: Vec<String>)
    ensures
        names_view(r@) == normal_names(comps@.map_values(|c: PathComponent| c@)),
{
    let ghost cv = comps@.map_values(|c: PathComponent| c@);
    let mut out: Vec<String> = Vec::new();
    let mut i: usize = 0;
    while i < comps.len()
        invariant
            i <= comps@.len(),
            cv == comps@.map_values(|c: PathComponent| c@),
            names_view(out@) == normal_names(cv.take(i as int)),
        decreases comps@.len() - i,
    {
        assert(cv.take(i + 1).drop_last() =~= cv.take(i as int));
        match &comps[i] {
            PathComponent::Normal(name) => {
                let ghost before = out@;
                out.push(name.clone());
                assert(names_view(out@) =~= names_view(before).push(name@));
            },
            _ => {},
        }
        i = i + 1;
    }
    assert(cv.take(comps@.len() as int) =~= cv);
    out
}

// ---------------------------------------------------------------------------
// Path metadata
// ---------------------------------------------------------------------------

/// A missing value as the empty text.
pub open spec fn or_empty(o: Option<Seq<char>>) -> Seq<char> {
    match o {
        Some(s) => s,
        None => Seq::empty(),
    }
}

/// The file's path relative to the scan root (the full path when it is not
/// below the root).
pub open spec fn relative_path(root: Seq<char>, file: Seq<char>) -> Seq<char> {
    match path_strip_prefix_of(file, root) {
        Some(r) => r,
        None => file,
    }
}

/// The folder names between the scan root and the file.
pub open spec fn folder_names(root: Seq<char>, file: Seq<char>) -> Seq<Seq<char>> {
    normal_names(
        path_components_of(or_empty(path_parent_of(relative_path(root, file)))),
    )
}

/// Derives file name, extension, folder key, publisher and category of
/// `file_path` relative to the scan root `root`.
pub fn parse_path(root: &str, file_path: &str) -> (m: PathMetadata)
    ensures
        m.folder@ == folder_key(or_empty(path_parent_of(file_path@))),
        opt_view(m.publisher) == publisher_of(folder_names(root@, file_path@)),
        opt_view(m.category) == category_of(folder_names(root@, file_path@)),
        m.filename@ == or_empty(path_file_stem_of(file_path@)),
        m.extension@ == unicode_lowercase(or_empty(path_extension_of(file_path@))),
{
    let parent = match path_parent(file_path) {
        Some(p) => p,
        None => String::new(),
    };
    let folder = normalize_folder_key(parent.as_str());
    let rel = match path_strip_prefix(file_path, root) {
        Some(r) => r,
        None => String::from_str(file_path),
    };
    let rel_parent = match path_parent(rel.as_str()) {
        Some(p) => p,
        None => String::new(),
    };
    let comps = path_components(rel_parent.as_str());
    assert(comps@.map_values(|c: PathComponent| c@) =~= path_components_of(rel_parent@));
    let names = normal_component_names(&comps);
    let (publisher, category) = publisher_and_category(&names);
    let filename = match path_file_stem(file_path) {
        Some(s) => s,
        None => String::new(),
    };
    let ext = match path_extension(file_path) {
        Some(e) => e,
        None => String::new(),
    };
    let extension = str_to_lowercase(ext.as_str());
    PathMetadata { filename, extension, folder, publisher, category }
}

} // verus!
