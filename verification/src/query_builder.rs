//! Full-text query sanitising and SQL construction for [`SearchQuery`].

use vstd::prelude::*;

use crate::models::{SearchQuery, SortDirection, SortField};
use vstd::string::StringExecFns;

use crate::text::{
    is_collapsed, lemma_join_collapsed, lemma_pieces_clean, lemma_words_of_join, append_chars, chars_eq, chars_of, char_seqs, join_chars, split_pieces, words, is_ws, Separators, str_to_lowercase, unicode_lowercase, join, lemma_join_push, string_of,
    trim, trim_chars,
};

verus! {

broadcast use vstd::string::group_string_axioms;

/// Minimum non-empty query length (in characters) to use full-text `MATCH`
/// instead of `LIKE`.
pub const FTS_MIN_QUERY_CHARS: usize = 3;

// ---------------------------------------------------------------------------
// Sanitising
// ---------------------------------------------------------------------------

/// Characters with a meaning in the full-text query language.
pub open spec fn is_fts_operator(c: char) -> bool {
    c == '(' || c == ')' || c == ':' || c == '^' || c == '*' || c == '"'
}

/// Every full-text operator character replaced by a space.
pub open spec fn blank_fts_operators(s: Seq<char>) -> Seq<char> {
    s.map_values(|c: char| if is_fts_operator(c) { ' ' } else { c })
}

/// The boolean operator words of the full-text query language, lowercase.
pub open spec fn is_bool_keyword(w: Seq<char>) -> bool {
    w == seq!['a', 'n', 'd'] || w == seq!['o', 'r'] || w == seq!['n', 'o', 't']
}

/// The words of `ws` that are not boolean operator words, in order.
pub open spec fn drop_keywords(ws: Seq<Seq<char>>) -> Seq<Seq<char>> {
    ws.filter(|w: Seq<char>| !is_bool_keyword(w))
}

/// What the sanitiser makes of already-lowercased text: its words, without
/// the standalone words `and`, `or`, `not`, joined by single spaces.
pub open spec fn sanitize_lowered(l: Seq<char>) -> Seq<char> {
    join(drop_keywords(words(l)), seq![' '])
}

/// The full sanitiser: operators blanked, text lowercased, keywords removed,
/// whitespace collapsed.
pub open spec fn sanitize_spec(input: Seq<char>) -> Seq<char> {
    sanitize_lowered(unicode_lowercase(blank_fts_operators(input)))
}

/// Whether the word `w` is one of `and`, `or`, `not`.
fn word_is_bool_keyword(w: &[char]) -> (r: bool)
    ensures
        r == is_bool_keyword(w@),
{
    let and_w: Vec<char> = vec!['a', 'n', 'd'];
    let or_w: Vec<char> = vec!['o', 'r'];
    let not_w: Vec<char> = vec!['n', 'o', 't'];
    assert(and_w@ =~= seq!['a', 'n', 'd']);
    assert(or_w@ =~= seq!['o', 'r']);
    assert(not_w@ =~= seq!['n', 'o', 't']);
    chars_eq(w, &and_w) || chars_eq(w, &or_w) || chars_eq(w, &not_w)
}

/// The sanitiser's work on text that is already lowercase: drops the
/// standalone words `and`, `or`, `not` and joins the rest by single spaces.
pub fn sanitize_lowercased(lowered: &str) -> (r: String)
    ensures
        r@ == sanitize_lowered(lowered@),
{
    let chars = chars_of(lowered);
    let ws = split_pieces(&chars, Separators::Whitespace);
    let ghost wv = char_seqs(ws@);
    let mut kept: Vec<Vec<char>> = Vec::new();
    let mut i: usize = 0;
    while i < ws.len()
        invariant
            i <= ws@.len(),
            wv == char_seqs(ws@),
            wv == words(chars@),
            char_seqs(kept@) == drop_keywords(wv.take(i as int)),
        decreases ws@.len() - i,
    {
        proof {
            reveal(Seq::filter);
            assert(wv.take(i + 1).drop_last() =~= wv.take(i as int));
            assert(wv.take(i + 1).last() == wv[i as int]);
        }
        if !word_is_bool_keyword(&ws[i]) {
            let ghost before = kept@;
            let mut w: Vec<char> = Vec::new();
            append_chars(&mut w, &ws[i]);
            kept.push(w);
            proof {
                assert(char_seqs(kept@) =~= char_seqs(before).push(wv[i as int]));
            }
        }
        i = i + 1;
    }
    assert(wv.take(ws@.len() as int) =~= wv);
    let joined = join_chars(&kept, ' ');
    string_of(&joined)
}

/// Strips characters and keywords that the full-text query language would
/// interpret, lowercases, and collapses whitespace.
pub fn sanitize_fts_query(input: &str) -> (r: String)
    ensures
        r@ == sanitize_spec(input@),
{
    let chars = chars_of(input);
    let mut blanked: Vec<char> = Vec::new();
    let mut k: usize = 0;
    while k < chars.len()
        invariant
            k <= chars@.len(),
            blanked@ == blank_fts_operators(chars@.take(k as int)),
        decreases chars@.len() - k,
    {
        let c = chars[k];
        let d = if c == '(' || c == ')' || c == ':' || c == '^' || c == '*' || c == '"' {
            ' '
        } else {
            c
        };
        blanked.push(d);
        assert(blank_fts_operators(chars@.take(k + 1)) =~= blank_fts_operators(
            chars@.take(k as int),
        ).push(d));
        k = k + 1;
    }
    assert(chars@.take(chars@.len() as int) =~= chars@);
    let blanked_str = string_of(&blanked);
    let lowered = str_to_lowercase(blanked_str.as_str());
    sanitize_lowercased(lowered.as_str())
}

} // verus!

verus! {

// ---------------------------------------------------------------------------
// SQL parameters
// ---------------------------------------------------------------------------

/// A bound parameter of a generated statement.
#[derive(Debug, Clone, PartialEq)]
pub enum SqlParam {
    Integer(i64),
    Text(String),
}

/// A parameter as a plain value.
pub enum SqlParamView {
    Integer(i64),
    Text(Seq<char>),
}

impl View for SqlParam {
    type V = SqlParamView;

    open spec fn view(&self) -> SqlParamView {
        match self {
            SqlParam::Integer(i) => SqlParamView::Integer(*i),
            SqlParam::Text(s) => SqlParamView::Text(s@),
        }
    }
}

/// The parameters of a statement as plain values.
pub open spec fn params_view(p: Seq<SqlParam>) -> Seq<SqlParamView> {
    p.map_values(|x: SqlParam| x@)
}

/// Text parameters, one per string.
pub open spec fn text_params(v: Seq<String>) -> Seq<SqlParamView> {
    v.map_values(|s: String| SqlParamView::Text(s@))
}

/// Integer parameters, one per value.
pub open spec fn int_params(v: Seq<i32>) -> Seq<SqlParamView> {
    v.map_values(|x: i32| SqlParamView::Integer(x as i64))
}

/// `n` question marks separated by commas.
pub open spec fn placeholders(n: nat) -> Seq<char> {
    join(Seq::new(n, |i: int| seq!['?']), seq![','])
}

/// An empty fragment.
pub open spec fn no_fragment() -> (Seq<char>, Seq<SqlParamView>) {
    (Seq::empty(), Seq::empty())
}

// ---------------------------------------------------------------------------
// Filter fragments
// ---------------------------------------------------------------------------

pub open spec fn extension_filter(q: SearchQuery) -> (Seq<char>, Seq<SqlParamView>) {
    match q.extensions {
        Some(e) => if e@.len() > 0 {
            (" AND a.extension IN ("@ + placeholders(e@.len()) + ")"@, text_params(e@))
        } else {
            no_fragment()
        },
        None => no_fragment(),
    }
}

pub open spec fn duration_min_filter(q: SearchQuery) -> (Seq<char>, Seq<SqlParamView>) {
    match q.duration_min {
        Some(m) => (
            " AND (a.duration_ms IS NOT NULL AND a.duration_ms >= ?)"@,
            seq![SqlParamView::Integer(m)],
        ),
        None => no_fragment(),
    }
}

pub open spec fn duration_max_filter(q: SearchQuery) -> (Seq<char>, Seq<SqlParamView>) {
    match q.duration_max {
        Some(m) => (
            " AND (a.duration_ms IS NOT NULL AND a.duration_ms <= ?)"@,
            seq![SqlParamView::Integer(m)],
        ),
        None => no_fragment(),
    }
}

pub open spec fn sample_rate_filter(q: SearchQuery) -> (Seq<char>, Seq<SqlParamView>) {
    match q.sample_rates {
        Some(r) => if r@.len() > 0 {
            (" AND a.sample_rate IN ("@ + placeholders(r@.len()) + ")"@, int_params(r@))
        } else {
            no_fragment()
        },
        None => no_fragment(),
    }
}

pub open spec fn channels_filter(q: SearchQuery) -> (Seq<char>, Seq<SqlParamView>) {
    match q.channels {
        Some(c) => (" AND a.channels = ?"@, seq![SqlParamView::Integer(c as i64)]),
        None => no_fragment(),
    }
}

pub open spec fn favorites_filter(q: SearchQuery) -> (Seq<char>, Seq<SqlParamView>) {
    if q.favorites_only {
        (" AND a.favorite = 1"@, Seq::empty())
    } else {
        no_fragment()
    }
}

pub open spec fn publisher_filter(q: SearchQuery) -> (Seq<char>, Seq<SqlParamView>) {
    match q.publisher {
        Some(p) => (" AND a.publisher = ?"@, seq![SqlParamView::Text(p@)]),
        None => no_fragment(),
    }
}

pub open spec fn tags_filter(q: SearchQuery) -> (Seq<char>, Seq<SqlParamView>) {
    match q.tags {
        Some(t) => if t@.len() > 0 {
            (
                " AND a.id IN (SELECT at.asset_id FROM asset_tags at INNER JOIN tags t ON t.id = at.tag_id WHERE t.name IN ("@
                    + placeholders(t@.len()) + "))"@,
                text_params(t@),
            )
        } else {
            no_fragment()
        },
        None => no_fragment(),
    }
}

/// The subtree condition: the folder itself or any folder below it.
pub open spec fn subtree_condition() -> Seq<char> {
    " AND (a.folder = ? OR (LENGTH(a.folder) > LENGTH(?) AND SUBSTR(a.folder, 1, LENGTH(?)) = ? AND SUBSTR(a.folder, LENGTH(?) + 1, 1) = '/'))"@
}

pub open spec fn folder_filter(q: SearchQuery) -> (Seq<char>, Seq<SqlParamView>) {
    match q.folder_root {
        Some(root) => if root@.len() == 0 {
            (" AND 1=0"@, Seq::empty())
        } else if root@ != seq!['/'] {
            (subtree_condition(), Seq::new(5, |i: int| SqlParamView::Text(root@)))
        } else {
            no_fragment()
        },
        None => no_fragment(),
    }
}

/// All filter conditions of `q`, in order, with their parameters.
pub open spec fn filters(q: SearchQuery) -> (Seq<char>, Seq<SqlParamView>) {
    let f = seq![
        extension_filter(q),
        duration_min_filter(q),
        duration_max_filter(q),
        sample_rate_filter(q),
        channels_filter(q),
        favorites_filter(q),
        publisher_filter(q),
        tags_filter(q),
        folder_filter(q),
    ];
    (concat_sql(f), concat_params(f))
}

/// The SQL texts of `f`, one after the other.
pub open spec fn concat_sql(f: Seq<(Seq<char>, Seq<SqlParamView>)>) -> Seq<char>
    decreases f.len(),
{
    if f.len() == 0 {
        Seq::empty()
    } else {
        concat_sql(f.drop_last()) + f.last().0
    }
}

/// The parameters of `f`, one list after the other.
pub open spec fn concat_params(f: Seq<(Seq<char>, Seq<SqlParamView>)>) -> Seq<SqlParamView>
    decreases f.len(),
{
    if f.len() == 0 {
        Seq::empty()
    } else {
        concat_params(f.drop_last()) + f.last().1
    }
}

/// Appends `n` comma-separated placeholders.
fn push_placeholders(sql: &mut String, n: usize)
    ensures
        final(sql)@ == old(sql)@ + placeholders(n as nat),
{
    let ghost start = sql@;
    let mut i: usize = 0;
    while i < n
        invariant
            i <= n,
            sql@ == start + placeholders(i as nat),
        decreases n - i,
    {
        proof {
            let parts = Seq::new(i as nat, |k: int| seq!['?']);
            assert(Seq::new((i + 1) as nat, |k: int| seq!['?']) =~= parts.push(seq!['?']));
            lemma_join_push(parts, seq!['?'], seq![',']);
        }
        if i > 0 {
            push_str_chars(sql, ',');
        }
        push_str_chars(sql, '?');
        proof {
            if i == 0 {
                assert(sql@ =~= start + placeholders(1));
            } else {
                assert(sql@ =~= start + placeholders((i + 1) as nat));
            }
        }
        i = i + 1;
    }
}

/// Appends one character to a `String`.
fn push_str_chars(sql: &mut String, c: char)
    ensures
        final(sql)@ == old(sql)@.push(c),
{
    crate::text::push_char(sql, c);
}

/// Appends a text parameter for each string of `v`.
fn push_text_params(params: &mut Vec<SqlParam>, v: &Vec<String>)
    ensures
        params_view(final(params)@) == params_view(old(params)@) + text_params(v@),
{
    let ghost start = params_view(params@);
    let mut i: usize = 0;
    while i < v.len()
        invariant
            i <= v@.len(),
            params_view(params@) == start + text_params(v@.take(i as int)),
        decreases v@.len() - i,
    {
        let ghost before = params@;
        params.push(SqlParam::Text(v[i].clone()));
        assert(params_view(params@) =~= params_view(before).push(SqlParamView::Text(v@[i as int]@)));
        assert(text_params(v@.take(i + 1)) =~= text_params(v@.take(i as int)).push(
            SqlParamView::Text(v@[i as int]@),
        ));
        i = i + 1;
    }
    assert(v@.take(v@.len() as int) =~= v@);
}

/// Appends an integer parameter for each value of `v`.
fn push_int_params(params: &mut Vec<SqlParam>, v: &Vec<i32>)
    ensures
        params_view(final(params)@) == params_view(old(params)@) + int_params(v@),
{
    let ghost start = params_view(params@);
    let mut i: usize = 0;
    while i < v.len()
        invariant
            i <= v@.len(),
            params_view(params@) == start + int_params(v@.take(i as int)),
        decreases v@.len() - i,
    {
        let ghost before = params@;
        params.push(SqlParam::Integer(v[i] as i64));
        assert(params_view(params@) =~= params_view(before).push(
            SqlParamView::Integer(v@[i as int] as i64),
        ));
        assert(int_params(v@.take(i + 1)) =~= int_params(v@.take(i as int)).push(
            SqlParamView::Integer(v@[i as int] as i64),
        ));
        i = i + 1;
    }
    assert(v@.take(v@.len() as int) =~= v@);
}

/// Appends one parameter.
fn push_param(params: &mut Vec<SqlParam>, p: SqlParam)
    ensures
        params_view(final(params)@) == params_view(old(params)@).push(p@),
{
    params.push(p);
    assert(params_view(params@) =~= params_view(old(params)@).push(p@));
}

/// Appends the SQL and parameters of one fragment.
proof fn lemma_fragment_step(
    f: Seq<(Seq<char>, Seq<SqlParamView>)>,
    x: (Seq<char>, Seq<SqlParamView>),
)
    ensures
        concat_sql(f.push(x)) == concat_sql(f) + x.0,
        concat_params(f.push(x)) == concat_params(f) + x.1,
{
    assert(f.push(x).drop_last() =~= f);
}

fn append_extension_filter(sql: &mut String, params: &mut Vec<SqlParam>, query: &SearchQuery)
    ensures
        final(sql)@ == old(sql)@ + extension_filter(*query).0,
        params_view(final(params)@) == params_view(old(params)@) + extension_filter(*query).1,
{
    if let Some(exts) = &query.extensions {
        if exts.len() > 0 {
            sql.append(" AND a.extension IN (");
            push_placeholders(sql, exts.len());
            sql.append(")");
            push_text_params(params, exts);
        }
    }
    assert(params_view(final(params)@) =~= params_view(old(params)@) + extension_filter(*query).1);
}

fn append_duration_min_filter(sql: &mut String, params: &mut Vec<SqlParam>, query: &SearchQuery)
    ensures
        final(sql)@ == old(sql)@ + duration_min_filter(*query).0,
        params_view(final(params)@) == params_view(old(params)@) + duration_min_filter(*query).1,
{
    if let Some(min) = query.duration_min {
        sql.append(" AND (a.duration_ms IS NOT NULL AND a.duration_ms >= ?)");
        push_param(params, SqlParam::Integer(min));
    }
    assert(params_view(final(params)@) =~= params_view(old(params)@) + duration_min_filter(*query).1);
}

fn append_duration_max_filter(sql: &mut String, params: &mut Vec<SqlParam>, query: &SearchQuery)
    ensures
        final(sql)@ == old(sql)@ + duration_max_filter(*query).0,
        params_view(final(params)@) == params_view(old(params)@) + duration_max_filter(*query).1,
{
    if let Some(max) = query.duration_max {
        sql.append(" AND (a.duration_ms IS NOT NULL AND a.duration_ms <= ?)");
        push_param(params, SqlParam::Integer(max));
    }
    assert(params_view(final(params)@) =~= params_view(old(params)@) + duration_max_filter(*query).1);
}

fn append_sample_rate_filter(sql: &mut String, params: &mut Vec<SqlParam>, query: &SearchQuery)
    ensures
        final(sql)@ == old(sql)@ + sample_rate_filter(*query).0,
        params_view(final(params)@) == params_view(old(params)@) + sample_rate_filter(*query).1,
{
    if let Some(rates) = &query.sample_rates {
        if rates.len() > 0 {
            sql.append(" AND a.sample_rate IN (");
            push_placeholders(sql, rates.len());
            sql.append(")");
            push_int_params(params, rates);
        }
    }
    assert(params_view(final(params)@) =~= params_view(old(params)@) + sample_rate_filter(*query).1);
}

fn append_channels_filter(sql: &mut String, params: &mut Vec<SqlParam>, query: &SearchQuery)
    ensures
        final(sql)@ == old(sql)@ + channels_filter(*query).0,
        params_view(final(params)@) == params_view(old(params)@) + channels_filter(*query).1,
{
    if let Some(ch) = query.channels {
        sql.append(" AND a.channels = ?");
        push_param(params, SqlParam::Integer(ch as i64));
    }
    assert(params_view(final(params)@) =~= params_view(old(params)@) + channels_filter(*query).1);
}

fn append_favorites_filter(sql: &mut String, params: &mut Vec<SqlParam>, query: &SearchQuery)
    ensures
        final(sql)@ == old(sql)@ + favorites_filter(*query).0,
        params_view(final(params)@) == params_view(old(params)@) + favorites_filter(*query).1,
{
    if query.favorites_only {
        sql.append(" AND a.favorite = 1");
    }
    assert(params_view(final(params)@) =~= params_view(old(params)@) + favorites_filter(*query).1);
}

fn append_publisher_filter(sql: &mut String, params: &mut Vec<SqlParam>, query: &SearchQuery)
    ensures
        final(sql)@ == old(sql)@ + publisher_filter(*query).0,
        params_view(final(params)@) == params_view(old(params)@) + publisher_filter(*query).1,
{
    if let Some(pub_name) = &query.publisher {
        sql.append(" AND a.publisher = ?");
        push_param(params, SqlParam::Text(pub_name.clone()));
    }
    assert(params_view(final(params)@) =~= params_view(old(params)@) + publisher_filter(*query).1);
}

fn append_tags_filter(sql: &mut String, params: &mut Vec<SqlParam>, query: &SearchQuery)
    ensures
        final(sql)@ == old(sql)@ + tags_filter(*query).0,
        params_view(final(params)@) == params_view(old(params)@) + tags_filter(*query).1,
{
    if let Some(tags) = &query.tags {
        if tags.len() > 0 {
            sql.append(
                " AND a.id IN (SELECT at.asset_id FROM asset_tags at INNER JOIN tags t ON t.id = at.tag_id WHERE t.name IN (",
            );
            push_placeholders(sql, tags.len());
            sql.append("))");
            push_text_params(params, tags);
        }
    }
    assert(params_view(final(params)@) =~= params_view(old(params)@) + tags_filter(*query).1);
}

fn append_folder_filter(sql: &mut String, params: &mut Vec<SqlParam>, query: &SearchQuery)
    ensures
        final(sql)@ == old(sql)@ + folder_filter(*query).0,
        params_view(final(params)@) == params_view(old(params)@) + folder_filter(*query).1,
{
    if let Some(root) = &query.folder_root {
        let rc = chars_of(root.as_str());
        if rc.len() == 0 {
            sql.append(" AND 1=0");
        } else if !(rc.len() == 1 && rc[0] == '/') {
            sql.append(
                " AND (a.folder = ? OR (LENGTH(a.folder) > LENGTH(?) AND SUBSTR(a.folder, 1, LENGTH(?)) = ? AND SUBSTR(a.folder, LENGTH(?) + 1, 1) = '/'))",
            );
            let mut i: usize = 0;
            let ghost pb = params_view(params@);
            while i < 5
                invariant
                    i <= 5,
                    root@ == rc@,
                    params_view(params@) == pb + Seq::new(i as nat, |j: int| SqlParamView::Text(root@)),
                decreases 5 - i,
            {
                push_param(params, SqlParam::Text(root.clone()));
                assert(Seq::new((i + 1) as nat, |j: int| SqlParamView::Text(root@)) =~= Seq::new(
                    i as nat,
                    |j: int| SqlParamView::Text(root@),
                ).push(SqlParamView::Text(root@)));
                i = i + 1;
            }
        } else {
            assert(rc@ =~= seq!['/']);
        }
    }
    assert(params_view(final(params)@) =~= params_view(old(params)@) + folder_filter(*query).1);
}

/// Appends the filter conditions of `query` and their parameters.
pub fn append_filters(sql: &mut String, params: &mut Vec<SqlParam>, query: &SearchQuery)
    ensures
        final(sql)@ == old(sql)@ + filters(*query).0,
        params_view(final(params)@) == params_view(old(params)@) + filters(*query).1,
{
    let ghost q = *query;
    let ghost f = seq![
        extension_filter(q),
        duration_min_filter(q),
        duration_max_filter(q),
        sample_rate_filter(q),
        channels_filter(q),
        favorites_filter(q),
        publisher_filter(q),
        tags_filter(q),
        folder_filter(q),
    ];
    let ghost s0 = sql@;
    let ghost p0 = params_view(params@);
    append_extension_filter(sql, params, query);
    let ghost s1 = sql@;
    let ghost p1 = params_view(params@);
    append_duration_min_filter(sql, params, query);
    let ghost s2 = sql@;
    let ghost p2 = params_view(params@);
    append_duration_max_filter(sql, params, query);
    let ghost s3 = sql@;
    let ghost p3 = params_view(params@);
    append_sample_rate_filter(sql, params, query);
    let ghost s4 = sql@;
    let ghost p4 = params_view(params@);
    append_channels_filter(sql, params, query);
    let ghost s5 = sql@;
    let ghost p5 = params_view(params@);
    append_favorites_filter(sql, params, query);
    let ghost s6 = sql@;
    let ghost p6 = params_view(params@);
    append_publisher_filter(sql, params, query);
    let ghost s7 = sql@;
    let ghost p7 = params_view(params@);
    append_tags_filter(sql, params, query);
    let ghost s8 = sql@;
    let ghost p8 = params_view(params@);
    append_folder_filter(sql, params, query);
    proof {
        lemma_filters_unfold(q);
        lemma_concat9(
            s0,
            extension_filter(q).0,
            duration_min_filter(q).0,
            duration_max_filter(q).0,
            sample_rate_filter(q).0,
            channels_filter(q).0,
            favorites_filter(q).0,
            publisher_filter(q).0,
            tags_filter(q).0,
            folder_filter(q).0,
        );
        lemma_concat9(
            p0,
            extension_filter(q).1,
            duration_min_filter(q).1,
            duration_max_filter(q).1,
            sample_rate_filter(q).1,
            channels_filter(q).1,
            favorites_filter(q).1,
            publisher_filter(q).1,
            tags_filter(q).1,
            folder_filter(q).1,
        );
    }
}

/// Appending nine pieces one by one is appending their concatenation.
proof fn lemma_concat9<A>(
    s: Seq<A>,
    a: Seq<A>,
    b: Seq<A>,
    c: Seq<A>,
    d: Seq<A>,
    e: Seq<A>,
    f: Seq<A>,
    g: Seq<A>,
    h: Seq<A>,
    i: Seq<A>,
)
    ensures
        s + a + b + c + d + e + f + g + h + i == s + (a + b + c + d + e + f + g + h + i),
{
    assert(s + a + b + c + d + e + f + g + h + i =~= s + (a + b + c + d + e + f + g + h + i));
}

/// The filter text and parameters, fragment by fragment.
pub proof fn lemma_filters_unfold(q: SearchQuery)
    ensures
        filters(q).0 == extension_filter(q).0 + duration_min_filter(q).0 + duration_max_filter(q).0
            + sample_rate_filter(q).0 + channels_filter(q).0 + favorites_filter(q).0
            + publisher_filter(q).0 + tags_filter(q).0 + folder_filter(q).0,
        filters(q).1 == extension_filter(q).1 + duration_min_filter(q).1 + duration_max_filter(q).1
            + sample_rate_filter(q).1 + channels_filter(q).1 + favorites_filter(q).1
            + publisher_filter(q).1 + tags_filter(q).1 + folder_filter(q).1,
{
    let f = seq![
        extension_filter(q),
        duration_min_filter(q),
        duration_max_filter(q),
        sample_rate_filter(q),
        channels_filter(q),
        favorites_filter(q),
        publisher_filter(q),
        tags_filter(q),
        folder_filter(q),
    ];
    let e: Seq<(Seq<char>, Seq<SqlParamView>)> = Seq::empty();
    lemma_fragment_step(e, f[0]);
    assert(e.push(f[0]) =~= f.take(1));
    lemma_fragment_step(f.take(1), f[1]);
    assert(f.take(1).push(f[1]) =~= f.take(2));
    lemma_fragment_step(f.take(2), f[2]);
    assert(f.take(2).push(f[2]) =~= f.take(3));
    lemma_fragment_step(f.take(3), f[3]);
    assert(f.take(3).push(f[3]) =~= f.take(4));
    lemma_fragment_step(f.take(4), f[4]);
    assert(f.take(4).push(f[4]) =~= f.take(5));
    lemma_fragment_step(f.take(5), f[5]);
    assert(f.take(5).push(f[5]) =~= f.take(6));
    lemma_fragment_step(f.take(6), f[6]);
    assert(f.take(6).push(f[6]) =~= f.take(7));
    lemma_fragment_step(f.take(7), f[7]);
    assert(f.take(7).push(f[7]) =~= f.take(8));
    lemma_fragment_step(f.take(8), f[8]);
    assert(f.take(8).push(f[8]) =~= f);
    assert(concat_sql(e) =~= Seq::empty());
    assert(concat_params(e) =~= Seq::empty());
}

// ---------------------------------------------------------------------------
// Statements
// ---------------------------------------------------------------------------

/// The column list every result query selects.
pub open spec fn select_assets() -> Seq<char> {
    "SELECT a.id, a.path, a.filename, a.extension, a.folder, a.duration_ms, a.sample_rate, a.channels, a.bit_depth, a.file_size, a.category, a.publisher, a.favorite, a.rating, a.notes, a.play_count FROM assets a"@
}

/// The search terms of a query: its sanitised text, trimmed.
pub open spec fn search_terms(q: SearchQuery) -> Seq<char> {
    trim(sanitize_spec(q.text@))
}

/// Whether the terms are long enough for a full-text `MATCH`.
pub open spec fn uses_fts(terms: Seq<char>) -> bool {
    terms.len() >= FTS_MIN_QUERY_CHARS
}

/// The text condition: full-text match for long terms, a filename `LIKE`
/// for short ones, none for empty terms.
pub open spec fn where_clause(terms: Seq<char>) -> (Seq<char>, Seq<SqlParamView>) {
    if uses_fts(terms) {
        (
            " INNER JOIN assets_fts ON assets_fts.rowid = a.id WHERE assets_fts MATCH ?"@,
            seq![SqlParamView::Text(terms)],
        )
    } else if terms.len() > 0 {
        (" WHERE a.filename LIKE ?"@, seq![SqlParamView::Text(seq!['%'] + terms + seq!['%'])])
    } else {
        (" WHERE 1=1"@, Seq::empty())
    }
}

/// The `ORDER BY` clause for the query's sort field and direction.
pub open spec fn order_clause(q: SearchQuery, fts: bool) -> Seq<char> {
    let asc = q.sort_dir == SortDirection::Asc;
    match q.sort_by {
        SortField::Relevance => if fts {
            " ORDER BY bm25(assets_fts)"@ + if asc {
                " ASC"@
            } else {
                " DESC"@
            }
        } else {
            " ORDER BY a.filename ASC"@
        },
        SortField::Name => " ORDER BY a.filename "@ + if asc {
            "ASC"@
        } else {
            "DESC"@
        },
        SortField::Duration => " ORDER BY a.duration_ms "@ + if asc {
            "ASC NULLS LAST"@
        } else {
            "DESC NULLS LAST"@
        },
        SortField::Date => " ORDER BY a.indexed_at "@ + if asc {
            "ASC"@
        } else {
            "DESC"@
        },
    }
}

/// The result-page statement for `q` with the given search terms.
pub open spec fn search_statement(q: SearchQuery, terms: Seq<char>) -> (
    Seq<char>,
    Seq<SqlParamView>,
) {
    let w = where_clause(terms);
    let f = filters(q);
    (
        select_assets() + w.0 + f.0 + order_clause(q, uses_fts(terms)) + " LIMIT ? OFFSET ?"@,
        w.1 + f.1 + seq![SqlParamView::Integer(q.limit as i64), SqlParamView::Integer(q.offset as i64)],
    )
}

/// The row-count statement for `q` with the given search terms.
pub open spec fn count_statement(q: SearchQuery, terms: Seq<char>) -> (
    Seq<char>,
    Seq<SqlParamView>,
) {
    let w = where_clause(terms);
    let f = filters(q);
    ("SELECT COUNT(*) FROM assets a"@ + w.0 + f.0, w.1 + f.1)
}

/// Appends the text condition for `terms`.
fn append_where(sql: &mut String, params: &mut Vec<SqlParam>, terms: &Vec<char>)
    ensures
        final(sql)@ == old(sql)@ + where_clause(terms@).0,
        params_view(final(params)@) == params_view(old(params)@) + where_clause(terms@).1,
{
    if terms.len() >= FTS_MIN_QUERY_CHARS {
        sql.append(" INNER JOIN assets_fts ON assets_fts.rowid = a.id WHERE assets_fts MATCH ?");
        push_param(params, SqlParam::Text(string_of(terms)));
    } else if terms.len() > 0 {
        sql.append(" WHERE a.filename LIKE ?");
        let mut pattern: Vec<char> = Vec::new();
        pattern.push('%');
        append_chars(&mut pattern, terms);
        pattern.push('%');
        assert(pattern@ =~= seq!['%'] + terms@ + seq!['%']);
        push_param(params, SqlParam::Text(string_of(&pattern)));
    } else {
        sql.append(" WHERE 1=1");
    }
    assert(params_view(final(params)@) =~= params_view(old(params)@) + where_clause(terms@).1);
}

/// Appends the `ORDER BY` clause.
fn append_order(sql: &mut String, query: &SearchQuery, fts: bool)
    ensures
        final(sql)@ == old(sql)@ + order_clause(*query, fts),
{
    let asc = query.sort_dir == SortDirection::Asc;
    match query.sort_by {
        SortField::Relevance => {
            if fts {
                sql.append(" ORDER BY bm25(assets_fts)");
                if asc {
                    sql.append(" ASC");
                } else {
                    sql.append(" DESC");
                }
            } else {
                sql.append(" ORDER BY a.filename ASC");
            }
        },
        SortField::Name => {
            sql.append(" ORDER BY a.filename ");
            sql.append(if asc { "ASC" } else { "DESC" });
        },
        SortField::Duration => {
            sql.append(" ORDER BY a.duration_ms ");
            sql.append(if asc { "ASC NULLS LAST" } else { "DESC NULLS LAST" });
        },
        SortField::Date => {
            sql.append(" ORDER BY a.indexed_at ");
            sql.append(if asc { "ASC" } else { "DESC" });
        },
    }
    assert(sql@ =~= old(sql)@ + order_clause(*query, fts));
}

/// The result-page statement and its parameters for already-sanitised
/// search text (trimmed here).
pub fn search_sql_for_terms(query: &SearchQuery, sanitized: &str) -> (r: (String, Vec<SqlParam>))
    ensures
        r.0@ == search_statement(*query, trim(sanitized@)).0,
        params_view(r.1@) == search_statement(*query, trim(sanitized@)).1,
{
    let chars = chars_of(sanitized);
    let terms = trim_chars(&chars);
    let mut params: Vec<SqlParam> = Vec::new();
    let mut sql = String::from_str(
        "SELECT a.id, a.path, a.filename, a.extension, a.folder, a.duration_ms, a.sample_rate, a.channels, a.bit_depth, a.file_size, a.category, a.publisher, a.favorite, a.rating, a.notes, a.play_count FROM assets a",
    );
    let ghost p0 = params_view(params@);
    assert(p0 =~= Seq::empty());
    append_where(&mut sql, &mut params, &terms);
    let ghost s1 = sql@;
    let ghost p1 = params_view(params@);
    append_filters(&mut sql, &mut params, query);
    let ghost s2 = sql@;
    let ghost p2 = params_view(params@);
    append_order(&mut sql, query, terms.len() >= FTS_MIN_QUERY_CHARS);
    sql.append(" LIMIT ? OFFSET ?");
    push_param(&mut params, SqlParam::Integer(query.limit as i64));
    push_param(&mut params, SqlParam::Integer(query.offset as i64));
    proof {
        let st = search_statement(*query, terms@);
        assert(sql@ =~= st.0);
        assert(params_view(params@) =~= st.1);
    }
    (sql, params)
}

/// The row-count statement and its parameters for already-sanitised search
/// text (trimmed here).
pub fn count_sql_for_terms(query: &SearchQuery, sanitized: &str) -> (r: (String, Vec<SqlParam>))
    ensures
        r.0@ == count_statement(*query, trim(sanitized@)).0,
        params_view(r.1@) == count_statement(*query, trim(sanitized@)).1,
{
    let chars = chars_of(sanitized);
    let terms = trim_chars(&chars);
    let mut params: Vec<SqlParam> = Vec::new();
    let mut sql = String::from_str("SELECT COUNT(*) FROM assets a");
    assert(params_view(params@) =~= Seq::empty());
    append_where(&mut sql, &mut params, &terms);
    append_filters(&mut sql, &mut params, query);
    proof {
        let st = count_statement(*query, terms@);
        assert(sql@ =~= st.0);
        assert(params_view(params@) =~= st.1);
    }
    (sql, params)
}

/// Builds the result-page statement for `query` with its parameters.
pub fn build_search_sql(query: &SearchQuery) -> (r: (String, Vec<SqlParam>))
    ensures
        r.0@ == search_statement(*query, search_terms(*query)).0,
        params_view(r.1@) == search_statement(*query, search_terms(*query)).1,
{
    let sanitized = sanitize_fts_query(query.text.as_str());
    search_sql_for_terms(query, sanitized.as_str())
}

/// Builds the statement counting the rows that match `query`'s filters
/// (no order, no limit).
pub fn build_count_sql(query: &SearchQuery) -> (r: (String, Vec<SqlParam>))
    ensures
        r.0@ == count_statement(*query, search_terms(*query)).0,
        params_view(r.1@) == count_statement(*query, search_terms(*query)).1,
{
    let sanitized = sanitize_fts_query(query.text.as_str());
    count_sql_for_terms(query, sanitized.as_str())
}

/// The `AND ...` filter fragment of `query` with its parameters, for
/// composing with another `WHERE` clause.
pub fn filter_suffix(query: &SearchQuery) -> (r: (String, Vec<SqlParam>))
    ensures
        r.0@ == filters(*query).0,
        params_view(r.1@) == filters(*query).1,
{
    let mut sql = String::new();
    let mut params: Vec<SqlParam> = Vec::new();
    assert(params_view(params@) =~= Seq::empty());
    append_filters(&mut sql, &mut params, query);
    assert(sql@ =~= filters(*query).0);
    assert(params_view(params@) =~= filters(*query).1);
    (sql, params)
}

// ---------------------------------------------------------------------------
// Placeholders match parameters
// ---------------------------------------------------------------------------

/// How many times `c` occurs in `s`.
pub open spec fn count_char(s: Seq<char>, c: char) -> nat
    decreases s.len(),
{
    if s.len() == 0 {
        0
    } else {
        count_char(s.drop_last(), c) + if s.last() == c {
            1nat
        } else {
            0nat
        }
    }
}

pub proof fn lemma_count_concat(a: Seq<char>, b: Seq<char>, c: char)
    ensures
        count_char(a + b, c) == count_char(a, c) + count_char(b, c),
    decreases b.len(),
{
    if b.len() == 0 {
        assert(a + b =~= a);
    } else {
        assert((a + b).drop_last() =~= a + b.drop_last());
        lemma_count_concat(a, b.drop_last(), c);
    }
}

proof fn lemma_count_none(s: Seq<char>, c: char)
    requires
        forall|i: int| 0 <= i < s.len() ==> s[i] != c,
    ensures
        count_char(s, c) == 0,
    decreases s.len(),
{
    if s.len() > 0 {
        lemma_count_none(s.drop_last(), c);
    }
}

proof fn lemma_count_one(s: Seq<char>, c: char, k: int)
    requires
        0 <= k < s.len(),
        s[k] == c,
        forall|i: int| 0 <= i < s.len() && i != k ==> s[i] != c,
    ensures
        count_char(s, c) == 1,
{
    let a = s.take(k);
    let b = s.skip(k + 1);
    assert(s =~= a + seq![c] + b);
    assert(seq![c].drop_last() =~= Seq::<char>::empty());
    assert(count_char(Seq::<char>::empty(), c) == 0);
    assert(count_char(seq![c], c) == 1);
    lemma_count_none(a, c);
    lemma_count_none(b, c);
    lemma_count_concat(a, seq![c], c);
    lemma_count_concat(a + seq![c], b, c);
    assert(seq![c].drop_last() =~= Seq::<char>::empty());
}

proof fn lemma_count_placeholders(n: nat)
    ensures
        count_char(placeholders(n), '?') == n,
    decreases n,
{
    if n > 0 {
        lemma_count_placeholders((n - 1) as nat);
        let parts = Seq::new((n - 1) as nat, |i: int| seq!['?']);
        assert(Seq::new(n, |i: int| seq!['?']) =~= parts.push(seq!['?']));
        lemma_join_push(parts, seq!['?'], seq![',']);
        assert(seq!['?'].drop_last() =~= Seq::<char>::empty());
        assert(seq![','].drop_last() =~= Seq::<char>::empty());
        assert(count_char(Seq::<char>::empty(), '?') == 0);
        assert(count_char(seq!['?'], '?') == 1);
        assert(count_char(seq![','], '?') == 0);
        if n > 1 {
            lemma_count_concat(placeholders((n - 1) as nat), seq![','], '?');
            lemma_count_concat(placeholders((n - 1) as nat) + seq![','], seq!['?'], '?');
            assert(seq![','].drop_last() =~= Seq::<char>::empty());
        }
        assert(seq!['?'].drop_last() =~= Seq::<char>::empty());
    }
}

/// The placeholder counts of the fixed statement pieces.
proof fn lemma_literal_counts()
    ensures
        count_char(select_assets(), '?') == 0,
        count_char(" WHERE 1=1"@, '?') == 0,
        count_char(" AND a.extension IN ("@, '?') == 0,
        count_char(")"@, '?') == 0,
        count_char(" AND a.sample_rate IN ("@, '?') == 0,
        count_char(" AND a.favorite = 1"@, '?') == 0,
        count_char(" AND a.id IN (SELECT at.asset_id FROM asset_tags at INNER JOIN tags t ON t.id = at.tag_id WHERE t.name IN ("@, '?') == 0,
        count_char("))"@, '?') == 0,
        count_char(" AND 1=0"@, '?') == 0,
        count_char(" ORDER BY bm25(assets_fts)"@, '?') == 0,
        count_char(" ASC"@, '?') == 0,
        count_char(" DESC"@, '?') == 0,
        count_char(" ORDER BY a.filename ASC"@, '?') == 0,
        count_char(" ORDER BY a.filename "@, '?') == 0,
        count_char("ASC"@, '?') == 0,
        count_char("DESC"@, '?') == 0,
        count_char(" ORDER BY a.duration_ms "@, '?') == 0,
        count_char("ASC NULLS LAST"@, '?') == 0,
        count_char("DESC NULLS LAST"@, '?') == 0,
        count_char(" ORDER BY a.indexed_at "@, '?') == 0,
        count_char("SELECT COUNT(*) FROM assets a"@, '?') == 0,
        count_char(" INNER JOIN assets_fts ON assets_fts.rowid = a.id WHERE assets_fts MATCH ?"@, '?') == 1,
        count_char(" WHERE a.filename LIKE ?"@, '?') == 1,
        count_char(" AND (a.duration_ms IS NOT NULL AND a.duration_ms >= ?)"@, '?') == 1,
        count_char(" AND (a.duration_ms IS NOT NULL AND a.duration_ms <= ?)"@, '?') == 1,
        count_char(" AND a.channels = ?"@, '?') == 1,
        count_char(" AND a.publisher = ?"@, '?') == 1,
        count_char(subtree_condition(), '?') == 5,
        count_char(" LIMIT ? OFFSET ?"@, '?') == 2,
{
    reveal_strlit("SELECT a.id, a.path, a.filename, a.extension, a.folder, a.duration_ms, a.sample_rate, a.channels, a.bit_depth, a.file_size, a.category, a.publisher, a.favorite, a.rating, a.notes, a.play_count FROM assets a");
    lemma_count_none("SELECT a.id, a.path, a.filename, a.extension, a.folder, a.duration_ms, a.sample_rate, a.channels, a.bit_depth, a.file_size, a.category, a.publisher, a.favorite, a.rating, a.notes, a.play_count FROM assets a"@, '?');
    reveal_strlit(" WHERE 1=1");
    lemma_count_none(" WHERE 1=1"@, '?');
    reveal_strlit(" AND a.extension IN (");
    lemma_count_none(" AND a.extension IN ("@, '?');
    reveal_strlit(")");
    lemma_count_none(")"@, '?');
    reveal_strlit(" AND a.sample_rate IN (");
    lemma_count_none(" AND a.sample_rate IN ("@, '?');
    reveal_strlit(" AND a.favorite = 1");
    lemma_count_none(" AND a.favorite = 1"@, '?');
    reveal_strlit(" AND a.id IN (SELECT at.asset_id FROM asset_tags at INNER JOIN tags t ON t.id = at.tag_id WHERE t.name IN (");
    lemma_count_none(" AND a.id IN (SELECT at.asset_id FROM asset_tags at INNER JOIN tags t ON t.id = at.tag_id WHERE t.name IN ("@, '?');
    reveal_strlit("))");
    lemma_count_none("))"@, '?');
    reveal_strlit(" AND 1=0");
    lemma_count_none(" AND 1=0"@, '?');
    reveal_strlit(" ORDER BY bm25(assets_fts)");
    lemma_count_none(" ORDER BY bm25(assets_fts)"@, '?');
    reveal_strlit(" ASC");
    lemma_count_none(" ASC"@, '?');
    reveal_strlit(" DESC");
    lemma_count_none(" DESC"@, '?');
    reveal_strlit(" ORDER BY a.filename ASC");
    lemma_count_none(" ORDER BY a.filename ASC"@, '?');
    reveal_strlit(" ORDER BY a.filename ");
    lemma_count_none(" ORDER BY a.filename "@, '?');
    reveal_strlit("ASC");
    lemma_count_none("ASC"@, '?');
    reveal_strlit("DESC");
    lemma_count_none("DESC"@, '?');
    reveal_strlit(" ORDER BY a.duration_ms ");
    lemma_count_none(" ORDER BY a.duration_ms "@, '?');
    reveal_strlit("ASC NULLS LAST");
    lemma_count_none("ASC NULLS LAST"@, '?');
    reveal_strlit("DESC NULLS LAST");
    lemma_count_none("DESC NULLS LAST"@, '?');
    reveal_strlit(" ORDER BY a.indexed_at ");
    lemma_count_none(" ORDER BY a.indexed_at "@, '?');
    reveal_strlit("SELECT COUNT(*) FROM assets a");
    lemma_count_none("SELECT COUNT(*) FROM assets a"@, '?');
    reveal_strlit(" INNER JOIN assets_fts ON assets_fts.rowid = a.id WHERE assets_fts MATCH ?");
    lemma_count_one(" INNER JOIN assets_fts ON assets_fts.rowid = a.id WHERE assets_fts MATCH ?"@, '?', 73);
    reveal_strlit(" WHERE a.filename LIKE ?");
    lemma_count_one(" WHERE a.filename LIKE ?"@, '?', 23);
    reveal_strlit(" AND (a.duration_ms IS NOT NULL AND a.duration_ms >= ?)");
    lemma_count_one(" AND (a.duration_ms IS NOT NULL AND a.duration_ms >= ?)"@, '?', 53);
    reveal_strlit(" AND (a.duration_ms IS NOT NULL AND a.duration_ms <= ?)");
    lemma_count_one(" AND (a.duration_ms IS NOT NULL AND a.duration_ms <= ?)"@, '?', 53);
    reveal_strlit(" AND a.channels = ?");
    lemma_count_one(" AND a.channels = ?"@, '?', 18);
    reveal_strlit(" AND a.publisher = ?");
    lemma_count_one(" AND a.publisher = ?"@, '?', 19);
    reveal_strlit(" AND (a.folder = ? OR (LENGTH(a.folder) > LENGTH(?) AND SUBSTR(a.folder, 1, LENGTH(?)) = ? AND SUBSTR(a.folder, LENGTH(?) + 1, 1) = '/'))");
    let t = subtree_condition();
    lemma_count_one(t.subrange(0, 18), '?', 17);
    lemma_count_one(t.subrange(18, 50), '?', 31);
    lemma_count_one(t.subrange(50, 84), '?', 33);
    lemma_count_one(t.subrange(84, 90), '?', 5);
    lemma_count_one(t.subrange(90, 137), '?', 29);
    lemma_count_concat(t.subrange(0, 18), t.subrange(18, 50), '?');
    lemma_count_concat(t.subrange(0, 50), t.subrange(50, 84), '?');
    lemma_count_concat(t.subrange(0, 84), t.subrange(84, 90), '?');
    lemma_count_concat(t.subrange(0, 90), t.subrange(90, 137), '?');
    assert(t.subrange(0, 18) + t.subrange(18, 50) =~= t.subrange(0, 50));
    assert(t.subrange(0, 50) + t.subrange(50, 84) =~= t.subrange(0, 84));
    assert(t.subrange(0, 84) + t.subrange(84, 90) =~= t.subrange(0, 90));
    assert(t.subrange(0, 90) + t.subrange(90, 137) =~= t);
    reveal_strlit(" LIMIT ? OFFSET ?");
    let l = " LIMIT ? OFFSET ?"@;
    lemma_count_one(l.subrange(0, 8), '?', 7);
    lemma_count_one(l.subrange(8, 17), '?', 8);
    lemma_count_concat(l.subrange(0, 8), l.subrange(8, 17), '?');
    assert(l.subrange(0, 8) + l.subrange(8, 17) =~= l);
}

/// Each filter fragment has exactly one placeholder per parameter.
proof fn lemma_fragment_counts(q: SearchQuery)
    ensures
        count_char(extension_filter(q).0, '?') == extension_filter(q).1.len(),
        count_char(duration_min_filter(q).0, '?') == duration_min_filter(q).1.len(),
        count_char(duration_max_filter(q).0, '?') == duration_max_filter(q).1.len(),
        count_char(sample_rate_filter(q).0, '?') == sample_rate_filter(q).1.len(),
        count_char(channels_filter(q).0, '?') == channels_filter(q).1.len(),
        count_char(favorites_filter(q).0, '?') == favorites_filter(q).1.len(),
        count_char(publisher_filter(q).0, '?') == publisher_filter(q).1.len(),
        count_char(tags_filter(q).0, '?') == tags_filter(q).1.len(),
        count_char(folder_filter(q).0, '?') == folder_filter(q).1.len(),
{
    lemma_literal_counts();
    assert(count_char(Seq::<char>::empty(), '?') == 0);
    if let Some(e) = q.extensions {
        if e@.len() > 0 {
            lemma_count_placeholders(e@.len());
            lemma_count_concat(" AND a.extension IN ("@, placeholders(e@.len()), '?');
            lemma_count_concat(" AND a.extension IN ("@ + placeholders(e@.len()), ")"@, '?');
        }
    }
    if let Some(r) = q.sample_rates {
        if r@.len() > 0 {
            lemma_count_placeholders(r@.len());
            lemma_count_concat(" AND a.sample_rate IN ("@, placeholders(r@.len()), '?');
            lemma_count_concat(" AND a.sample_rate IN ("@ + placeholders(r@.len()), ")"@, '?');
        }
    }
    if let Some(t) = q.tags {
        if t@.len() > 0 {
            let head = " AND a.id IN (SELECT at.asset_id FROM asset_tags at INNER JOIN tags t ON t.id = at.tag_id WHERE t.name IN ("@;
            lemma_count_placeholders(t@.len());
            lemma_count_concat(head, placeholders(t@.len()), '?');
            lemma_count_concat(head + placeholders(t@.len()), "))"@, '?');
        }
    }
}

/// Law: the filter fragment holds exactly one placeholder per parameter.
pub proof fn law_filter_placeholders_match_params(q: SearchQuery)
    ensures
        count_char(filters(q).0, '?') == filters(q).1.len(),
{
    lemma_fragment_counts(q);
    lemma_filters_unfold(q);
    let a = extension_filter(q).0;
    let b = duration_min_filter(q).0;
    let c = duration_max_filter(q).0;
    let d = sample_rate_filter(q).0;
    let e = channels_filter(q).0;
    let f = favorites_filter(q).0;
    let g = publisher_filter(q).0;
    let h = tags_filter(q).0;
    let i = folder_filter(q).0;
    lemma_count_concat(a, b, '?');
    lemma_count_concat(a + b, c, '?');
    lemma_count_concat(a + b + c, d, '?');
    lemma_count_concat(a + b + c + d, e, '?');
    lemma_count_concat(a + b + c + d + e, f, '?');
    lemma_count_concat(a + b + c + d + e + f, g, '?');
    lemma_count_concat(a + b + c + d + e + f + g, h, '?');
    lemma_count_concat(a + b + c + d + e + f + g + h, i, '?');
}

proof fn lemma_where_counts(terms: Seq<char>)
    ensures
        count_char(where_clause(terms).0, '?') == where_clause(terms).1.len(),
{
    lemma_literal_counts();
}

proof fn lemma_order_counts(q: SearchQuery, fts: bool)
    ensures
        count_char(order_clause(q, fts), '?') == 0,
{
    lemma_literal_counts();
    lemma_count_concat(" ORDER BY bm25(assets_fts)"@, " ASC"@, '?');
    lemma_count_concat(" ORDER BY bm25(assets_fts)"@, " DESC"@, '?');
    lemma_count_concat(" ORDER BY a.filename "@, "ASC"@, '?');
    lemma_count_concat(" ORDER BY a.filename "@, "DESC"@, '?');
    lemma_count_concat(" ORDER BY a.duration_ms "@, "ASC NULLS LAST"@, '?');
    lemma_count_concat(" ORDER BY a.duration_ms "@, "DESC NULLS LAST"@, '?');
    lemma_count_concat(" ORDER BY a.indexed_at "@, "ASC"@, '?');
    lemma_count_concat(" ORDER BY a.indexed_at "@, "DESC"@, '?');
}

/// Law: the result-page statement holds exactly one placeholder per bound
/// parameter, whatever the query and its search terms.
pub proof fn law_search_placeholders_match_params(q: SearchQuery, terms: Seq<char>)
    ensures
        count_char(search_statement(q, terms).0, '?') == search_statement(q, terms).1.len(),
{
    lemma_literal_counts();
    lemma_where_counts(terms);
    law_filter_placeholders_match_params(q);
    let o = order_clause(q, uses_fts(terms));
    lemma_order_counts(q, uses_fts(terms));
    let w = where_clause(terms).0;
    let f = filters(q).0;
    lemma_count_concat(select_assets(), w, '?');
    lemma_count_concat(select_assets() + w, f, '?');
    lemma_count_concat(select_assets() + w + f, o, '?');
    lemma_count_concat(select_assets() + w + f + o, " LIMIT ? OFFSET ?"@, '?');
}

/// Law: the row-count statement holds exactly one placeholder per bound
/// parameter, whatever the query and its search terms.
pub proof fn law_count_placeholders_match_params(q: SearchQuery, terms: Seq<char>)
    ensures
        count_char(count_statement(q, terms).0, '?') == count_statement(q, terms).1.len(),
{
    lemma_literal_counts();
    lemma_where_counts(terms);
    law_filter_placeholders_match_params(q);
    let w = where_clause(terms).0;
    let f = filters(q).0;
    lemma_count_concat("SELECT COUNT(*) FROM assets a"@, w, '?');
    lemma_count_concat("SELECT COUNT(*) FROM assets a"@ + w, f, '?');
}

/// Law: the count statement filters exactly as the page statement does:
/// the same condition text after the select list, the same parameters,
/// the page statement adding only its order and the limit and offset.
pub proof fn law_count_and_page_share_conditions(q: SearchQuery, terms: Seq<char>)
    ensures
        ({
            let page = search_statement(q, terms);
            let count = count_statement(q, terms);
            let cond = where_clause(terms).0 + filters(q).0;
            &&& count.0 == "SELECT COUNT(*) FROM assets a"@ + cond
            &&& page.0 == select_assets() + cond + order_clause(q, uses_fts(terms)) + " LIMIT ? OFFSET ?"@
            &&& page.1 == count.1 + seq![SqlParamView::Integer(q.limit as i64), SqlParamView::Integer(q.offset as i64)]
        }),
{
    let cond = where_clause(terms).0 + filters(q).0;
    assert(count_statement(q, terms).0 =~= "SELECT COUNT(*) FROM assets a"@ + cond);
    assert(search_statement(q, terms).0 =~= select_assets() + cond + order_clause(q, uses_fts(terms)) + " LIMIT ? OFFSET ?"@);
    assert(search_statement(q, terms).1 =~= count_statement(q, terms).1 + seq![
        SqlParamView::Integer(q.limit as i64),
        SqlParamView::Integer(q.offset as i64),
    ]);
}

/// The words kept by the sanitiser are non-empty, hold no whitespace and
/// no boolean operator word, and hold only characters satisfying `p` when
/// all of `l` does.
proof fn lemma_kept_words_clean(l: Seq<char>, p: spec_fn(char) -> bool)
    requires
        forall|i: int| 0 <= i < l.len() ==> p(#[trigger] l[i]),
    ensures
        forall|j: int|
            0 <= j < drop_keywords(words(l)).len() ==> {
                let w = #[trigger] drop_keywords(words(l))[j];
                &&& w.len() > 0
                &&& !is_bool_keyword(w)
                &&& forall|t: int| 0 <= t < w.len() ==> !is_ws(#[trigger] w[t]) && p(w[t])
            },
{
    lemma_pieces_clean(l, Separators::Whitespace, p);
    lemma_drop_keywords_clean(words(l), p);
}

proof fn lemma_drop_keywords_clean(ws: Seq<Seq<char>>, p: spec_fn(char) -> bool)
    requires
        forall|j: int|
            0 <= j < ws.len() ==> (#[trigger] ws[j]).len() > 0 && forall|t: int|
                0 <= t < ws[j].len() ==> !is_ws(#[trigger] ws[j][t]) && p(ws[j][t]),
    ensures
        forall|j: int|
            0 <= j < drop_keywords(ws).len() ==> {
                let w = #[trigger] drop_keywords(ws)[j];
                &&& w.len() > 0
                &&& !is_bool_keyword(w)
                &&& forall|t: int| 0 <= t < w.len() ==> !is_ws(#[trigger] w[t]) && p(w[t])
            },
    decreases ws.len(),
{
    reveal(Seq::filter);
    if ws.len() > 0 {
        let head = ws.drop_last();
        assert forall|j: int| 0 <= j < head.len() implies (#[trigger] head[j]).len() > 0 && forall|
            t: int,
        | 0 <= t < head[j].len() ==> !is_ws(#[trigger] head[j][t]) && p(head[j][t]) by {
            assert(head[j] == ws[j]);
        }
        lemma_drop_keywords_clean(head, p);
        let c = ws.last();
        assert(c == ws[ws.len() - 1]);
        let r = drop_keywords(ws);
        let h = drop_keywords(head);
        if !is_bool_keyword(c) {
            assert(r == h.push(c));
        } else {
            assert(r == h);
        }
        assert forall|j: int| 0 <= j < r.len() implies {
            let w = #[trigger] r[j];
            &&& w.len() > 0
            &&& !is_bool_keyword(w)
            &&& forall|t: int| 0 <= t < w.len() ==> !is_ws(#[trigger] w[t]) && p(w[t])
        } by {
            if j < h.len() {
                assert(r[j] == h[j]);
            } else {
                assert(r[j] == c);
            }
        }
    }
}

/// Law: a sanitised query is words separated by single spaces, with no
/// other whitespace and none at either end.
pub proof fn law_sanitized_is_collapsed(input: Seq<char>)
    ensures
        is_collapsed(sanitize_spec(input)),
{
    let l = unicode_lowercase(blank_fts_operators(input));
    let any = |c: char| true;
    lemma_kept_words_clean(l, any);
    lemma_join_collapsed(drop_keywords(words(l)), any);
}

/// Law: no word of a sanitised query is a boolean operator word: `and`,
/// `or` and `not` are removed wherever they stand alone, and the words that
/// remain are exactly the words of the sanitised text.
pub proof fn law_sanitize_drops_keywords(input: Seq<char>)
    ensures
        words(sanitize_spec(input)) == drop_keywords(words(unicode_lowercase(blank_fts_operators(input)))),
        forall|j: int|
            0 <= j < words(sanitize_spec(input)).len() ==> !is_bool_keyword(
                #[trigger] words(sanitize_spec(input))[j],
            ),
{
    let l = unicode_lowercase(blank_fts_operators(input));
    let any = |c: char| true;
    lemma_kept_words_clean(l, any);
    lemma_words_of_join(drop_keywords(words(l)));
}

/// Law: the sanitiser leaves no full-text operator character, as far as
/// lowercasing the blanked text brings none back.
pub proof fn law_sanitize_strips_operators(input: Seq<char>)
    requires
        forall|i: int|
            0 <= i < unicode_lowercase(blank_fts_operators(input)).len() ==> !is_fts_operator(
                #[trigger] unicode_lowercase(blank_fts_operators(input))[i],
            ),
    ensures
        forall|i: int|
            0 <= i < sanitize_spec(input).len() ==> !is_fts_operator(#[trigger] sanitize_spec(input)[i]),
{
    let p = |c: char| !is_fts_operator(c);
    let l = unicode_lowercase(blank_fts_operators(input));
    assert forall|i: int| 0 <= i < l.len() implies p(#[trigger] l[i]) by {}
    lemma_kept_words_clean(l, p);
    lemma_join_collapsed(drop_keywords(words(l)), p);
}

/// Law: the page statement ends by ordering on the query's sort field in
/// the query's direction — ascending exactly when `sort_dir` is `Asc` —
/// then the limit and offset: file name for `Name`, duration with unknown
/// durations last for `Duration`, indexing time for `Date`, the full-text
/// rank for `Relevance` with a full-text match, and otherwise the file name
/// ascending.
pub proof fn law_page_orders_by_sort_field_and_direction(q: SearchQuery, terms: Seq<char>)
    ensures
        ({
            let page = search_statement(q, terms).0;
            let head = select_assets() + where_clause(terms).0 + filters(q).0;
            let dir = if q.sort_dir == SortDirection::Asc {
                "ASC"@
            } else {
                "DESC"@
            };
            &&& q.sort_by == SortField::Name ==> page == head + " ORDER BY a.filename "@ + dir
                + " LIMIT ? OFFSET ?"@
            &&& q.sort_by == SortField::Duration ==> page == head + " ORDER BY a.duration_ms "@ + dir
                + " NULLS LAST LIMIT ? OFFSET ?"@
            &&& q.sort_by == SortField::Date ==> page == head + " ORDER BY a.indexed_at "@ + dir
                + " LIMIT ? OFFSET ?"@
            &&& q.sort_by == SortField::Relevance && uses_fts(terms) ==> page == head
                + " ORDER BY bm25(assets_fts) "@ + dir + " LIMIT ? OFFSET ?"@
            &&& q.sort_by == SortField::Relevance && !uses_fts(terms) ==> page == head
                + " ORDER BY a.filename ASC LIMIT ? OFFSET ?"@
        }),
{
    reveal_strlit("ASC");
    reveal_strlit("DESC");
    reveal_strlit(" ASC");
    reveal_strlit(" DESC");
    reveal_strlit("ASC NULLS LAST");
    reveal_strlit("DESC NULLS LAST");
    reveal_strlit(" NULLS LAST LIMIT ? OFFSET ?");
    reveal_strlit(" LIMIT ? OFFSET ?");
    reveal_strlit(" ORDER BY a.filename ");
    reveal_strlit(" ORDER BY a.duration_ms ");
    reveal_strlit(" ORDER BY a.indexed_at ");
    reveal_strlit(" ORDER BY bm25(assets_fts)");
    reveal_strlit(" ORDER BY bm25(assets_fts) ");
    reveal_strlit(" ORDER BY a.filename ASC");
    reveal_strlit(" ORDER BY a.filename ASC LIMIT ? OFFSET ?");
    let page = search_statement(q, terms).0;
    let head = select_assets() + where_clause(terms).0 + filters(q).0;
    let dir = if q.sort_dir == SortDirection::Asc {
        "ASC"@
    } else {
        "DESC"@
    };
    let lim = " LIMIT ? OFFSET ?"@;
    let o = order_clause(q, uses_fts(terms));
    assert(page == head + o + lim);
    match q.sort_by {
        SortField::Name => {
            assert(head + o + lim =~= head + " ORDER BY a.filename "@ + dir + lim);
        },
        SortField::Duration => {
            if q.sort_dir == SortDirection::Asc {
                assert(o =~= " ORDER BY a.duration_ms "@ + "ASC NULLS LAST"@);
            } else {
                assert(o =~= " ORDER BY a.duration_ms "@ + "DESC NULLS LAST"@);
            }
            assert(head + o + lim =~= head + " ORDER BY a.duration_ms "@ + dir
                + " NULLS LAST LIMIT ? OFFSET ?"@);
        },
        SortField::Date => {
            assert(head + o + lim =~= head + " ORDER BY a.indexed_at "@ + dir + lim);
        },
        SortField::Relevance => {
            if uses_fts(terms) {
                assert(head + o + lim =~= head + " ORDER BY bm25(assets_fts) "@ + dir + lim);
            } else {
                assert(head + o + lim =~= head + " ORDER BY a.filename ASC LIMIT ? OFFSET ?"@);
            }
        },
    }
}

/// Law: operator characters separate words rather than join them: the
/// words of a sanitised query are the words, other than `and`, `or` and
/// `not`, of the lowercased input in which each of `( ) : ^ * "` stands
/// replaced by a space (so `a:b` gives the two words `a` and `b`).
pub proof fn law_operators_separate_words(input: Seq<char>, spaced: Seq<char>)
    requires
        spaced.len() == input.len(),
        forall|i: int|
            0 <= i < input.len() ==> #[trigger] spaced[i] == if input[i] == '(' || input[i] == ')'
                || input[i] == ':' || input[i] == '^' || input[i] == '*' || input[i] == '"' {
                ' '
            } else {
                input[i]
            },
    ensures
        words(sanitize_spec(input)) == drop_keywords(words(unicode_lowercase(spaced))),
{
    assert(spaced =~= blank_fts_operators(input));
    law_sanitize_drops_keywords(input);
}

} // verus!
