//! The uptime monitor's node store logic: tag normalization, the filters of its listings,
//! and the shaping of stored rows into answers.

use vstd::prelude::*;
use vstd::string::*;

use crate::num::{dec_int, push_dec_i64};
use crate::urls::{rfc3339_timestamp, rfc3339_timestamp_spec};
use crate::discovery::clone_opt_string;
use crate::uptime::{
    AdminNodeFilterParams, AppError, AppErrorView, CreateNodeRequest, HealthFilterParams, HealthRecordResponse,
    NodeFilterParams, ProbeOutcome, UpdateNodeRequest,
};
use crate::text::{
    ascii_lower, eq_str, join, join_strings, lemma_join_first, lemma_join_part, occurs_at, lemma_sorted_unique, lemma_str_lt_total,
    lemma_str_lt_transitive, lemma_trim_idempotent, sorted_strict, str_less, str_lt,
    to_ascii_lowercase, trim, trim_str,
};

verus! {

/// Whether `x` is a tag of `tags` after trimming, and not empty.
pub open spec fn tag_kept(tags: Seq<Seq<char>>, x: Seq<char>) -> bool {
    x.len() > 0 && exists|i: int| 0 <= i < tags.len() && #[trigger] trim(tags[i]) == x
}

/// Whether `s` is the normalization of `tags`: its trimmed, non-empty tags, each once, in
/// order.
pub open spec fn is_normalization(tags: Seq<Seq<char>>, s: Seq<Seq<char>>) -> bool {
    &&& sorted_strict(s)
    &&& forall|x: Seq<char>| #[trigger] s.contains(x) <==> tag_kept(tags, x)
}

/// The normalization of `tags`.
pub open spec fn normalized(tags: Seq<Seq<char>>) -> Seq<Seq<char>> {
    choose|s: Seq<Seq<char>>| is_normalization(tags, s)
}

/// Normalizations are unique.
pub proof fn lemma_normalization_unique(tags: Seq<Seq<char>>, a: Seq<Seq<char>>, b: Seq<Seq<char>>)
    requires
        is_normalization(tags, a),
        is_normalization(tags, b),
    ensures
        a == b,
{
    assert forall|x: Seq<char>| a.contains(x) <==> b.contains(x) by {
        if a.contains(x) {
            assert(tag_kept(tags, x));
        }
        if b.contains(x) {
            assert(tag_kept(tags, x));
        }
    };
    lemma_sorted_unique(a, b);
}

/// Normalizing normalized tags changes nothing.
pub proof fn lemma_normalization_idempotent(tags: Seq<Seq<char>>, s: Seq<Seq<char>>)
    requires
        is_normalization(tags, s),
    ensures
        is_normalization(s, s),
{
    assert forall|x: Seq<char>| #[trigger] s.contains(x) <==> tag_kept(s, x) by {
        if s.contains(x) {
            let k = choose|k: int| 0 <= k < s.len() && s[k] == x;
            assert(tag_kept(tags, x));
            let i = choose|i: int| 0 <= i < tags.len() && #[trigger] trim(tags[i]) == x;
            lemma_trim_idempotent(tags[i]);
            assert(trim(s[k]) == x);
        }
        if tag_kept(s, x) {
            let i = choose|i: int| 0 <= i < s.len() && #[trigger] trim(s[i]) == x;
            assert(s.contains(s[i]));
            assert(tag_kept(tags, s[i]));
            let j = choose|j: int| 0 <= j < tags.len() && #[trigger] trim(tags[j]) == s[i];
            lemma_trim_idempotent(tags[j]);
            assert(s.contains(x));
        }
    };
}

/// `x` put into its place in the ascending `s`, unless `s` holds it already.
pub open spec fn sorted_insert(s: Seq<Seq<char>>, x: Seq<char>) -> Seq<Seq<char>>
    decreases s.len(),
{
    if s.len() == 0 {
        seq![x]
    } else if s[0] == x {
        s
    } else if str_lt(x, s[0]) {
        seq![x] + s
    } else {
        seq![s[0]] + sorted_insert(s.drop_first(), x)
    }
}

proof fn lemma_sorted_insert(s: Seq<Seq<char>>, x: Seq<char>)
    requires
        sorted_strict(s),
    ensures
        sorted_strict(sorted_insert(s, x)),
        forall|y: Seq<char>| #[trigger] sorted_insert(s, x).contains(y) <==> (s.contains(y) || y == x),
    decreases s.len(),
{
    let r = sorted_insert(s, x);
    if s.len() == 0 {
        assert(r[0] == x);
    } else if s[0] == x {
    } else if str_lt(x, s[0]) {
        assert(r =~= seq![x] + s);
        assert forall|i: int, j: int| 0 <= i < j < r.len() implies str_lt(#[trigger] r[i], #[trigger] r[j]) by {
            if i == 0 {
                if j > 1 {
                    assert(str_lt(s[0], s[j - 1]));
                    lemma_str_lt_transitive(x, s[0], s[j - 1]);
                }
            } else {
                assert(r[i] == s[i - 1] && r[j] == s[j - 1]);
            }
        };
        assert forall|y: Seq<char>| #[trigger] r.contains(y) <==> (s.contains(y) || y == x) by {
            if r.contains(y) {
                let i = choose|i: int| 0 <= i < r.len() && r[i] == y;
                if i > 0 {
                    assert(s[i - 1] == y);
                }
            }
            if s.contains(y) {
                let i = choose|i: int| 0 <= i < s.len() && s[i] == y;
                assert(r[i + 1] == y);
            }
            if y == x {
                assert(r[0] == y);
            }
        };
    } else {
        let d = s.drop_first();
        assert forall|i: int, j: int| 0 <= i < j < d.len() implies str_lt(#[trigger] d[i], #[trigger] d[j]) by {
            assert(d[i] == s[i + 1] && d[j] == s[j + 1]);
        };
        lemma_sorted_insert(d, x);
        let t = sorted_insert(d, x);
        assert(r =~= seq![s[0]] + t);
        lemma_str_lt_total(x, s[0]);
        assert forall|i: int, j: int| 0 <= i < j < r.len() implies str_lt(#[trigger] r[i], #[trigger] r[j]) by {
            if i == 0 {
                assert(t.contains(r[j]));
                if d.contains(r[j]) {
                    let k = choose|k: int| 0 <= k < d.len() && d[k] == r[j];
                    assert(s[k + 1] == r[j]);
                }
            } else {
                assert(r[i] == t[i - 1] && r[j] == t[j - 1]);
            }
        };
        assert forall|y: Seq<char>| #[trigger] r.contains(y) <==> (s.contains(y) || y == x) by {
            if r.contains(y) {
                let i = choose|i: int| 0 <= i < r.len() && r[i] == y;
                if i > 0 {
                    assert(t.contains(y));
                    if d.contains(y) {
                        let k = choose|k: int| 0 <= k < d.len() && d[k] == y;
                        assert(s[k + 1] == y);
                    }
                } else {
                    assert(s[0] == y);
                }
            }
            if s.contains(y) {
                let i = choose|i: int| 0 <= i < s.len() && s[i] == y;
                if i == 0 {
                    assert(r[0] == y);
                } else {
                    assert(d[i - 1] == y);
                    assert(t.contains(y));
                    let k = choose|k: int| 0 <= k < t.len() && t[k] == y;
                    assert(r[k + 1] == y);
                }
            }
            if y == x {
                assert(t.contains(y));
                let k = choose|k: int| 0 <= k < t.len() && t[k] == y;
                assert(r[k + 1] == y);
            }
        };
    }
}

/// The normalization of `tags`, built one tag at a time.
pub open spec fn normalization_of(tags: Seq<Seq<char>>) -> Seq<Seq<char>>
    decreases tags.len(),
{
    if tags.len() == 0 {
        Seq::empty()
    } else if trim(tags.last()).len() == 0 {
        normalization_of(tags.drop_last())
    } else {
        sorted_insert(normalization_of(tags.drop_last()), trim(tags.last()))
    }
}

/// Every list of tags has a normalization, so `normalized` is one.
pub proof fn lemma_normalization_exists(tags: Seq<Seq<char>>)
    ensures
        is_normalization(tags, normalization_of(tags)),
        is_normalization(tags, normalized(tags)),
    decreases tags.len(),
{
    let s = normalization_of(tags);
    if tags.len() > 0 {
        let d = tags.drop_last();
        lemma_normalization_exists(d);
        let sd = normalization_of(d);
        let l = trim(tags.last());
        if l.len() > 0 {
            lemma_sorted_insert(sd, l);
        }
        assert forall|x: Seq<char>| #[trigger] s.contains(x) <==> tag_kept(tags, x) by {
            if tag_kept(d, x) {
                let i = choose|i: int| 0 <= i < d.len() && #[trigger] trim(d[i]) == x;
                assert(trim(tags[i]) == x);
            }
            if tag_kept(tags, x) {
                let i = choose|i: int| 0 <= i < tags.len() && #[trigger] trim(tags[i]) == x;
                if i < d.len() {
                    assert(trim(d[i]) == x);
                }
            }
            if l.len() > 0 && x == l {
                assert(trim(tags[tags.len() - 1]) == x);
            }
        };
    }
    assert(is_normalization(tags, s));
}

/// Inserts `x` into a strictly sorted `v` unless it is there already.
fn insert_sorted(v: &mut Vec<String>, x: String)
    requires
        sorted_strict(old(v).deep_view()),
    ensures
        sorted_strict(final(v).deep_view()),
        forall|y: Seq<char>| #[trigger] final(v).deep_view().contains(y) <==> (old(v).deep_view().contains(y) || y == x@),
{
    let ghost dv = v.deep_view();
    let mut k: usize = 0;
    while k < v.len() && str_less(v[k].as_str(), x.as_str())
        invariant
            v.deep_view() == dv,
            k <= v.len(),
            forall|j: int| 0 <= j < k ==> str_lt(#[trigger] dv[j], x@),
        decreases v.len() - k,
    {
        k = k + 1;
    }
    if k < v.len() && v[k] == x {
        assert(dv[k as int] == x@);
        return;
    }
    proof {
        if k < dv.len() {
            assert(dv[k as int] != x@);
            lemma_str_lt_total(dv[k as int], x@);
        }
    }
    v.insert(k, x);
    let ghost w = v.deep_view();
    assert(w =~= dv.insert(k as int, x@));
    assert forall|i: int, j: int| 0 <= i < j < w.len() implies str_lt(#[trigger] w[i], #[trigger] w[j]) by {
        if j < k {
            assert(w[i] == dv[i] && w[j] == dv[j]);
        } else if j == k {
            assert(w[i] == dv[i]);
        } else if i == k {
            assert(w[j] == dv[j - 1]);
            if j - 1 > k {
                assert(str_lt(dv[k as int], dv[j - 1]));
                lemma_str_lt_transitive(x@, dv[k as int], dv[j - 1]);
            }
        } else if i < k {
            assert(w[i] == dv[i] && w[j] == dv[j - 1]);
            assert(str_lt(dv[i], x@));
            if j - 1 == k {
            } else {
                assert(str_lt(dv[k as int], dv[j - 1]));
                lemma_str_lt_transitive(x@, dv[k as int], dv[j - 1]);
            }
            lemma_str_lt_transitive(dv[i], x@, dv[j - 1]);
        } else {
            assert(w[i] == dv[i - 1] && w[j] == dv[j - 1]);
        }
    };
    assert forall|y: Seq<char>| #[trigger] w.contains(y) <==> (dv.contains(y) || y == x@) by {
        if w.contains(y) {
            let i = choose|i: int| 0 <= i < w.len() && w[i] == y;
            if i < k {
                assert(dv[i] == y);
            } else if i > k {
                assert(dv[i - 1] == y);
            }
        }
        if dv.contains(y) {
            let i = choose|i: int| 0 <= i < dv.len() && dv[i] == y;
            if i < k {
                assert(w[i] == y);
            } else {
                assert(w[i + 1] == y);
            }
        }
        if y == x@ {
            assert(w[k as int] == y);
        }
    };
}

/// The trimmed, non-empty tags, each once, in ascending order.
pub fn normalize_tags(tags: &Vec<String>) -> (r: Vec<String>)
    ensures
        is_normalization(tags.deep_view(), r.deep_view()),
        r.deep_view() == normalized(tags.deep_view()),
{
    let mut out: Vec<String> = Vec::new();
    let mut i: usize = 0;
    let ghost tv = tags.deep_view();
    assert(out.deep_view() =~= Seq::<Seq<char>>::empty());
    while i < tags.len()
        invariant
            tv == tags.deep_view(),
            i <= tags.len(),
            sorted_strict(out.deep_view()),
            forall|y: Seq<char>| #[trigger] out.deep_view().contains(y) <==> (y.len() > 0 && exists|j: int|
                0 <= j < i && #[trigger] trim(tv[j]) == y),
        decreases tags.len() - i,
    {
        let t = trim_str(tags[i].as_str());
        let ghost before = out.deep_view();
        if !t.as_str().is_empty() {
            insert_sorted(&mut out, t);
        }
        assert forall|y: Seq<char>| #[trigger] out.deep_view().contains(y) <==> (y.len() > 0 && exists|j: int|
            0 <= j < i + 1 && #[trigger] trim(tv[j]) == y) by {
            if y.len() > 0 && trim(tv[i as int]) == y {
                assert(t@ == y);
            }
            if out.deep_view().contains(y) && !before.contains(y) {
                assert(trim(tv[i as int]) == y);
            }
            if y.len() > 0 && (exists|j: int| 0 <= j < i + 1 && #[trigger] trim(tv[j]) == y) {
                let j = choose|j: int| 0 <= j < i + 1 && #[trigger] trim(tv[j]) == y;
                if j < i {
                    assert(before.contains(y));
                }
            }
        };
        i = i + 1;
    }
    proof {
        assert(is_normalization(tv, out.deep_view()));
        lemma_normalization_unique(tv, out.deep_view(), normalized(tv));
    }
    out
}

/// The tag filter of the administrator's listing: the `tags` and the single `tag`, normalized.
pub fn normalize_filter_tags(single_tag: Option<String>, tags: Vec<String>) -> (r: Vec<String>)
    ensures
        r.deep_view() == normalized(
            match single_tag.deep_view() {
                Some(t) => tags.deep_view().push(t),
                None => tags.deep_view(),
            },
        ),
{
    let mut merged = tags;
    let ghost before = merged.deep_view();
    if let Some(t) = single_tag {
        merged.push(t);
        assert(merged.deep_view() =~= before.push(t@));
    }
    normalize_tags(&merged)
}

/// `count` placeholders, `?, ?, ...`.
pub open spec fn placeholders_spec(count: nat) -> Seq<char> {
    join(Seq::new(count, |i: int| "?"@), ", "@)
}

pub fn placeholders(count: usize) -> (r: String)
    ensures
        r@ == placeholders_spec(count as nat),
{
    let mut parts: Vec<String> = Vec::new();
    let mut i: usize = 0;
    while i < count
        invariant
            i <= count,
            parts.deep_view() == Seq::new(i as nat, |k: int| "?"@),
        decreases count - i,
    {
        let ghost before = parts.deep_view();
        let q = String::from_str("?");
        parts.push(q);
        assert(parts.deep_view() =~= before.push(q@));
        i = i + 1;
        assert(parts.deep_view() =~= Seq::new(i as nat, |k: int| "?"@));
    }
    join_strings(&parts, ", ")
}

/// A present value, trimmed, unless it is blank.
pub open spec fn empty_to_none_spec(value: Option<Seq<char>>) -> Option<Seq<char>> {
    match value {
        Some(v) => if trim(v).len() == 0 {
            None
        } else {
            Some(trim(v))
        },
        None => None,
    }
}

pub fn empty_to_none(value: Option<String>) -> (r: Option<String>)
    ensures
        r.deep_view() == empty_to_none_spec(value.deep_view()),
{
    match value {
        Some(v) => {
            let t = trim_str(v.as_str());
            if t.as_str().is_empty() {
                None
            } else {
                Some(t)
            }
        },
        None => None,
    }
}


/// A value bound to a `?` of a query.
#[derive(Debug, PartialEq, Eq)]
pub enum SqlParam {
    Int(i64),
    Text(String),
}

pub enum SqlParamView {
    Int(int),
    Text(Seq<char>),
}

impl View for SqlParam {
    type V = SqlParamView;

    open spec fn view(&self) -> SqlParamView {
        match self {
            SqlParam::Int(v) => SqlParamView::Int(*v as int),
            SqlParam::Text(t) => SqlParamView::Text(t@),
        }
    }
}

impl DeepView for SqlParam {
    type V = SqlParamView;

    open spec fn deep_view(&self) -> SqlParamView {
        self@
    }
}

/// Whether an optional filter value is present and not blank.
pub open spec fn nonblank(value: Option<Seq<char>>) -> bool {
    value matches Some(v) && trim(v).len() > 0
}

/// The `WHERE` part of a query for `clauses`: empty when there are none.
pub open spec fn where_sql_spec(clauses: Seq<Seq<char>>) -> Seq<char> {
    if clauses.len() == 0 {
        Seq::empty()
    } else {
        " WHERE "@ + join(clauses, " AND "@)
    }
}

/// The pattern of a text search: the trimmed term between `%` wildcards.
pub open spec fn search_pattern(search: Seq<char>) -> Seq<char> {
    "%"@ + trim(search) + "%"@
}

pub open spec fn tags_clause(count: nat) -> Seq<char> {
    "n.id IN (SELECT DISTINCT node_id FROM node_tags WHERE tag IN ("@ + placeholders_spec(count)
        + "))"@
}

pub open spec fn flag_param(b: bool) -> SqlParamView {
    SqlParamView::Int(if b { 1 } else { 0 })
}

pub open spec fn text_params(tags: Seq<Seq<char>>) -> Seq<SqlParamView> {
    tags.map_values(|t: Seq<char>| SqlParamView::Text(t))
}

/// The clauses and parameters for the active, protocol, search and tag filters shared by
/// both node listings.
pub open spec fn common_filter_parts(
    is_active: Option<bool>,
    protocol: Option<Seq<char>>,
    search: Option<Seq<char>>,
    tags: Seq<Seq<char>>,
) -> (Seq<Seq<char>>, Seq<SqlParamView>) {
    let c1: Seq<Seq<char>> = if is_active is Some { seq!["n.is_active = ?"@] } else { Seq::empty() };
    let p1: Seq<SqlParamView> = match is_active {
        Some(b) => seq![flag_param(b)],
        None => Seq::empty(),
    };
    let c2: Seq<Seq<char>> = if nonblank(protocol) {
        seq!["LOWER(n.protocol) = LOWER(?)"@]
    } else {
        Seq::empty()
    };
    let p2: Seq<SqlParamView> = if nonblank(protocol) {
        seq![SqlParamView::Text(protocol->0)]
    } else {
        Seq::empty()
    };
    let c3: Seq<Seq<char>> = if nonblank(search) {
        seq!["(n.name LIKE ? OR n.host LIKE ? OR COALESCE(n.description, '') LIKE ?)"@]
    } else {
        Seq::empty()
    };
    let p3: Seq<SqlParamView> = if nonblank(search) {
        let pat = SqlParamView::Text(search_pattern(search->0));
        seq![pat, pat, pat]
    } else {
        Seq::empty()
    };
    let c4: Seq<Seq<char>> = if tags.len() > 0 { seq![tags_clause(tags.len())] } else { Seq::empty() };
    (c1 + c2 + c3 + c4, p1 + p2 + p3 + text_params(tags))
}

fn is_nonblank(value: &Option<String>) -> (r: bool)
    ensures
        r == nonblank(value.deep_view()),
{
    match value {
        Some(v) => !trim_str(v.as_str()).as_str().is_empty(),
        None => false,
    }
}

/// Appends the clauses and parameters of the shared filters.
fn push_common_filters(
    clauses: &mut Vec<String>,
    params: &mut Vec<SqlParam>,
    is_active: Option<bool>,
    protocol: &Option<String>,
    search: &Option<String>,
    tags: &Vec<String>,
)
    ensures
        ({
            let (c, p) = common_filter_parts(
                is_active,
                protocol.deep_view(),
                search.deep_view(),
                tags.deep_view(),
            );
            &&& final(clauses).deep_view() == old(clauses).deep_view() + c
            &&& final(params).deep_view() == old(params).deep_view() + p
        }),
{
    let ghost c0 = clauses.deep_view();
    let ghost p0 = params.deep_view();
    let ghost parts = common_filter_parts(
        is_active,
        protocol.deep_view(),
        search.deep_view(),
        tags.deep_view(),
    );
    if let Some(active) = is_active {
        clauses.push(String::from_str("n.is_active = ?"));
        params.push(SqlParam::Int(if active { 1 } else { 0 }));
    }
    let ghost c1 = clauses.deep_view();
    let ghost p1 = params.deep_view();
    if is_nonblank(protocol) {
        clauses.push(String::from_str("LOWER(n.protocol) = LOWER(?)"));
        match protocol {
            Some(p) => params.push(SqlParam::Text(p.clone())),
            None => {},
        }
    }
    let ghost c2 = clauses.deep_view();
    let ghost p2 = params.deep_view();
    if is_nonblank(search) {
        match search {
            Some(term) => {
                let mut pat = String::from_str("%");
                let t = trim_str(term.as_str());
                pat.append(t.as_str());
                pat.append("%");
                clauses.push(
                    String::from_str(
                        "(n.name LIKE ? OR n.host LIKE ? OR COALESCE(n.description, '') LIKE ?)",
                    ),
                );
                params.push(SqlParam::Text(pat.clone()));
                params.push(SqlParam::Text(pat.clone()));
                params.push(SqlParam::Text(pat));
            },
            None => {},
        }
    }
    let ghost c3 = clauses.deep_view();
    let ghost p3 = params.deep_view();
    if tags.len() > 0 {
        let mut clause = String::from_str(
            "n.id IN (SELECT DISTINCT node_id FROM node_tags WHERE tag IN (",
        );
        let ph = placeholders(tags.len());
        clause.append(ph.as_str());
        clause.append("))");
        clauses.push(clause);
    }
    let mut k: usize = 0;
    while k < tags.len()
        invariant
            k <= tags.len(),
            params.deep_view() == p3 + text_params(tags.deep_view().subrange(0, k as int)),
        decreases tags.len() - k,
    {
        let ghost before = params.deep_view();
        params.push(SqlParam::Text(tags[k].clone()));
        k = k + 1;
        assert(text_params(tags.deep_view().subrange(0, k as int)) =~= text_params(
            tags.deep_view().subrange(0, k - 1),
        ).push(SqlParamView::Text(tags.deep_view()[k - 1])));
        assert(params.deep_view() =~= before.push(SqlParamView::Text(tags.deep_view()[k - 1])));
    }
    assert(tags.deep_view().subrange(0, tags.len() as int) =~= tags.deep_view());
    assert(clauses.deep_view() =~= c0 + parts.0);
    assert(params.deep_view() =~= p0 + parts.1);
}

/// `(" WHERE " + clauses joined with " AND ")`, or nothing without clauses.
pub fn where_sql(clauses: &Vec<String>) -> (r: String)
    ensures
        r@ == where_sql_spec(clauses.deep_view()),
{
    if clauses.len() == 0 {
        return String::new();
    }
    let mut r = String::from_str(" WHERE ");
    let j = join_strings(clauses, " AND ");
    r.append(j.as_str());
    r
}

/// The public listing's `WHERE` part and parameters.
pub open spec fn node_filter_spec(
    filters: NodeFilterParams,
    public_only: bool,
) -> (Seq<char>, Seq<SqlParamView>) {
    let c0: Seq<Seq<char>> = if public_only { seq!["n.is_approved = 1"@] } else { Seq::empty() };
    let (c, p) = common_filter_parts(
        filters.is_active,
        filters.protocol.deep_view(),
        filters.search.deep_view(),
        filters.tags.deep_view(),
    );
    (where_sql_spec(c0 + c), p)
}

pub fn build_node_filters(filters: &NodeFilterParams, public_only: bool) -> (r: (String, Vec<SqlParam>))
    ensures
        (r.0@, r.1.deep_view()) == node_filter_spec(*filters, public_only),
{
    let mut clauses: Vec<String> = Vec::new();
    let mut params: Vec<SqlParam> = Vec::new();
    if public_only {
        clauses.push(String::from_str("n.is_approved = 1"));
    }
    let ghost c0 = clauses.deep_view();
    assert(params.deep_view() =~= Seq::<SqlParamView>::empty());
    push_common_filters(
        &mut clauses,
        &mut params,
        filters.is_active,
        &filters.protocol,
        &filters.search,
        &filters.tags,
    );
    proof {
        let (c, p) = common_filter_parts(
            filters.is_active,
            filters.protocol.deep_view(),
            filters.search.deep_view(),
            filters.tags.deep_view(),
        );
        if public_only {
            assert(c0 =~= seq!["n.is_approved = 1"@]);
        } else {
            assert(c0 =~= Seq::<Seq<char>>::empty());
        }
        assert(Seq::<SqlParamView>::empty() + p =~= p);
    }
    (where_sql(&clauses), params)
}

/// A public listing filtered on `is_active` keeps that filter whatever its value: the query
/// opens with the clause `n.is_active = ?` (after `n.is_approved = 1` for the public view),
/// followed by nothing or by further clauses, and its first parameter, the one that clause
/// binds, is 1 for active nodes and 0 for inactive ones.
pub proof fn law_node_filter_keeps_active(filters: NodeFilterParams, public_only: bool, b: bool)
    requires
        filters.is_active == Some(b),
    ensures
        ({
            let (w, p) = node_filter_spec(filters, public_only);
            let lead = if public_only {
                " WHERE n.is_approved = 1 AND n.is_active = ?"@
            } else {
                " WHERE n.is_active = ?"@
            };
            &&& w.len() >= lead.len()
            &&& w.subrange(0, lead.len() as int) == lead
            &&& (w.len() == lead.len() || w.subrange(lead.len() as int, lead.len() as int + 5)
                == " AND "@)
            &&& p.len() >= 1
            &&& p[0] == SqlParamView::Int(if b { 1 } else { 0 })
        }),
{
    let (w, p) = node_filter_spec(filters, public_only);
    let c0: Seq<Seq<char>> = if public_only { seq!["n.is_approved = 1"@] } else { Seq::empty() };
    let (c, pc) = common_filter_parts(
        filters.is_active,
        filters.protocol.deep_view(),
        filters.search.deep_view(),
        filters.tags.deep_view(),
    );
    let all = c0 + c;
    let k: int = if public_only { 2 } else { 1 };
    assert(c[0] == "n.is_active = ?"@);
    assert(all[k - 1] == "n.is_active = ?"@);
    assert(w == " WHERE "@ + join(all, " AND "@));
    reveal_strlit(" WHERE n.is_approved = 1 AND n.is_active = ?");
    reveal_strlit(" WHERE n.is_active = ?");
    reveal_strlit(" WHERE ");
    reveal_strlit(" AND ");
    reveal_strlit("n.is_active = ?");
    reveal_strlit("n.is_approved = 1");
    let lead = if public_only {
        " WHERE n.is_approved = 1 AND n.is_active = ?"@
    } else {
        " WHERE n.is_active = ?"@
    };
    // The clauses from the active one on, and what they join to.
    let from = all.subrange(k - 1, all.len() as int);
    let tail: Seq<char> = if from.len() == 1 {
        Seq::empty()
    } else {
        " AND "@ + join(from.subrange(1, from.len() as int), " AND "@)
    };
    if from.len() >= 2 {
        lemma_join_first(from, " AND "@);
    }
    assert(join(from, " AND "@) == "n.is_active = ?"@ + tail);
    if public_only {
        lemma_join_first(all, " AND "@);
        assert(all.subrange(1, all.len() as int) =~= from);
        assert(w =~= lead + tail);
    } else {
        assert(all =~= from);
        assert(w =~= lead + tail);
    }
    assert(w.subrange(0, lead.len() as int) =~= lead);
    if from.len() >= 2 {
        assert(w.subrange(lead.len() as int, lead.len() as int + 5) =~= " AND "@);
    }
}

/// Each filter of the public listing that is set stands in its query as a conjunct and
/// binds its values in the order of the clauses: the approved-only clause for the public
/// view; `n.is_active = ?` with 1 or 0; the protocol, compared without case; the trimmed
/// search term between `%` wildcards, once for the name, the host and the description; and
/// one placeholder per tag, bound to the tags. Unset or blank filters bind nothing, and a
/// listing with no filter at all has no `WHERE` part.
pub proof fn law_node_filter_conjuncts(filters: NodeFilterParams, public_only: bool)
    ensures
        ({
            let (w, p) = node_filter_spec(filters, public_only);
            let protocol = filters.protocol.deep_view();
            let search = filters.search.deep_view();
            let tags = filters.tags.deep_view();
            let na: int = if filters.is_active is Some { 1 } else { 0 };
            let np: int = if nonblank(protocol) { 1 } else { 0 };
            let ns: int = if nonblank(search) { 3 } else { 0 };
            let pat = SqlParamView::Text("%"@ + trim(search->0) + "%"@);
            &&& p.len() == na + np + ns + tags.len()
            &&& (public_only ==> has_clause(w, "n.is_approved = 1"@))
            &&& (filters.is_active matches Some(b) ==> has_clause(w, "n.is_active = ?"@) && p[0]
                == SqlParamView::Int(if b { 1 } else { 0 }))
            &&& (nonblank(protocol) ==> has_clause(w, "LOWER(n.protocol) = LOWER(?)"@) && p[na]
                == SqlParamView::Text(protocol->0))
            &&& (nonblank(search) ==> has_clause(
                w,
                "(n.name LIKE ? OR n.host LIKE ? OR COALESCE(n.description, '') LIKE ?)"@,
            ) && p[na + np] == pat && p[na + np + 1] == pat && p[na + np + 2] == pat)
            &&& (tags.len() > 0 ==> has_clause(
                w,
                "n.id IN (SELECT DISTINCT node_id FROM node_tags WHERE tag IN ("@ + placeholders_spec(
                    tags.len(),
                ) + "))"@,
            ))
            &&& p.subrange(p.len() - tags.len(), p.len() as int) == tags.map_values(
                |t: Seq<char>| SqlParamView::Text(t),
            )
            &&& (w.len() == 0 <==> !public_only && filters.is_active is None && !nonblank(protocol)
                && !nonblank(search) && tags.len() == 0)
        }),
{
    let (w, p) = node_filter_spec(filters, public_only);
    let c0: Seq<Seq<char>> = if public_only { seq!["n.is_approved = 1"@] } else { Seq::empty() };
    let protocol = filters.protocol.deep_view();
    let search = filters.search.deep_view();
    let tags = filters.tags.deep_view();
    let (c, pc) = common_filter_parts(filters.is_active, protocol, search, tags);
    lemma_common_parts(filters.is_active, protocol, search, tags);
    let all = c0 + c;
    let k0 = c0.len() as int;
    let na: int = if filters.is_active is Some { 1 } else { 0 };
    let np: int = if nonblank(protocol) { 1 } else { 0 };
    let ns: int = if nonblank(search) { 3 } else { 0 };
    assert(w == where_sql_spec(all));
    assert(p == pc);
    if public_only {
        lemma_where_has_clause(all, 0);
    }
    if filters.is_active is Some {
        assert(all[k0] == c[0]);
        lemma_where_has_clause(all, k0);
    }
    if nonblank(protocol) {
        assert(all[k0 + na] == c[na]);
        lemma_where_has_clause(all, k0 + na);
    }
    if nonblank(search) {
        assert(all[k0 + na + np] == c[na + np]);
        lemma_where_has_clause(all, k0 + na + np);
        assert(p[na + np] == p.subrange(na + np, na + np + 3)[0]);
        assert(p[na + np + 1] == p.subrange(na + np, na + np + 3)[1]);
        assert(p[na + np + 2] == p.subrange(na + np, na + np + 3)[2]);
    }
    let nsc: int = if nonblank(search) { 1 } else { 0 };
    if tags.len() > 0 {
        assert(all[k0 + na + np + nsc] == c[na + np + nsc]);
        lemma_where_has_clause(all, k0 + na + np + nsc);
    }
    reveal_strlit(" WHERE ");
}

/// The administrator listing's `WHERE` part and parameters.
pub open spec fn admin_node_filter_spec(filters: AdminNodeFilterParams) -> (
    Seq<char>,
    Seq<SqlParamView>,
) {
    let c0: Seq<Seq<char>> = if filters.is_active is Some {
        seq!["n.is_active = ?"@]
    } else {
        Seq::empty()
    };
    let p0: Seq<SqlParamView> = match filters.is_active {
        Some(b) => seq![flag_param(b)],
        None => Seq::empty(),
    };
    let c1: Seq<Seq<char>> = if filters.is_approved is Some {
        seq!["n.is_approved = ?"@]
    } else {
        Seq::empty()
    };
    let p1: Seq<SqlParamView> = match filters.is_approved {
        Some(b) => seq![flag_param(b)],
        None => Seq::empty(),
    };
    let given: Seq<Seq<char>> = match filters.tags {
        Some(t) => t.deep_view(),
        None => Seq::empty(),
    };
    let tags = normalized(
        match filters.tag.deep_view() {
            Some(t) => given.push(t),
            None => given,
        },
    );
    let (c, p) = common_filter_parts(
        None,
        filters.protocol.deep_view(),
        filters.search.deep_view(),
        tags,
    );
    (where_sql_spec(c0 + c1 + c), p0 + p1 + p)
}

pub fn build_admin_node_filters(filters: &AdminNodeFilterParams) -> (r: (String, Vec<SqlParam>))
    ensures
        (r.0@, r.1.deep_view()) == admin_node_filter_spec(*filters),
{
    let mut clauses: Vec<String> = Vec::new();
    let mut params: Vec<SqlParam> = Vec::new();
    if let Some(active) = filters.is_active {
        clauses.push(String::from_str("n.is_active = ?"));
        params.push(SqlParam::Int(if active { 1 } else { 0 }));
    }
    if let Some(approved) = filters.is_approved {
        clauses.push(String::from_str("n.is_approved = ?"));
        params.push(SqlParam::Int(if approved { 1 } else { 0 }));
    }
    let ghost c01 = clauses.deep_view();
    let ghost p01 = params.deep_view();
    let given = match &filters.tags {
        Some(t) => clone_strings(t),
        None => Vec::new(),
    };
    let single = match &filters.tag {
        Some(t) => Some(t.clone()),
        None => None,
    };
    let ghost single_v = single.deep_view();
    let ghost given_dv = given.deep_view();
    let tags = normalize_filter_tags(single, given);
    push_common_filters(&mut clauses, &mut params, None, &filters.protocol, &filters.search, &tags);
    proof {
        let given_v: Seq<Seq<char>> = match &filters.tags {
            Some(t) => t.deep_view(),
            None => Seq::empty(),
        };
        let spec_tags = normalized(
            match filters.tag.deep_view() {
                Some(t) => given_v.push(t),
                None => given_v,
            },
        );
        assert(given_dv == given_v);
        assert(single_v == filters.tag.deep_view());
        assert(tags.deep_view() == spec_tags);
        let c0: Seq<Seq<char>> = if filters.is_active is Some {
            seq!["n.is_active = ?"@]
        } else {
            Seq::empty()
        };
        let c1: Seq<Seq<char>> = if filters.is_approved is Some {
            seq!["n.is_approved = ?"@]
        } else {
            Seq::empty()
        };
        assert(c01 =~= c0 + c1);
        let p0: Seq<SqlParamView> = match filters.is_active {
            Some(b) => seq![flag_param(b)],
            None => Seq::empty(),
        };
        let p1: Seq<SqlParamView> = match filters.is_approved {
            Some(b) => seq![flag_param(b)],
            None => Seq::empty(),
        };
        assert(p01 =~= p0 + p1);
        let (c, p) = common_filter_parts(
            None,
            filters.protocol.deep_view(),
            filters.search.deep_view(),
            spec_tags,
        );
        assert(clauses.deep_view() =~= c0 + c1 + c);
        assert(params.deep_view() =~= p0 + p1 + p);
    }
    (where_sql(&clauses), params)
}

/// The administrator's listing filtered on one non-blank `tag` keeps that filter: the query
/// ends with the clause that selects the nodes carrying one of the listed tags, with one
/// placeholder per tag, and the parameters end with those tags, which are the normalization
/// of `tags` and `tag` together, so the trimmed `tag` is among them.
#[verifier::rlimit(40)]
pub proof fn law_admin_single_tag_filter(filters: AdminNodeFilterParams)
    requires
        filters.tag matches Some(t) && trim(t@).len() > 0,
    ensures
        ({
            let (w, p) = admin_node_filter_spec(filters);
            let t = trim(filters.tag->0@);
            let given: Seq<Seq<char>> = match filters.tags {
                Some(v) => v.deep_view(),
                None => Seq::empty(),
            };
            &&& exists|i: int| 0 <= i < p.len() && p[i] == SqlParamView::Text(t)
            &&& exists|s: Seq<Seq<char>>| {
                let clause = "n.id IN (SELECT DISTINCT node_id FROM node_tags WHERE tag IN ("@
                    + placeholders_spec(s.len()) + "))"@;
                &&& is_normalization(given.push(filters.tag->0@), s)
                &&& s.contains(t)
                &&& w.len() >= clause.len()
                &&& w.subrange(w.len() - clause.len(), w.len() as int) == clause
                &&& p.len() >= s.len()
                &&& p.subrange(p.len() - s.len(), p.len() as int) == #[trigger] text_params(s)
            }
        }),
{
    let (w, p) = admin_node_filter_spec(filters);
    let t = trim(filters.tag->0@);
    let given: Seq<Seq<char>> = match filters.tags {
        Some(v) => v.deep_view(),
        None => Seq::empty(),
    };
    let all = given.push(filters.tag->0@);
    let tags = normalized(all);
    lemma_normalization_exists(all);
    assert(trim(all[all.len() - 1]) == t);
    assert(tag_kept(all, t));
    assert(tags.contains(t));
    let k = choose|k: int| 0 <= k < tags.len() && tags[k] == t;
    let c0: Seq<Seq<char>> = if filters.is_active is Some {
        seq!["n.is_active = ?"@]
    } else {
        Seq::empty()
    };
    let p0: Seq<SqlParamView> = match filters.is_active {
        Some(b) => seq![flag_param(b)],
        None => Seq::empty(),
    };
    let c1: Seq<Seq<char>> = if filters.is_approved is Some {
        seq!["n.is_approved = ?"@]
    } else {
        Seq::empty()
    };
    let p1: Seq<SqlParamView> = match filters.is_approved {
        Some(b) => seq![flag_param(b)],
        None => Seq::empty(),
    };
    let (c, pc) = common_filter_parts(
        None,
        filters.protocol.deep_view(),
        filters.search.deep_view(),
        tags,
    );
    let all_c = c0 + c1 + c;
    assert(w == where_sql_spec(all_c));
    assert(p == p0 + p1 + pc);
    let clause = "n.id IN (SELECT DISTINCT node_id FROM node_tags WHERE tag IN ("@ + placeholders_spec(
        tags.len(),
    ) + "))"@;
    assert(all_c.last() == clause);
    lemma_where_ends_with_last(all_c);
    let front = p0 + p1 + (pc.subrange(0, pc.len() - tags.len()));
    assert(pc =~= pc.subrange(0, pc.len() - tags.len()) + text_params(tags));
    assert(p =~= front + text_params(tags));
    assert(p.subrange(p.len() - tags.len(), p.len() as int) =~= text_params(tags));
    let i = p.len() - tags.len() + k;
    assert(p[i] == text_params(tags)[k]);
    assert(p[i] == SqlParamView::Text(t));
    assert(is_normalization(all, tags));
}

/// Each filter of the administrator's listing that is set stands in its query as a
/// conjunct and binds its values in the order of the clauses: `n.is_active = ?` and
/// `n.is_approved = ?` with 1 or 0; the protocol, compared without case; the trimmed search
/// term between `%` wildcards, three times; and one placeholder per tag of the normalization
/// of `tags` and `tag` together, bound to those tags. Unset or blank filters bind nothing,
/// and a listing with no filter at all has no `WHERE` part.
#[verifier::rlimit(60)]
pub proof fn law_admin_filter_conjuncts(filters: AdminNodeFilterParams)
    ensures
        ({
            let (w, p) = admin_node_filter_spec(filters);
            let protocol = filters.protocol.deep_view();
            let search = filters.search.deep_view();
            let given: Seq<Seq<char>> = match filters.tags {
                Some(v) => v.deep_view(),
                None => Seq::empty(),
            };
            let tags = normalized(
                match filters.tag {
                    Some(t) => given.push(t@),
                    None => given,
                },
            );
            let na: int = if filters.is_active is Some { 1 } else { 0 };
            let nb: int = if filters.is_approved is Some { 1 } else { 0 };
            let np: int = if nonblank(protocol) { 1 } else { 0 };
            let ns: int = if nonblank(search) { 3 } else { 0 };
            let pat = SqlParamView::Text("%"@ + trim(search->0) + "%"@);
            &&& p.len() == na + nb + np + ns + tags.len()
            &&& (filters.is_active matches Some(b) ==> has_clause(w, "n.is_active = ?"@) && p[0]
                == SqlParamView::Int(if b { 1 } else { 0 }))
            &&& (filters.is_approved matches Some(b) ==> has_clause(w, "n.is_approved = ?"@)
                && p[na] == SqlParamView::Int(if b { 1 } else { 0 }))
            &&& (nonblank(protocol) ==> has_clause(w, "LOWER(n.protocol) = LOWER(?)"@) && p[na
                + nb] == SqlParamView::Text(protocol->0))
            &&& (nonblank(search) ==> has_clause(
                w,
                "(n.name LIKE ? OR n.host LIKE ? OR COALESCE(n.description, '') LIKE ?)"@,
            ) && p[na + nb + np] == pat && p[na + nb + np + 1] == pat && p[na + nb + np + 2] == pat)
            &&& (tags.len() > 0 ==> has_clause(
                w,
                "n.id IN (SELECT DISTINCT node_id FROM node_tags WHERE tag IN ("@ + placeholders_spec(
                    tags.len(),
                ) + "))"@,
            ))
            &&& p.subrange(p.len() - tags.len(), p.len() as int) == tags.map_values(
                |t: Seq<char>| SqlParamView::Text(t),
            )
            &&& (w.len() == 0 <==> filters.is_active is None && filters.is_approved is None
                && !nonblank(protocol) && !nonblank(search) && tags.len() == 0)
        }),
{
    let (w, p) = admin_node_filter_spec(filters);
    let protocol = filters.protocol.deep_view();
    let search = filters.search.deep_view();
    let given: Seq<Seq<char>> = match filters.tags {
        Some(v) => v.deep_view(),
        None => Seq::empty(),
    };
    let tags = normalized(
        match filters.tag {
            Some(t) => given.push(t@),
            None => given,
        },
    );
    let c0: Seq<Seq<char>> = if filters.is_active is Some {
        seq!["n.is_active = ?"@]
    } else {
        Seq::empty()
    };
    let p0: Seq<SqlParamView> = match filters.is_active {
        Some(b) => seq![flag_param(b)],
        None => Seq::empty(),
    };
    let c1: Seq<Seq<char>> = if filters.is_approved is Some {
        seq!["n.is_approved = ?"@]
    } else {
        Seq::empty()
    };
    let p1: Seq<SqlParamView> = match filters.is_approved {
        Some(b) => seq![flag_param(b)],
        None => Seq::empty(),
    };
    let (c, pc) = common_filter_parts(None, protocol, search, tags);
    lemma_common_parts(None, protocol, search, tags);
    let all = c0 + c1 + c;
    let pall = p0 + p1 + pc;
    assert(w == where_sql_spec(all));
    assert(p == pall);
    let na: int = if filters.is_active is Some { 1 } else { 0 };
    let nb: int = if filters.is_approved is Some { 1 } else { 0 };
    let np: int = if nonblank(protocol) { 1 } else { 0 };
    let ns: int = if nonblank(search) { 3 } else { 0 };
    let nsc: int = if nonblank(search) { 1 } else { 0 };
    if filters.is_active is Some {
        lemma_where_has_clause(all, 0);
    }
    if filters.is_approved is Some {
        assert(all[na] == "n.is_approved = ?"@);
        assert(pall[na] == p1[0]);
        lemma_where_has_clause(all, na);
    }
    if nonblank(protocol) {
        assert(all[na + nb] == c[0]);
        assert(pall[na + nb] == pc[0]);
        lemma_where_has_clause(all, na + nb);
    }
    if nonblank(search) {
        assert(all[na + nb + np] == c[np]);
        lemma_where_has_clause(all, na + nb + np);
        assert(pall[na + nb + np] == pc.subrange(np, np + 3)[0]);
        assert(pall[na + nb + np + 1] == pc.subrange(np, np + 3)[1]);
        assert(pall[na + nb + np + 2] == pc.subrange(np, np + 3)[2]);
    }
    if tags.len() > 0 {
        assert(all[na + nb + np + nsc] == c[np + nsc]);
        lemma_where_has_clause(all, na + nb + np + nsc);
    }
    assert(p.subrange(p.len() - tags.len(), p.len() as int) =~= pc.subrange(
        np + ns,
        pc.len() as int,
    ));
    reveal_strlit(" WHERE ");
}

fn clone_strings(v: &Vec<String>) -> (r: Vec<String>)
    ensures
        r.deep_view() == v.deep_view(),
{
    let mut r: Vec<String> = Vec::new();
    let mut i: usize = 0;
    while i < v.len()
        invariant
            i <= v.len(),
            r.deep_view() == v.deep_view().subrange(0, i as int),
        decreases v.len() - i,
    {
        let ghost before = r.deep_view();
        let c = v[i].clone();
        r.push(c);
        assert(r.deep_view() =~= before.push(c@));
        i = i + 1;
        assert(r.deep_view() =~= v.deep_view().subrange(0, i as int));
    }
    assert(v.deep_view().subrange(0, v.len() as int) =~= v.deep_view());
    r
}

/// A node's health history filter: `WHERE` part and parameters.
pub open spec fn health_filter_spec(node_id: i32, filters: HealthFilterParams) -> (
    Seq<char>,
    Seq<SqlParamView>,
) {
    let status = filters.status.deep_view();
    let since = filters.since.deep_view();
    let c: Seq<Seq<char>> = seq!["h.node_id = ?"@] + (if nonblank(status) {
        seq!["LOWER(h.status) = LOWER(?)"@]
    } else {
        Seq::empty()
    }) + (if nonblank(since) {
        seq!["h.checked_at >= ?"@]
    } else {
        Seq::empty()
    });
    let p: Seq<SqlParamView> = seq![SqlParamView::Int(node_id as int)] + (if nonblank(status) {
        seq![SqlParamView::Text(status->0)]
    } else {
        Seq::empty()
    }) + (if nonblank(since) {
        seq![SqlParamView::Text(since->0)]
    } else {
        Seq::empty()
    });
    (where_sql_spec(c), p)
}

pub fn build_health_filters(node_id: i32, filters: &HealthFilterParams) -> (r: (
    String,
    Vec<SqlParam>,
))
    ensures
        (r.0@, r.1.deep_view()) == health_filter_spec(node_id, *filters),
{
    let mut clauses: Vec<String> = Vec::new();
    let mut params: Vec<SqlParam> = Vec::new();
    clauses.push(String::from_str("h.node_id = ?"));
    params.push(SqlParam::Int(node_id as i64));
    let ghost c0 = clauses.deep_view();
    let ghost p0 = params.deep_view();
    if is_nonblank(&filters.status) {
        clauses.push(String::from_str("LOWER(h.status) = LOWER(?)"));
        match &filters.status {
            Some(s) => params.push(SqlParam::Text(s.clone())),
            None => {},
        }
    }
    let ghost c1 = clauses.deep_view();
    let ghost p1 = params.deep_view();
    if is_nonblank(&filters.since) {
        clauses.push(String::from_str("h.checked_at >= ?"));
        match &filters.since {
            Some(s) => params.push(SqlParam::Text(s.clone())),
            None => {},
        }
    }
    proof {
        let status = filters.status.deep_view();
        let since = filters.since.deep_view();
        assert(c0 =~= seq!["h.node_id = ?"@]);
        assert(p0 =~= seq![SqlParamView::Int(node_id as int)]);
        assert(clauses.deep_view() =~= seq!["h.node_id = ?"@] + (if nonblank(status) {
            seq!["LOWER(h.status) = LOWER(?)"@]
        } else {
            Seq::empty()
        }) + (if nonblank(since) {
            seq!["h.checked_at >= ?"@]
        } else {
            Seq::empty()
        }));
        assert(params.deep_view() =~= seq![SqlParamView::Int(node_id as int)] + (if nonblank(
            status,
        ) {
            seq![SqlParamView::Text(status->0)]
        } else {
            Seq::empty()
        }) + (if nonblank(since) {
            seq![SqlParamView::Text(since->0)]
        } else {
            Seq::empty()
        }));
    }
    (where_sql(&clauses), params)
}


/// Whether `clause` stands in the `WHERE` part `w` as one of its conjuncts: right after
/// `" WHERE "` at the start or after an `" AND "`, and followed by the end or an `" AND "`.
pub open spec fn has_clause(w: Seq<char>, clause: Seq<char>) -> bool {
    exists|i: int|
        #[trigger] occurs_at(w, clause, i) && ((i == 7 && occurs_at(w, " WHERE "@, 0)) || occurs_at(
            w,
            " AND "@,
            i - 5,
        )) && (i + clause.len() == w.len() || occurs_at(w, " AND "@, i + clause.len()))
}

/// Each clause stands in the `WHERE` part made of the clauses as one of its conjuncts.
proof fn lemma_where_has_clause(clauses: Seq<Seq<char>>, j: int)
    requires
        0 <= j < clauses.len(),
    ensures
        has_clause(where_sql_spec(clauses), clauses[j]),
{
    reveal_strlit(" WHERE ");
    reveal_strlit(" AND ");
    let sep = " AND "@;
    let w = where_sql_spec(clauses);
    let n = clauses.len() as int;
    let x = clauses[j];
    lemma_join_part(clauses, sep, j);
    let pre: Seq<char> = if j == 0 {
        Seq::empty()
    } else {
        join(clauses.subrange(0, j), sep) + sep
    };
    let post: Seq<char> = if j + 1 == n {
        Seq::empty()
    } else {
        sep + join(clauses.subrange(j + 1, n), sep)
    };
    assert(w =~= " WHERE "@ + pre + x + post);
    let i: int = 7 + pre.len() as int;
    assert(w.subrange(i, i + x.len()) =~= x);
    assert(occurs_at(w, x, i));
    if j == 0 {
        assert(w.subrange(0, 7) =~= " WHERE "@);
    } else {
        assert(w.subrange(i - 5, i) =~= sep);
    }
    if j + 1 < n {
        assert(w.subrange(i + x.len(), i + x.len() as int + 5) =~= sep);
    }
}

/// Where each shared filter puts its clause and its parameters.
proof fn lemma_common_parts(
    is_active: Option<bool>,
    protocol: Option<Seq<char>>,
    search: Option<Seq<char>>,
    tags: Seq<Seq<char>>,
)
    ensures
        ({
            let (c, p) = common_filter_parts(is_active, protocol, search, tags);
            let na: int = if is_active is Some { 1 } else { 0 };
            let np: int = if nonblank(protocol) { 1 } else { 0 };
            let ns: int = if nonblank(search) { 1 } else { 0 };
            let nt: int = if tags.len() > 0 { 1 } else { 0 };
            &&& c.len() == na + np + ns + nt
            &&& p.len() == na + np + 3 * ns + tags.len()
            &&& (is_active matches Some(b) ==> c[0] == "n.is_active = ?"@ && p[0] == flag_param(b))
            &&& (nonblank(protocol) ==> c[na] == "LOWER(n.protocol) = LOWER(?)"@ && p[na]
                == SqlParamView::Text(protocol->0))
            &&& (nonblank(search) ==> c[na + np]
                == "(n.name LIKE ? OR n.host LIKE ? OR COALESCE(n.description, '') LIKE ?)"@
                && p.subrange(na + np, na + np + 3) == seq![
                SqlParamView::Text(search_pattern(search->0)),
                SqlParamView::Text(search_pattern(search->0)),
                SqlParamView::Text(search_pattern(search->0)),
            ])
            &&& (tags.len() > 0 ==> c[na + np + ns] == tags_clause(tags.len()))
            &&& p.subrange(na + np + 3 * ns, p.len() as int) == text_params(tags)
        }),
{
    let (c, p) = common_filter_parts(is_active, protocol, search, tags);
    let na: int = if is_active is Some { 1 } else { 0 };
    let np: int = if nonblank(protocol) { 1 } else { 0 };
    let ns: int = if nonblank(search) { 1 } else { 0 };
    let c1: Seq<Seq<char>> = if is_active is Some { seq!["n.is_active = ?"@] } else { Seq::empty() };
    let p1: Seq<SqlParamView> = match is_active {
        Some(b) => seq![flag_param(b)],
        None => Seq::empty(),
    };
    let c2: Seq<Seq<char>> = if nonblank(protocol) {
        seq!["LOWER(n.protocol) = LOWER(?)"@]
    } else {
        Seq::empty()
    };
    let p2: Seq<SqlParamView> = if nonblank(protocol) {
        seq![SqlParamView::Text(protocol->0)]
    } else {
        Seq::empty()
    };
    let c3: Seq<Seq<char>> = if nonblank(search) {
        seq!["(n.name LIKE ? OR n.host LIKE ? OR COALESCE(n.description, '') LIKE ?)"@]
    } else {
        Seq::empty()
    };
    let p3: Seq<SqlParamView> = if nonblank(search) {
        let pat = SqlParamView::Text(search_pattern(search->0));
        seq![pat, pat, pat]
    } else {
        Seq::empty()
    };
    let c4: Seq<Seq<char>> = if tags.len() > 0 { seq![tags_clause(tags.len())] } else { Seq::empty() };
    assert(c == c1 + c2 + c3 + c4);
    assert(p == p1 + p2 + p3 + text_params(tags));
    assert(p.subrange(na + np + 3 * ns, p.len() as int) =~= text_params(tags));
    if nonblank(search) {
        assert(p.subrange(na + np, na + np + 3) =~= p3);
    }
}

/// The `WHERE` part of two or more clauses ends with `" AND "` and the last clause.
proof fn lemma_where_last(clauses: Seq<Seq<char>>)
    requires
        clauses.len() >= 2,
    ensures
        where_sql_spec(clauses) == " WHERE "@ + join(clauses.drop_last(), " AND "@) + " AND "@
            + clauses.last(),
{
    assert(where_sql_spec(clauses) =~= " WHERE "@ + join(clauses.drop_last(), " AND "@) + " AND "@
        + clauses.last());
}

/// The `WHERE` part of one or more clauses ends with the last clause.
proof fn lemma_where_ends_with_last(clauses: Seq<Seq<char>>)
    requires
        clauses.len() >= 1,
    ensures
        where_sql_spec(clauses).len() >= clauses.last().len(),
        where_sql_spec(clauses).subrange(
            where_sql_spec(clauses).len() - clauses.last().len(),
            where_sql_spec(clauses).len() as int,
        ) == clauses.last(),
{
    let w = where_sql_spec(clauses);
    let l = clauses.last();
    if clauses.len() >= 2 {
        lemma_where_last(clauses);
        assert(w =~= (" WHERE "@ + join(clauses.drop_last(), " AND "@) + " AND "@) + l);
    } else {
        assert(w =~= " WHERE "@ + l);
    }
    assert(w.subrange(w.len() - l.len(), w.len() as int) =~= l);
}

/// A node's health history filtered by a non-blank `since` keeps the records checked at
/// or after it: the query ends with the clause `h.checked_at >= ?`, and its last
/// parameter is `since`. The first clause selects the node by its id, the first parameter.
pub proof fn law_health_since_filter(node_id: i32, filters: HealthFilterParams)
    requires
        nonblank(filters.since.deep_view()),
    ensures
        ({
            let (w, p) = health_filter_spec(node_id, filters);
            let tail = " AND h.checked_at >= ?"@;
            let head = " WHERE h.node_id = ?"@;
            &&& w.len() >= head.len() + tail.len()
            &&& w.subrange(0, head.len() as int) == head
            &&& w.subrange(w.len() - tail.len(), w.len() as int) == tail
            &&& p.len() >= 2
            &&& p[0] == SqlParamView::Int(node_id as int)
            &&& p.last() == SqlParamView::Text(filters.since.deep_view()->0)
        }),
{
    let status = filters.status.deep_view();
    let since = filters.since.deep_view();
    let (w, p) = health_filter_spec(node_id, filters);
    let c: Seq<Seq<char>> = seq!["h.node_id = ?"@] + (if nonblank(status) {
        seq!["LOWER(h.status) = LOWER(?)"@]
    } else {
        Seq::empty()
    }) + seq!["h.checked_at >= ?"@];
    assert(w == where_sql_spec(c));
    lemma_where_last(c);
    lemma_join_first(c, " AND "@);
    reveal_strlit(" AND h.checked_at >= ?");
    reveal_strlit(" AND ");
    reveal_strlit("h.checked_at >= ?");
    reveal_strlit(" WHERE h.node_id = ?");
    reveal_strlit(" WHERE ");
    reveal_strlit("h.node_id = ?");
    let tail = " AND h.checked_at >= ?"@;
    let head = " WHERE h.node_id = ?"@;
    let mid = join(c.drop_last(), " AND "@);
    assert(" AND "@ + c.last() =~= tail);
    assert(w =~= (" WHERE "@ + mid) + tail);
    assert(w.subrange(w.len() - tail.len(), w.len() as int) =~= tail);
    assert(" WHERE "@ + c[0] =~= head);
    let rest = join(c.subrange(1, c.len() as int), " AND "@);
    assert(w =~= head + (" AND "@ + rest));
    assert(w.subrange(0, head.len() as int) =~= head);
}

/// A node's health history always selects that node by the first parameter; a non-blank
/// status adds a conjunct that compares it without case and binds it next; a non-blank
/// `since` adds the conjunct `h.checked_at >= ?` and binds it last. Blank filters bind
/// nothing.
pub proof fn law_health_filter_conjuncts(node_id: i32, filters: HealthFilterParams)
    ensures
        ({
            let (w, p) = health_filter_spec(node_id, filters);
            let status = filters.status.deep_view();
            let since = filters.since.deep_view();
            let ns: int = if nonblank(status) { 1 } else { 0 };
            let nt: int = if nonblank(since) { 1 } else { 0 };
            &&& p.len() == 1 + ns + nt
            &&& has_clause(w, "h.node_id = ?"@)
            &&& p[0] == SqlParamView::Int(node_id as int)
            &&& (nonblank(status) ==> has_clause(w, "LOWER(h.status) = LOWER(?)"@) && p[1]
                == SqlParamView::Text(status->0))
            &&& (nonblank(since) ==> has_clause(w, "h.checked_at >= ?"@) && p[1 + ns]
                == SqlParamView::Text(since->0))
        }),
{
    let (w, p) = health_filter_spec(node_id, filters);
    let status = filters.status.deep_view();
    let since = filters.since.deep_view();
    let ns: int = if nonblank(status) { 1 } else { 0 };
    let c: Seq<Seq<char>> = seq!["h.node_id = ?"@] + (if nonblank(status) {
        seq!["LOWER(h.status) = LOWER(?)"@]
    } else {
        Seq::empty()
    }) + (if nonblank(since) {
        seq!["h.checked_at >= ?"@]
    } else {
        Seq::empty()
    });
    assert(w == where_sql_spec(c));
    lemma_where_has_clause(c, 0);
    if nonblank(status) {
        lemma_where_has_clause(c, 1);
    }
    if nonblank(since) {
        assert(c[1 + ns] == "h.checked_at >= ?"@);
        lemma_where_has_clause(c, 1 + ns);
    }
}

/// A stored node, as the `shared_nodes` table holds it.
#[derive(Debug)]
pub struct SharedNodeRow {
    pub id: i32,
    pub name: String,
    pub host: String,
    pub port: i32,
    pub protocol: String,
    pub version: Option<String>,
    pub allow_relay: i32,
    pub network_name: Option<String>,
    pub network_secret: Option<String>,
    pub description: Option<String>,
    pub max_connections: i32,
    pub current_connections: i32,
    pub is_active: i32,
    pub is_approved: i32,
    pub qq_number: Option<String>,
    pub wechat: Option<String>,
    pub mail: Option<String>,
    pub created_at: String,
    pub updated_at: String,
}

/// A stored health check.
#[derive(Debug)]
pub struct HealthRecordRow {
    pub id: i32,
    pub node_id: i32,
    pub status: String,
    pub response_time: Option<i32>,
    pub error_message: Option<String>,
    pub checked_at: String,
}

impl HealthRecordResponse {
    /// The listed form of a stored check: a blank error message is dropped, others trimmed.
    pub fn from_row(value: HealthRecordRow) -> (r: Self)
        ensures
            r.id == value.id,
            r.node_id == value.node_id,
            r.status@ == value.status@,
            r.response_time == value.response_time,
            r.error_message.deep_view() == empty_to_none_spec(value.error_message.deep_view()),
            r.checked_at@ == value.checked_at@,
    {
        HealthRecordResponse {
            id: value.id,
            node_id: value.node_id,
            status: value.status,
            response_time: value.response_time,
            error_message: empty_to_none(value.error_message),
            checked_at: value.checked_at,
        }
    }
}

/// `protocol://host:port`.
pub open spec fn address_spec(protocol: Seq<char>, host: Seq<char>, port: int) -> Seq<char> {
    protocol + "://"@ + host + ":"@ + dec_int(port)
}

/// The address a node is reached at, `protocol://host:port`.
pub fn node_address(protocol: &str, host: &str, port: i32) -> (r: String)
    ensures
        r@ == address_spec(protocol@, host@, port as int),
{
    let mut r = String::from_str(protocol);
    r.append("://");
    r.append(host);
    r.append(":");
    push_dec_i64(&mut r, port as i64);
    r
}

/// The values a node update writes, and whether it moves the node to another address.
#[derive(Debug)]
pub struct NodeUpdatePlan {
    pub name: String,
    pub host: String,
    pub port: i32,
    pub protocol: String,
    pub description: String,
    pub max_connections: i32,
    pub is_active: bool,
    pub allow_relay: bool,
    pub network_name: String,
    pub network_secret: String,
    pub qq_number: String,
    pub wechat: String,
    pub mail: String,
    pub changed_identity: bool,
}

/// `a.or(b).unwrap_or_default()`.
pub open spec fn or_default(a: Option<Seq<char>>, b: Option<Seq<char>>) -> Seq<char> {
    match a {
        Some(v) => v,
        None => match b {
            Some(v) => v,
            None => Seq::empty(),
        },
    }
}

fn or_default_string(a: &Option<String>, b: &Option<String>) -> (r: String)
    ensures
        r@ == or_default(a.deep_view(), b.deep_view()),
{
    match a {
        Some(v) => v.clone(),
        None => match b {
            Some(v) => v.clone(),
            None => String::new(),
        },
    }
}

fn or_string(a: &Option<String>, b: &String) -> (r: String)
    ensures
        r@ == match a.deep_view() {
            Some(v) => v,
            None => b@,
        },
{
    match a {
        Some(v) => v.clone(),
        None => b.clone(),
    }
}

/// What an update of `current` by `request` writes: each field the request gives, else the
/// stored one (missing texts become empty); the address changes when host, port or protocol
/// differ from the stored ones.
pub fn plan_node_update(current: &SharedNodeRow, request: &UpdateNodeRequest) -> (r: NodeUpdatePlan)
    ensures
        r.name@ == match request.name.deep_view() {
            Some(v) => v,
            None => current.name@,
        },
        r.host@ == match request.host.deep_view() {
            Some(v) => v,
            None => current.host@,
        },
        r.port == match request.port {
            Some(v) => v,
            None => current.port,
        },
        r.protocol@ == match request.protocol.deep_view() {
            Some(v) => v,
            None => current.protocol@,
        },
        r.description@ == or_default(request.description.deep_view(), current.description.deep_view()),
        r.max_connections == match request.max_connections {
            Some(v) => v,
            None => current.max_connections,
        },
        r.is_active == match request.is_active {
            Some(v) => v,
            None => current.is_active != 0,
        },
        r.allow_relay == match request.allow_relay {
            Some(v) => v,
            None => current.allow_relay != 0,
        },
        r.network_name@ == or_default(request.network_name.deep_view(), current.network_name.deep_view()),
        r.network_secret@ == or_default(
            request.network_secret.deep_view(),
            current.network_secret.deep_view(),
        ),
        r.qq_number@ == or_default(None, current.qq_number.deep_view()),
        r.wechat@ == or_default(None, current.wechat.deep_view()),
        r.mail@ == or_default(request.mail.deep_view(), current.mail.deep_view()),
        r.changed_identity == (r.host@ != current.host@ || r.port != current.port || r.protocol@
            != current.protocol@),
{
    let name = or_string(&request.name, &current.name);
    let host = or_string(&request.host, &current.host);
    let port = match request.port {
        Some(p) => p,
        None => current.port,
    };
    let protocol = or_string(&request.protocol, &current.protocol);
    let description = or_default_string(&request.description, &current.description);
    let max_connections = match request.max_connections {
        Some(m) => m,
        None => current.max_connections,
    };
    let is_active = match request.is_active {
        Some(a) => a,
        None => current.is_active != 0,
    };
    let allow_relay = match request.allow_relay {
        Some(a) => a,
        None => current.allow_relay != 0,
    };
    let network_name = or_default_string(&request.network_name, &current.network_name);
    let network_secret = or_default_string(&request.network_secret, &current.network_secret);
    let qq_number = or_default_string(&None, &current.qq_number);
    let wechat = or_default_string(&None, &current.wechat);
    let mail = or_default_string(&request.mail, &current.mail);
    let changed_identity = !eq_str(host.as_str(), current.host.as_str()) || port != current.port
        || !eq_str(protocol.as_str(), current.protocol.as_str());
    NodeUpdatePlan {
        name,
        host,
        port,
        protocol,
        description,
        max_connections,
        is_active,
        allow_relay,
        network_name,
        network_secret,
        qq_number,
        wechat,
        mail,
        changed_identity,
    }
}

/// Whether a check's status is `healthy`, in any letter case.
pub open spec fn is_healthy_status(status: Seq<char>) -> bool {
    ascii_lower(status) == "healthy"@
}

pub fn status_is_healthy(status: &str) -> (r: bool)
    ensures
        r == is_healthy_status(status@),
{
    let l = to_ascii_lowercase(status);
    eq_str(l.as_str(), "healthy")
}

/// Rust's `/` on integers: the quotient rounded toward zero.
pub open spec fn trunc_div(a: int, b: int) -> int {
    if a >= 0 {
        a / b
    } else {
        -((-a) / b)
    }
}

/// `i32::saturating_mul`.
pub open spec fn sat_mul_i32(a: int, b: int) -> int {
    if a * b > i32::MAX {
        i32::MAX as int
    } else if a * b < i32::MIN {
        i32::MIN as int
    } else {
        a * b
    }
}

/// The connection figures a node shows: in the public view, the share of its capacity in use
/// out of 100 (both zero without capacity); otherwise the stored counts.
pub open spec fn shown_connections(current: i32, max: i32, public_view: bool) -> (int, int) {
    if public_view {
        if max > 0 {
            (trunc_div(sat_mul_i32(current as int, 100), max as int), 100)
        } else {
            (0, 0)
        }
    } else {
        (current as int, max as int)
    }
}

pub fn connection_figures(current: i32, max: i32, public_view: bool) -> (r: (i32, i32))
    ensures
        (r.0 as int, r.1 as int) == shown_connections(current, max, public_view),
{
    if public_view {
        if max > 0 {
            let scaled: i32 = match current.checked_mul(100) {
                Some(v) => v,
                None => if current > 0 {
                    i32::MAX
                } else {
                    i32::MIN
                },
            };
            (scaled / max, 100)
        } else {
            (0, 0)
        }
    } else {
        (current, max)
    }
}

/// A node as the API shows it, apart from its two percentages.
#[derive(Debug)]
pub struct NodeDetails {
    pub id: i32,
    pub name: String,
    pub host: String,
    pub port: i32,
    pub protocol: String,
    pub version: Option<String>,
    pub description: Option<String>,
    pub max_connections: i32,
    pub current_connections: i32,
    pub is_active: bool,
    pub is_approved: bool,
    pub allow_relay: bool,
    pub network_name: Option<String>,
    pub network_secret: Option<String>,
    pub created_at: String,
    pub updated_at: String,
    pub address: String,
    pub current_health_status: Option<String>,
    pub last_check_time: Option<String>,
    pub last_response_time: Option<i32>,
    pub health_record_total_counter_ring: Vec<u64>,
    pub health_record_healthy_counter_ring: Vec<u64>,
    pub ring_granularity: u32,
    pub qq_number: Option<String>,
    pub wechat: Option<String>,
    pub mail: Option<String>,
    pub tags: Vec<String>,
}

/// A private field as shown: hidden in the public view, else present only when not blank.
pub open spec fn private_field(value: Option<Seq<char>>, public_view: bool) -> Option<Seq<char>> {
    if public_view {
        None
    } else {
        empty_to_none_spec(value)
    }
}

fn shown_private(value: Option<String>, public_view: bool) -> (r: Option<String>)
    ensures
        r.deep_view() == private_field(value.deep_view(), public_view),
{
    if public_view {
        None
    } else {
        empty_to_none(value)
    }
}

/// A stored node as shown, given its latest check, its health rings and its tags. The public
/// view hides the network name and secret and the contacts, and shows usage out of 100.
pub fn node_details(
    row: SharedNodeRow,
    public_view: bool,
    latest: Option<&HealthRecordRow>,
    total_ring: Vec<u64>,
    healthy_ring: Vec<u64>,
    ring_granularity: u32,
    tags: Vec<String>,
) -> (r: NodeDetails)
    ensures
        r.id == row.id,
        r.name@ == row.name@,
        r.host@ == row.host@,
        r.port == row.port,
        r.protocol@ == row.protocol@,
        r.version.deep_view() == empty_to_none_spec(row.version.deep_view()),
        r.description.deep_view() == empty_to_none_spec(row.description.deep_view()),
        (r.current_connections as int, r.max_connections as int) == shown_connections(
            row.current_connections,
            row.max_connections,
            public_view,
        ),
        r.is_active == (row.is_active != 0),
        r.is_approved == (row.is_approved != 0),
        r.allow_relay == (row.allow_relay != 0),
        r.network_name.deep_view() == private_field(row.network_name.deep_view(), public_view),
        r.network_secret.deep_view() == private_field(row.network_secret.deep_view(), public_view),
        r.created_at@ == row.created_at@,
        r.updated_at@ == row.updated_at@,
        r.address@ == address_spec(row.protocol@, row.host@, row.port as int),
        r.current_health_status.deep_view() == match latest {
            Some(l) => Some(l.status@),
            None => None,
        },
        r.last_check_time.deep_view() == match latest {
            Some(l) => Some(l.checked_at@),
            None => None,
        },
        r.last_response_time == match latest {
            Some(l) => l.response_time,
            None => None,
        },
        r.health_record_total_counter_ring@ == total_ring@,
        r.health_record_healthy_counter_ring@ == healthy_ring@,
        r.ring_granularity == ring_granularity,
        r.qq_number.deep_view() == private_field(row.qq_number.deep_view(), public_view),
        r.wechat.deep_view() == private_field(row.wechat.deep_view(), public_view),
        r.mail.deep_view() == private_field(row.mail.deep_view(), public_view),
        r.tags@ == tags@,
{
    let (current_connections, max_connections) = connection_figures(
        row.current_connections,
        row.max_connections,
        public_view,
    );
    let address = node_address(row.protocol.as_str(), row.host.as_str(), row.port);
    let (status, checked, response) = match latest {
        Some(l) => (Some(l.status.clone()), Some(l.checked_at.clone()), l.response_time),
        None => (None, None, None),
    };
    NodeDetails {
        id: row.id,
        name: row.name,
        host: row.host,
        port: row.port,
        protocol: row.protocol,
        version: empty_to_none(row.version),
        description: empty_to_none(row.description),
        max_connections,
        current_connections,
        is_active: row.is_active != 0,
        is_approved: row.is_approved != 0,
        allow_relay: row.allow_relay != 0,
        network_name: shown_private(row.network_name, public_view),
        network_secret: shown_private(row.network_secret, public_view),
        created_at: row.created_at,
        updated_at: row.updated_at,
        address,
        current_health_status: status,
        last_check_time: checked,
        last_response_time: response,
        health_record_total_counter_ring: total_ring,
        health_record_healthy_counter_ring: healthy_ring,
        ring_granularity,
        qq_number: shown_private(row.qq_number, public_view),
        wechat: shown_private(row.wechat, public_view),
        mail: shown_private(row.mail, public_view),
        tags,
    }
}


/// What a check contributes to health statistics: its timestamp, status and response time.
pub open spec fn healthy_sum(records: Seq<HealthRecordRow>) -> int
    decreases records.len(),
{
    if records.len() == 0 {
        0
    } else {
        healthy_sum(records.drop_last()) + if is_healthy_status(records.last().status@) {
            match records.last().response_time {
                Some(t) => t as int,
                None => 0,
            }
        } else {
            0
        }
    }
}

pub open spec fn healthy_count_spec(records: Seq<HealthRecordRow>) -> nat
    decreases records.len(),
{
    if records.len() == 0 {
        0
    } else {
        healthy_count_spec(records.drop_last()) + if is_healthy_status(records.last().status@) {
            1nat
        } else {
            0nat
        }
    }
}

/// Whether summing the response times of the healthy checks, in order, stays within `i32`.
pub open spec fn healthy_sum_fits(records: Seq<HealthRecordRow>) -> bool {
    forall|k: int|
        0 <= k <= records.len() ==> i32::MIN <= #[trigger] healthy_sum(records.subrange(0, k))
            <= i32::MAX
}

/// The integer part of a node's health statistics; the percentages and the mean response
/// time are these counts divided.
#[derive(Debug)]
pub struct HealthCounts {
    pub total_checks: u64,
    pub healthy_count: u64,
    pub unhealthy_count: u64,
    /// The sum of the response times that healthy checks recorded.
    pub healthy_response_sum: i32,
    pub last_check_time: Option<String>,
    pub last_status: Option<String>,
}

proof fn lemma_healthy_count_le(records: Seq<HealthRecordRow>)
    ensures
        healthy_count_spec(records) <= records.len(),
    decreases records.len(),
{
    if records.len() > 0 {
        lemma_healthy_count_le(records.drop_last());
    }
}

/// Counts the checks of `records` (latest first): all of them, the healthy ones, the others,
/// and the healthy checks' response times; the latest check gives the last time and status.
pub fn health_counts(records: &Vec<HealthRecordRow>) -> (r: HealthCounts)
    requires
        healthy_sum_fits(records@),
    ensures
        r.total_checks == records@.len(),
        r.healthy_count == healthy_count_spec(records@),
        r.unhealthy_count == records@.len() - healthy_count_spec(records@),
        r.healthy_count + r.unhealthy_count == r.total_checks,
        r.healthy_response_sum == healthy_sum(records@),
        r.last_check_time.deep_view() == if records@.len() > 0 {
            Some(records@[0].checked_at@)
        } else {
            None
        },
        r.last_status.deep_view() == if records@.len() > 0 {
            Some(records@[0].status@)
        } else {
            None
        },
{
    let mut healthy: u64 = 0;
    let mut sum: i32 = 0;
    let mut i: usize = 0;
    assert(records@.subrange(0, 0) =~= Seq::<HealthRecordRow>::empty());
    while i < records.len()
        invariant
            i <= records.len(),
            healthy_sum_fits(records@),
            healthy == healthy_count_spec(records@.subrange(0, i as int)),
            healthy <= i,
            sum == healthy_sum(records@.subrange(0, i as int)),
        decreases records.len() - i,
    {
        let ghost pre = records@.subrange(0, i as int);
        let ghost post = records@.subrange(0, i + 1);
        assert(post.drop_last() =~= pre);
        assert(post.last() == records@[i as int]);
        assert(i32::MIN <= healthy_sum(post) <= i32::MAX);
        if status_is_healthy(records[i].status.as_str()) {
            healthy = healthy + 1;
            if let Some(t) = records[i].response_time {
                sum = sum + t;
            }
        }
        i = i + 1;
    }
    assert(records@.subrange(0, records@.len() as int) =~= records@);
    proof {
        lemma_healthy_count_le(records@);
    }
    let total = records.len() as u64;
    let (last_time, last_status) = if records.len() > 0 {
        (Some(records[0].checked_at.clone()), Some(records[0].status.clone()))
    } else {
        (None, None)
    };
    HealthCounts {
        total_checks: total,
        healthy_count: healthy,
        unhealthy_count: total - healthy,
        healthy_response_sum: sum,
        last_check_time: last_time,
        last_status: last_status,
    }
}

/// The number of buckets of a health ring: the window over the granularity, at least one.
pub open spec fn ring_size(granularity_seconds: u32, window_hours: i64) -> int {
    let q = trunc_div(window_hours * 3600, granularity_seconds as int);
    if q < 1 {
        1
    } else {
        q
    }
}

/// The bucket a check falls in: how many whole granules before `reference` it was made;
/// none when its time is unreadable, after `reference`, or older than the window.
pub open spec fn ring_bucket(
    checked_at: Seq<char>,
    reference: int,
    granularity_seconds: int,
    size: int,
) -> Option<int> {
    match rfc3339_timestamp_spec(checked_at) {
        None => None,
        Some(t) => if reference < t {
            None
        } else if (reference - t) / granularity_seconds >= size {
            None
        } else {
            Some((reference - t) / granularity_seconds)
        },
    }
}

/// How many of `records` fall in bucket `k`, and how many of those are healthy.
pub open spec fn ring_count(
    records: Seq<HealthRecordRow>,
    k: int,
    reference: int,
    granularity_seconds: int,
    size: int,
    healthy_only: bool,
) -> nat
    decreases records.len(),
{
    if records.len() == 0 {
        0
    } else {
        let r = records.last();
        ring_count(records.drop_last(), k, reference, granularity_seconds, size, healthy_only)
            + if ring_bucket(r.checked_at@, reference, granularity_seconds, size) == Some(k) && (
        !healthy_only || is_healthy_status(r.status@)) {
            1nat
        } else {
            0nat
        }
    }
}

proof fn lemma_ring_count_bounds(
    records: Seq<HealthRecordRow>,
    k: int,
    reference: int,
    g: int,
    size: int,
)
    ensures
        ring_count(records, k, reference, g, size, true) <= ring_count(
            records,
            k,
            reference,
            g,
            size,
            false,
        ),
        ring_count(records, k, reference, g, size, false) <= records.len(),
    decreases records.len(),
{
    if records.len() > 0 {
        lemma_ring_count_bounds(records.drop_last(), k, reference, g, size);
    }
}

/// The health rings of a node: per bucket, the checks made in it and the healthy ones.
pub fn build_ring(
    records: &Vec<HealthRecordRow>,
    reference: i64,
    granularity_seconds: u32,
    window_hours: i64,
) -> (r: (Vec<u64>, Vec<u64>))
    requires
        granularity_seconds > 0,
        i64::MIN <= window_hours * 3600 <= i64::MAX,
        ring_size(granularity_seconds, window_hours) <= usize::MAX,
        -0x1000_0000_0000 < reference < 0x1000_0000_0000,
    ensures
        r.0@.len() == ring_size(granularity_seconds, window_hours),
        r.1@.len() == ring_size(granularity_seconds, window_hours),
        forall|k: int|
            0 <= k < r.0@.len() ==> #[trigger] r.0@[k] == ring_count(
                records@,
                k,
                reference as int,
                granularity_seconds as int,
                ring_size(granularity_seconds, window_hours),
                false,
            ) && r.1@[k] == ring_count(
                records@,
                k,
                reference as int,
                granularity_seconds as int,
                ring_size(granularity_seconds, window_hours),
                true,
            ) && r.1@[k] <= r.0@[k],
{
    let q = (window_hours * 3600) / (granularity_seconds as i64);
    let size: i64 = if q < 1 {
        1
    } else {
        q
    };
    let n = size as usize;
    let ghost g = granularity_seconds as int;
    let ghost sz = ring_size(granularity_seconds, window_hours);
    assert(n == sz);
    let mut total: Vec<u64> = Vec::new();
    let mut healthy: Vec<u64> = Vec::new();
    let mut z: usize = 0;
    while z < n
        invariant
            z <= n,
            total@.len() == z,
            healthy@.len() == z,
            forall|k: int| 0 <= k < z ==> total@[k] == 0 && healthy@[k] == 0,
        decreases n - z,
    {
        total.push(0);
        healthy.push(0);
        z = z + 1;
    }
    let mut i: usize = 0;
    assert(records@.subrange(0, 0) =~= Seq::<HealthRecordRow>::empty());
    while i < records.len()
        invariant
            i <= records.len(),
            n == sz,
            sz == size,
            g == granularity_seconds,
            granularity_seconds > 0,
            -0x1000_0000_0000 < reference < 0x1000_0000_0000,
            total@.len() == n,
            healthy@.len() == n,
            forall|k: int|
                0 <= k < n ==> #[trigger] total@[k] == ring_count(
                    records@.subrange(0, i as int),
                    k,
                    reference as int,
                    g,
                    sz,
                    false,
                ) && healthy@[k] == ring_count(
                    records@.subrange(0, i as int),
                    k,
                    reference as int,
                    g,
                    sz,
                    true,
                ),
        decreases records.len() - i,
    {
        let ghost pre = records@.subrange(0, i as int);
        let ghost post = records@.subrange(0, i + 1);
        assert(post.drop_last() =~= pre);
        assert(post.last() == records@[i as int]);
        let ghost old_total = total@;
        let ghost old_healthy = healthy@;
        let rec = &records[i];
        match rfc3339_timestamp(rec.checked_at.as_str()) {
            None => {},
            Some(t) => {
                if !(reference < t) {
                    let bucket = (reference - t) / (granularity_seconds as i64);
                    if bucket < size {
                        let b = bucket as usize;
                        proof {
                            lemma_ring_count_bounds(pre, b as int, reference as int, g, sz);
                            assert(pre.len() == i);
                        }
                        let cur = total[b];
                        total.set(b, cur + 1);
                        if status_is_healthy(rec.status.as_str()) {
                            let h = healthy[b];
                            healthy.set(b, h + 1);
                        }
                    }
                }
            },
        }
        proof {
            let bk = ring_bucket(records@[i as int].checked_at@, reference as int, g, sz);
            let hl = is_healthy_status(records@[i as int].status@);
            assert forall|k: int| 0 <= k < n implies #[trigger] total@[k] == ring_count(
                post,
                k,
                reference as int,
                g,
                sz,
                false,
            ) && healthy@[k] == ring_count(post, k, reference as int, g, sz, true) by {
                assert(old_total[k] == ring_count(pre, k, reference as int, g, sz, false));
                assert(ring_count(post, k, reference as int, g, sz, false) == ring_count(
                    pre,
                    k,
                    reference as int,
                    g,
                    sz,
                    false,
                ) + if bk == Some(k) {
                    1nat
                } else {
                    0nat
                });
                assert(ring_count(post, k, reference as int, g, sz, true) == ring_count(
                    pre,
                    k,
                    reference as int,
                    g,
                    sz,
                    true,
                ) + if bk == Some(k) && hl {
                    1nat
                } else {
                    0nat
                });
            };
        }
        i = i + 1;
    }
    assert(records@.subrange(0, records@.len() as int) =~= records@);
    proof {
        assert forall|k: int| 0 <= k < n implies healthy@[k] <= total@[k] by {
            lemma_ring_count_bounds(records@, k, reference as int, g, sz);
        };
    }
    (total, healthy)
}


/// The current time as RFC 3339 text in UTC, with milliseconds and a `Z`
/// (`chrono::Utc::now().to_rfc3339_opts(SecondsFormat::Millis, true)`). Nothing is stated of
/// it: it is the time.
#[verifier::external_body]
pub fn now_iso() -> (r: String) {
    chrono::Utc::now().to_rfc3339_opts(chrono::SecondsFormat::Millis, true)
}

/// The fields of a node made from a creation request and its first probe, but for its
/// timestamps: not yet stored (id 0), unapproved, without connections, version, tags or rings;
/// active when the probe found it healthy; its health is the probe's.
pub open spec fn probed_node(r: NodeDetails, request: CreateNodeRequest, probe: ProbeOutcome) -> bool {
    &&& r.id == 0
    &&& r.name@ == request.name@
    &&& r.host@ == request.host@
    &&& r.port == request.port
    &&& r.protocol@ == request.protocol@
    &&& r.version is None
    &&& r.description.deep_view() == request.description.deep_view()
    &&& r.max_connections == request.max_connections
    &&& r.current_connections == 0
    &&& r.is_active == probe.is_active
    &&& !r.is_approved
    &&& r.allow_relay == request.allow_relay
    &&& r.network_name.deep_view() == Some(request.network_name@)
    &&& r.network_secret.deep_view() == request.network_secret.deep_view()
    &&& r.address@ == address_spec(request.protocol@, request.host@, request.port as int)
    &&& r.current_health_status.deep_view() == Some(probe.status@)
    &&& r.last_response_time == probe.response_time
    &&& r.health_record_total_counter_ring@.len() == 0
    &&& r.health_record_healthy_counter_ring@.len() == 0
    &&& r.ring_granularity == 0
    &&& r.qq_number is None
    &&& r.wechat is None
    &&& r.mail.deep_view() == request.mail.deep_view()
    &&& r.tags@.len() == 0
}

impl NodeDetails {
    /// A node made from a creation request and its first probe, created at `created_at` and
    /// checked at `checked_at`.
    pub fn from_probe_at(
        request: &CreateNodeRequest,
        probe: &ProbeOutcome,
        created_at: String,
        checked_at: String,
    ) -> (r: NodeDetails)
        ensures
            probed_node(r, *request, *probe),
            r.created_at@ == created_at@,
            r.updated_at@ == created_at@,
            r.last_check_time.deep_view() == Some(checked_at@),
    {
        NodeDetails {
            id: 0,
            name: request.name.clone(),
            host: request.host.clone(),
            port: request.port,
            protocol: request.protocol.clone(),
            version: None,
            description: clone_opt_string(&request.description),
            max_connections: request.max_connections,
            current_connections: 0,
            is_active: probe.is_active,
            is_approved: false,
            allow_relay: request.allow_relay,
            network_name: Some(request.network_name.clone()),
            network_secret: clone_opt_string(&request.network_secret),
            created_at: created_at.clone(),
            updated_at: created_at,
            address: node_address(request.protocol.as_str(), request.host.as_str(), request.port),
            current_health_status: Some(probe.status.clone()),
            last_check_time: Some(checked_at),
            last_response_time: probe.response_time,
            health_record_total_counter_ring: Vec::new(),
            health_record_healthy_counter_ring: Vec::new(),
            ring_granularity: 0,
            qq_number: None,
            wechat: None,
            mail: clone_opt_string(&request.mail),
            tags: Vec::new(),
        }
    }

    /// A node made from a creation request and its first probe, stamped with the current
    /// time: its creation and update times are one reading of the clock, its check time a
    /// later one.
    pub fn from_probe(request: &CreateNodeRequest, probe: &ProbeOutcome) -> (r: NodeDetails)
        ensures
            probed_node(r, *request, *probe),
            r.updated_at@ == r.created_at@,
            r.last_check_time is Some,
    {
        let timestamp = now_iso();
        let checked = now_iso();
        Self::from_probe_at(request, probe, timestamp, checked)
    }
}

/// The message of a node that clashes with another on host, port and protocol.
pub open spec fn conflict_message() -> Seq<char> {
    "a node with the same host, port and protocol already exists"@
}

/// A new node is refused when a node with its host, port and protocol exists already.
pub fn create_conflict(exists: bool) -> (r: Result<(), AppError>)
    ensures
        exists <==> r is Err,
        r matches Err(e) ==> e@ == AppErrorView::Conflict(conflict_message()),
{
    if exists {
        Err(AppError::Conflict(String::from_str("a node with the same host, port and protocol already exists")))
    } else {
        Ok(())
    }
}

/// An update is refused when it moves the node to a host, port and protocol that another node
/// has already; an update that keeps them is never refused.
pub fn update_conflict(plan: &NodeUpdatePlan, exists: bool) -> (r: Result<(), AppError>)
    ensures
        (plan.changed_identity && exists) <==> r is Err,
        r matches Err(e) ==> e@ == AppErrorView::Conflict(conflict_message()),
{
    if plan.changed_identity {
        create_conflict(exists)
    } else {
        Ok(())
    }
}

/// The values a new node is stored with.
#[derive(Debug)]
pub struct NodeInsertValues {
    pub name: String,
    pub host: String,
    pub port: i32,
    pub protocol: String,
    pub version: Option<String>,
    pub allow_relay: bool,
    pub network_name: String,
    pub network_secret: String,
    pub description: String,
    pub max_connections: i32,
    pub current_connections: i32,
    pub is_active: bool,
    pub is_approved: bool,
    pub qq_number: String,
    pub wechat: String,
    pub mail: String,
    pub created_at: String,
    pub updated_at: String,
}

/// `o.unwrap_or_default()` on a text.
pub open spec fn text_or_empty(o: Option<Seq<char>>) -> Seq<char> {
    match o {
        Some(v) => v,
        None => Seq::empty(),
    }
}

fn string_or_empty(o: &Option<String>) -> (r: String)
    ensures
        r@ == text_or_empty(o.deep_view()),
{
    match o {
        Some(v) => v.clone(),
        None => String::new(),
    }
}

/// The values a new node is stored with, created at `timestamp`: the request's fields, absent
/// texts as empty ones, no version, no connections, neither active nor approved until checked
/// and approved, and no QQ number or WeChat id (the request carries none).
pub fn plan_node_insert(request: &CreateNodeRequest, timestamp: String) -> (r: NodeInsertValues)
    ensures
        r.name@ == request.name@,
        r.host@ == request.host@,
        r.port == request.port,
        r.protocol@ == request.protocol@,
        r.version is None,
        r.allow_relay == request.allow_relay,
        r.network_name@ == request.network_name@,
        r.network_secret@ == text_or_empty(request.network_secret.deep_view()),
        r.description@ == text_or_empty(request.description.deep_view()),
        r.max_connections == request.max_connections,
        r.current_connections == 0,
        !r.is_active,
        !r.is_approved,
        r.qq_number@ == Seq::<char>::empty(),
        r.wechat@ == Seq::<char>::empty(),
        r.mail@ == text_or_empty(request.mail.deep_view()),
        r.created_at@ == timestamp@,
        r.updated_at@ == timestamp@,
{
    NodeInsertValues {
        name: request.name.clone(),
        host: request.host.clone(),
        port: request.port,
        protocol: request.protocol.clone(),
        version: None,
        allow_relay: request.allow_relay,
        network_name: request.network_name.clone(),
        network_secret: string_or_empty(&request.network_secret),
        description: string_or_empty(&request.description),
        max_connections: request.max_connections,
        current_connections: 0,
        is_active: false,
        is_approved: false,
        qq_number: String::new(),
        wechat: String::new(),
        mail: string_or_empty(&request.mail),
        created_at: timestamp.clone(),
        updated_at: timestamp,
    }
}
} // verus!
