//! Metadata aggregator and backlink aggregator: fold the unordered stream of
//! triples describing one subject into an ordered sequence of presentation
//! rows. Predicates are grouped in first-occurrence order — an explicit
//! ordered-key list, not a language map's implicit iteration order — values
//! stay in arrival order, and a distinguished type triple marks the subject
//! as file-like. The store queries themselves are the caller's work; the
//! aggregator takes their plain results.

use vstd::prelude::*;

use crate::classify::classify;
use crate::classify::spec_category;
use crate::classify::spec_display;
use crate::classify::Category;
use crate::handler::looks_like_uri;
use crate::handler::uri_scheme;
use crate::label::friendly_label;
use crate::label::label_of;
use crate::rows::BacklinkRow;
use crate::rows::RowView;
use crate::rows::TableRow;
use crate::rows::table_view;
use crate::strutil::contains_string;
use crate::strutil::str_eq;
use crate::strutil::string_views;
use crate::vocab::file_object_id;
use crate::vocab::file_object_str;
use crate::vocab::type_predicate_id;
use crate::vocab::type_predicate_str;

verus! {

/// One fact about the inspected subject, as the store returns it. An empty
/// datatype means the value is itself a resource identifier, never a plain
/// literal.
#[derive(Clone)]
pub struct Triple {
    /// The relation linking the subject to the value.
    pub predicate: String,
    /// The object of the triple, verbatim.
    pub value: String,
    /// The value's datatype identifier; empty for resource references.
    pub datatype: String,
}

/// The mathematical shape of a triple.
pub ghost struct TripleView {
    pub predicate: Seq<char>,
    pub value: Seq<char>,
    pub datatype: Seq<char>,
}

impl View for Triple {
    type V = TripleView;

    open spec fn view(&self) -> TripleView {
        TripleView { predicate: self.predicate@, value: self.value@, datatype: self.datatype@ }
    }
}

/// The triples a vector holds, as views.
pub open spec fn triple_views(ts: Seq<Triple>) -> Seq<TripleView> {
    ts.map_values(|t: Triple| t@)
}

/// The caller's date-formatter results, as views.
pub open spec fn format_views(fs: Seq<Option<String>>) -> Seq<Option<Seq<char>>> {
    fs.map_values(|f: Option<String>| f.deep_view())
}

/// Whether the triple states that the subject is a file-like resource.
pub open spec fn is_type_marker(t: TripleView) -> bool {
    t.predicate == type_predicate_id() && t.value == file_object_id()
}

/// Whether at least one triple, wherever it stands in the stream, marks the
/// subject as file-like.
pub open spec fn spec_is_file_like(ts: Seq<TripleView>) -> bool {
    exists|i: int| 0 <= i < ts.len() && #[trigger] is_type_marker(ts[i])
}

/// The distinct predicates of the stream, in first-occurrence order.
pub open spec fn preds_in_order(ts: Seq<TripleView>) -> Seq<Seq<char>>
    decreases ts.len(),
{
    if ts.len() == 0 {
        Seq::empty()
    } else {
        let rest = preds_in_order(ts.drop_last());
        if rest.contains(ts.last().predicate) {
            rest
        } else {
            rest.push(ts.last().predicate)
        }
    }
}

/// The presentation row a triple becomes, given the caller's date-formatter
/// result for its value.
pub open spec fn spec_row_of(t: TripleView, fmt: Option<Seq<char>>) -> RowView {
    RowView {
        display_predicate: label_of(t.predicate),
        native_predicate: t.predicate,
        display_value: spec_display(t.value, t.datatype, fmt),
        native_value: t.value,
    }
}

/// The rows of one predicate block: the triples carrying that predicate, in
/// arrival order, each with the same predicate cells.
pub open spec fn rows_for_pred(
    ts: Seq<TripleView>,
    fmts: Seq<Option<Seq<char>>>,
    p: Seq<char>,
) -> Seq<RowView>
    decreases ts.len(),
{
    if ts.len() == 0 {
        Seq::empty()
    } else {
        let rest = rows_for_pred(ts.drop_last(), fmts.drop_last(), p);
        if ts.last().predicate == p {
            rest.push(spec_row_of(ts.last(), fmts.last()))
        } else {
            rest
        }
    }
}

/// The predicate blocks laid out one after the other.
pub open spec fn rows_for_preds(
    ts: Seq<TripleView>,
    fmts: Seq<Option<Seq<char>>>,
    ps: Seq<Seq<char>>,
) -> Seq<RowView>
    decreases ps.len(),
{
    if ps.len() == 0 {
        Seq::empty()
    } else {
        rows_for_preds(ts, fmts, ps.drop_last()) + rows_for_pred(ts, fmts, ps.last())
    }
}

/// The presentation category of a triple's value, decided once by the value
/// classifier and consumed by rendering.
pub open spec fn spec_category_of(t: TripleView) -> Category {
    spec_category(t.value, t.datatype)
}

/// The categories of one predicate block, aligned with its rows.
pub open spec fn cats_for_pred(ts: Seq<TripleView>, p: Seq<char>) -> Seq<Category>
    decreases ts.len(),
{
    if ts.len() == 0 {
        Seq::empty()
    } else {
        let rest = cats_for_pred(ts.drop_last(), p);
        if ts.last().predicate == p {
            rest.push(spec_category_of(ts.last()))
        } else {
            rest
        }
    }
}

/// The categories of the predicate blocks laid out one after the other.
pub open spec fn cats_for_preds(ts: Seq<TripleView>, ps: Seq<Seq<char>>) -> Seq<Category>
    decreases ps.len(),
{
    if ps.len() == 0 {
        Seq::empty()
    } else {
        cats_for_preds(ts, ps.drop_last()) + cats_for_pred(ts, ps.last())
    }
}

/// The categories of a subject view's rows: the identifier row is plain text,
/// the rest follow the classifier, block by block.
pub open spec fn spec_describe_categories(ts: Seq<TripleView>) -> Seq<Category> {
    seq![Category::Literal] + cats_for_preds(ts, preds_in_order(ts))
}

/// Each predicate block has as many categories as rows.
proof fn lemma_pred_block_lens(ts: Seq<TripleView>, fmts: Seq<Option<Seq<char>>>, p: Seq<char>)
    ensures
        rows_for_pred(ts, fmts, p).len() == cats_for_pred(ts, p).len(),
    decreases ts.len(),
{
    if ts.len() > 0 {
        lemma_pred_block_lens(ts.drop_last(), fmts.drop_last(), p);
    }
}

/// The laid-out blocks have as many categories as rows.
proof fn lemma_preds_block_lens(
    ts: Seq<TripleView>,
    fmts: Seq<Option<Seq<char>>>,
    ps: Seq<Seq<char>>,
)
    ensures
        rows_for_preds(ts, fmts, ps).len() == cats_for_preds(ts, ps).len(),
    decreases ps.len(),
{
    if ps.len() > 0 {
        lemma_preds_block_lens(ts, fmts, ps.drop_last());
        lemma_pred_block_lens(ts, fmts, ps.last());
    }
}

/// The rows of a subject view and their categories stand in one-to-one
/// correspondence.
pub proof fn lemma_rows_cats_aligned(
    subject: Seq<char>,
    ts: Seq<TripleView>,
    fmts: Seq<Option<Seq<char>>>,
)
    ensures
        spec_describe_rows(subject, ts, fmts).len() == spec_describe_categories(ts).len(),
{
    lemma_preds_block_lens(ts, fmts, preds_in_order(ts));
}

/// The synthetic first row of every subject view: predicate "Identifier" in
/// both forms, the subject itself in both value forms.
pub open spec fn identifier_row(subject: Seq<char>) -> RowView {
    RowView {
        display_predicate: "Identifier"@,
        native_predicate: "Identifier"@,
        display_value: subject,
        native_value: subject,
    }
}

/// The full row sequence of a subject view: the identifier row, then the
/// predicate blocks in first-occurrence order.
pub open spec fn spec_describe_rows(
    subject: Seq<char>,
    ts: Seq<TripleView>,
    fmts: Seq<Option<Seq<char>>>,
) -> Seq<RowView> {
    seq![identifier_row(subject)] + rows_for_preds(ts, fmts, preds_in_order(ts))
}

/// Builds the presentation rows for a subject from the triples the store
/// returned for it, with each row's presentation category, and reports
/// whether the subject is file-like. `date_displays[i]` is the outside date
/// formatter's best-effort result for `triples[i].value` (`None` when it is
/// not a date or did not parse).
pub fn describe_rows(
    subject: &str,
    triples: &Vec<Triple>,
    date_displays: &Vec<Option<String>>,
) -> (r: (bool, Vec<TableRow>, Vec<Category>))
    requires
        triples@.len() == date_displays@.len(),
    ensures
        r.0 == spec_is_file_like(triple_views(triples@)),
        table_view(r.1@) == spec_describe_rows(
            subject@,
            triple_views(triples@),
            format_views(date_displays@),
        ),
        r.2@ == spec_describe_categories(triple_views(triples@)),
{
    let ghost ts = triple_views(triples@);
    let ghost fmts = format_views(date_displays@);
    let n = triples.len();

    let mut order: Vec<String> = Vec::new();
    let mut file_like = false;
    let mut i: usize = 0;
    proof {
        assert(ts.take(0) =~= Seq::<TripleView>::empty());
        assert(string_views(order@) =~= preds_in_order(ts.take(0)));
        assert(!spec_is_file_like(ts.take(0)));
    }
    while i < n
        invariant
            i <= n,
            n == triples@.len(),
            ts == triple_views(triples@),
            string_views(order@) == preds_in_order(ts.take(i as int)),
            file_like == spec_is_file_like(ts.take(i as int)),
        decreases n - i,
    {
        let ghost pre = ts.take(i as int);
        let ghost post = ts.take(i + 1 as int);
        proof {
            assert(post.drop_last() =~= pre);
            assert(post.last() == ts[i as int]);
            assert(ts[i as int] == triples@[i as int]@);
        }
        let t = &triples[i];
        if !contains_string(&order, t.predicate.as_str()) {
            let ghost before = order@;
            order.push(t.predicate.clone());
            proof {
                assert(string_views(order@) =~= string_views(before).push(t.predicate@));
            }
        }
        if str_eq(t.predicate.as_str(), type_predicate_str()) && str_eq(
            t.value.as_str(),
            file_object_str(),
        ) {
            file_like = true;
            proof {
                assert(is_type_marker(post[i as int]));
            }
        }
        proof {
            if spec_is_file_like(post) && !spec_is_file_like(pre) {
                let w = choose|w: int| 0 <= w < post.len() && #[trigger] is_type_marker(post[w]);
                if w < i {
                    assert(is_type_marker(pre[w]));
                    assert(spec_is_file_like(pre));
                } else {
                    assert(is_type_marker(ts[i as int]));
                }
            }
            if spec_is_file_like(pre) {
                let w = choose|w: int| 0 <= w < pre.len() && #[trigger] is_type_marker(pre[w]);
                assert(is_type_marker(post[w]));
                assert(spec_is_file_like(post));
            }
        }
        i = i + 1;
    }
    proof {
        assert(ts.take(n as int) =~= ts);
    }

    let mut rows: Vec<TableRow> = Vec::new();
    rows.push(
        TableRow {
            display_predicate: "Identifier".to_owned(),
            native_predicate: "Identifier".to_owned(),
            display_value: subject.to_owned(),
            native_value: subject.to_owned(),
        },
    );
    let mut cats: Vec<Category> = Vec::new();
    cats.push(Category::Literal);
    let ghost ps = preds_in_order(ts);
    proof {
        assert(table_view(rows@) =~= seq![identifier_row(subject@)]);
        assert(ps.take(0) =~= Seq::<Seq<char>>::empty());
        assert(table_view(rows@) =~= seq![identifier_row(subject@)] + rows_for_preds(
            ts,
            fmts,
            ps.take(0),
        ));
        assert(cats@ =~= seq![Category::Literal] + cats_for_preds(ts, ps.take(0)));
    }
    let mut j: usize = 0;
    while j < order.len()
        invariant
            j <= order@.len(),
            n == triples@.len(),
            triples@.len() == date_displays@.len(),
            ts == triple_views(triples@),
            fmts == format_views(date_displays@),
            string_views(order@) == ps,
            table_view(rows@) == seq![identifier_row(subject@)] + rows_for_preds(
                ts,
                fmts,
                ps.take(j as int),
            ),
            cats@ == seq![Category::Literal] + cats_for_preds(ts, ps.take(j as int)),
        decreases order@.len() - j,
    {
        let pred = &order[j];
        proof {
            assert(pred@ == string_views(order@)[j as int]);
        }
        let mut i2: usize = 0;
        proof {
            assert(ts.take(0) =~= Seq::<TripleView>::empty());
            assert(fmts.take(0) =~= Seq::<Option<Seq<char>>>::empty());
        }
        while i2 < n
            invariant
                i2 <= n,
                j < order@.len(),
                n == triples@.len(),
                triples@.len() == date_displays@.len(),
                ts == triple_views(triples@),
                fmts == format_views(date_displays@),
                string_views(order@) == ps,
                pred@ == ps[j as int],
                table_view(rows@) == seq![identifier_row(subject@)] + rows_for_preds(
                    ts,
                    fmts,
                    ps.take(j as int),
                ) + rows_for_pred(ts.take(i2 as int), fmts.take(i2 as int), ps[j as int]),
                cats@ == seq![Category::Literal] + cats_for_preds(ts, ps.take(j as int))
                    + cats_for_pred(ts.take(i2 as int), ps[j as int]),
            decreases n - i2,
        {
            let ghost t_pre = ts.take(i2 as int);
            let ghost t_post = ts.take(i2 + 1 as int);
            let ghost f_pre = fmts.take(i2 as int);
            let ghost f_post = fmts.take(i2 + 1 as int);
            proof {
                assert(t_post.drop_last() =~= t_pre);
                assert(f_post.drop_last() =~= f_pre);
                assert(t_post.last() == ts[i2 as int]);
                assert(f_post.last() == fmts[i2 as int]);
                assert(ts[i2 as int] == triples@[i2 as int]@);
                assert(fmts[i2 as int] == date_displays@[i2 as int].deep_view());
            }
            let t = &triples[i2];
            if str_eq(t.predicate.as_str(), pred.as_str()) {
                let classified = classify(
                    t.value.as_str(),
                    t.datatype.as_str(),
                    &date_displays[i2],
                );
                let ghost rows_before = rows@;
                let ghost cats_before = cats@;
                let row = TableRow {
                    display_predicate: friendly_label(t.predicate.as_str()),
                    native_predicate: t.predicate.clone(),
                    display_value: classified.display,
                    native_value: t.value.clone(),
                };
                proof {
                    assert(row@ == spec_row_of(ts[i2 as int], fmts[i2 as int]));
                }
                rows.push(row);
                cats.push(classified.category);
                proof {
                    assert(table_view(rows@) =~= table_view(rows_before).push(
                        spec_row_of(ts[i2 as int], fmts[i2 as int]),
                    ));
                    assert(cats@ =~= cats_before.push(spec_category_of(ts[i2 as int])));
                }
            }
            i2 = i2 + 1;
        }
        proof {
            assert(ts.take(n as int) =~= ts);
            assert(fmts.take(n as int) =~= fmts);
            let taken = ps.take(j + 1 as int);
            assert(taken.drop_last() =~= ps.take(j as int));
            assert(taken.last() == ps[j as int]);
            assert(table_view(rows@) =~= seq![identifier_row(subject@)] + rows_for_preds(
                ts,
                fmts,
                taken,
            ));
            assert(cats@ =~= seq![Category::Literal] + cats_for_preds(ts, taken));
        }
        j = j + 1;
    }
    proof {
        assert(ps.take(order@.len() as int) =~= ps);
    }
    (file_like, rows, cats)
}

/// The distinguishable failures of a store operation: the service could not
/// be reached, or it was reached and the query itself failed.
pub enum StoreError {
    Connection(String),
    Query(String),
}

/// What a describe operation yields: the file-like flag, the rows, and the
/// failure if there was one. On failure no partial rows are shown.
pub struct DescribeOutcome {
    pub is_file_like: bool,
    pub rows: Vec<TableRow>,
    pub categories: Vec<Category>,
    pub error: Option<StoreError>,
}

/// Folds the result of the describe query into a presentation outcome: a
/// failure aborts with no rows and no file-like claim; a success builds the
/// full row set.
pub fn describe(
    subject: &str,
    fetched: Result<(Vec<Triple>, Vec<Option<String>>), StoreError>,
) -> (r: DescribeOutcome)
    requires
        fetched matches Ok(p) ==> p.0@.len() == p.1@.len(),
    ensures
        fetched matches Err(e) ==> r.error == Some(e) && r.is_file_like == false && r.rows@.len()
            == 0 && r.categories@.len() == 0,
        fetched matches Ok(p) ==> r.error is None && r.is_file_like == spec_is_file_like(
            triple_views(p.0@),
        ) && table_view(r.rows@) == spec_describe_rows(
            subject@,
            triple_views(p.0@),
            format_views(p.1@),
        ) && r.categories@ == spec_describe_categories(triple_views(p.0@)),
{
    match fetched {
        Err(e) => DescribeOutcome {
            is_file_like: false,
            rows: Vec::new(),
            categories: Vec::new(),
            error: Some(e),
        },
        Ok((triples, date_displays)) => {
            let (is_file_like, rows, categories) = describe_rows(subject, &triples, &date_displays);
            DescribeOutcome { is_file_like, rows, categories, error: None }
        },
    }
}

/// Builds backlink rows from the (subject, predicate) pairs the store
/// returned: one row per pair in arrival order, no grouping, the subject
/// rendered as a link exactly when it is syntactically a URI.
pub fn backlink_rows(pairs: &Vec<(String, String)>) -> (r: Vec<BacklinkRow>)
    ensures
        r@.len() == pairs@.len(),
        forall|i: int|
            0 <= i < r@.len() ==> {
                &&& (#[trigger] r@[i]).subject@ == pairs@[i].0@
                &&& r@[i].predicate@ == pairs@[i].1@
                &&& r@[i].predicate_label@ == label_of(pairs@[i].1@)
                &&& r@[i].subject_is_link == (uri_scheme(pairs@[i].0@) is Some)
            },
{
    let mut out: Vec<BacklinkRow> = Vec::new();
    let mut i: usize = 0;
    while i < pairs.len()
        invariant
            i <= pairs@.len(),
            out@.len() == i,
            forall|k: int|
                0 <= k < i ==> {
                    &&& (#[trigger] out@[k]).subject@ == pairs@[k].0@
                    &&& out@[k].predicate@ == pairs@[k].1@
                    &&& out@[k].predicate_label@ == label_of(pairs@[k].1@)
                    &&& out@[k].subject_is_link == (uri_scheme(pairs@[k].0@) is Some)
                },
        decreases pairs@.len() - i,
    {
        let pair = &pairs[i];
        out.push(
            BacklinkRow {
                subject: pair.0.clone(),
                predicate: pair.1.clone(),
                predicate_label: friendly_label(pair.1.as_str()),
                subject_is_link: looks_like_uri(pair.0.as_str()),
            },
        );
        i = i + 1;
    }
    out
}

/// The window heading for a subject: the file-like flag changes this label
/// and nothing else.
pub fn header_title(is_file_like: bool) -> (r: &'static str)
    ensures
        is_file_like ==> r@ == "File Information"@,
        !is_file_like ==> r@ == "Node Information"@,
{
    if is_file_like {
        "File Information"
    } else {
        "Node Information"
    }
}

/// Whether some triple of the stream carries the predicate.
pub open spec fn pred_occurs(ts: Seq<TripleView>, p: Seq<char>) -> bool {
    exists|i: int| 0 <= i < ts.len() && (#[trigger] ts[i]).predicate == p
}

/// The distinct values of a sequence, in first-occurrence order.
pub open spec fn first_seen(xs: Seq<Seq<char>>) -> Seq<Seq<char>>
    decreases xs.len(),
{
    if xs.len() == 0 {
        Seq::empty()
    } else {
        let rest = first_seen(xs.drop_last());
        if rest.contains(xs.last()) {
            rest
        } else {
            rest.push(xs.last())
        }
    }
}

/// The native predicate cells of a row sequence.
pub open spec fn native_preds(rows: Seq<RowView>) -> Seq<Seq<char>> {
    rows.map_values(|r: RowView| r.native_predicate)
}

/// Every row of a predicate block carries the block's predicate.
proof fn lemma_rows_for_pred_all_p(ts: Seq<TripleView>, fmts: Seq<Option<Seq<char>>>, p: Seq<char>)
    ensures
        forall|k: int|
            0 <= k < rows_for_pred(ts, fmts, p).len() ==> (#[trigger] rows_for_pred(
                ts,
                fmts,
                p,
            )[k]).native_predicate == p,
    decreases ts.len(),
{
    if ts.len() > 0 {
        lemma_rows_for_pred_all_p(ts.drop_last(), fmts.drop_last(), p);
        let rest = rows_for_pred(ts.drop_last(), fmts.drop_last(), p);
        let res = rows_for_pred(ts, fmts, p);
        if ts.last().predicate == p {
            assert(res == rest.push(spec_row_of(ts.last(), fmts.last())));
            assert forall|k: int| 0 <= k < res.len() implies (#[trigger] res[k]).native_predicate
                == p by {
                if k < rest.len() {
                    assert(res[k] == rest[k]);
                } else {
                    assert(res[k] == spec_row_of(ts.last(), fmts.last()));
                }
            }
        }
    }
}

/// A predicate that occurs in the stream has a non-empty block.
proof fn lemma_rows_for_pred_nonempty(
    ts: Seq<TripleView>,
    fmts: Seq<Option<Seq<char>>>,
    p: Seq<char>,
)
    requires
        pred_occurs(ts, p),
    ensures
        rows_for_pred(ts, fmts, p).len() > 0,
    decreases ts.len(),
{
    if ts.last().predicate != p {
        let w = choose|w: int| 0 <= w < ts.len() && (#[trigger] ts[w]).predicate == p;
        assert(ts.drop_last()[w] == ts[w]);
        assert(pred_occurs(ts.drop_last(), p));
        lemma_rows_for_pred_nonempty(ts.drop_last(), fmts.drop_last(), p);
    }
}

/// The first-occurrence order holds exactly the predicates that occur.
proof fn lemma_preds_membership(ts: Seq<TripleView>, p: Seq<char>)
    ensures
        preds_in_order(ts).contains(p) <==> pred_occurs(ts, p),
    decreases ts.len(),
{
    if ts.len() == 0 {
        assert(!preds_in_order(ts).contains(p));
        assert(!pred_occurs(ts, p));
    } else {
        let u = ts.drop_last();
        let lp = ts.last().predicate;
        let rest = preds_in_order(u);
        lemma_preds_membership(u, p);
        assert(forall|i: int| 0 <= i < u.len() ==> u[i] == ts[i]);
        if pred_occurs(u, p) {
            let w = choose|w: int| 0 <= w < u.len() && (#[trigger] u[w]).predicate == p;
            assert(ts[w].predicate == p);
            assert(pred_occurs(ts, p));
        }
        if rest.contains(lp) {
            assert(preds_in_order(ts) == rest);
            if pred_occurs(ts, p) && !pred_occurs(u, p) {
                let w = choose|w: int| 0 <= w < ts.len() && (#[trigger] ts[w]).predicate == p;
                assert(w == ts.len() - 1);
                assert(p == lp);
            }
        } else {
            let res = rest.push(lp);
            assert(preds_in_order(ts) == res);
            assert(res[res.len() - 1] == lp);
            assert(forall|k: int| 0 <= k < rest.len() ==> res[k] == rest[k]);
            if res.contains(p) {
                let k = choose|k: int| 0 <= k < res.len() && res[k] == p;
                if k < rest.len() {
                    assert(rest.contains(p));
                } else {
                    assert(p == lp);
                    assert(ts[ts.len() - 1].predicate == p);
                    assert(pred_occurs(ts, p));
                }
            }
            if pred_occurs(ts, p) {
                let w = choose|w: int| 0 <= w < ts.len() && (#[trigger] ts[w]).predicate == p;
                if w < ts.len() - 1 {
                    assert(u[w].predicate == p);
                    assert(pred_occurs(u, p));
                    let k = choose|k: int| 0 <= k < rest.len() && rest[k] == p;
                    assert(res[k] == p);
                    assert(res.contains(p));
                } else {
                    assert(p == lp);
                    assert(res.contains(p));
                }
            }
            if rest.contains(p) {
                let k = choose|k: int| 0 <= k < rest.len() && rest[k] == p;
                assert(res[k] == p);
                assert(res.contains(p));
            }
        }
    }
}

/// The first-occurrence order holds no predicate twice.
proof fn lemma_preds_distinct(ts: Seq<TripleView>)
    ensures
        forall|k1: int, k2: int|
            0 <= k1 < k2 < preds_in_order(ts).len() ==> preds_in_order(ts)[k1] != preds_in_order(
                ts,
            )[k2],
    decreases ts.len(),
{
    if ts.len() > 0 {
        let u = ts.drop_last();
        let lp = ts.last().predicate;
        let rest = preds_in_order(u);
        lemma_preds_distinct(u);
        if !rest.contains(lp) {
            let res = rest.push(lp);
            assert forall|k1: int, k2: int| 0 <= k1 < k2 < res.len() implies res[k1]
                != res[k2] by {
                if k2 == res.len() - 1 {
                    if res[k1] == lp {
                        assert(rest[k1] == lp);
                        assert(rest.contains(lp));
                    }
                } else {
                    assert(res[k1] == rest[k1] && res[k2] == rest[k2]);
                }
            }
        }
    }
}

/// Appending a non-empty run of one value to a sequence either leaves the
/// first-seen order unchanged or appends that one value at its end.
proof fn lemma_first_seen_const_block(xs: Seq<Seq<char>>, ys: Seq<Seq<char>>, p: Seq<char>)
    requires
        ys.len() > 0,
        forall|k: int| 0 <= k < ys.len() ==> ys[k] == p,
    ensures
        first_seen(xs + ys) == (if first_seen(xs).contains(p) {
            first_seen(xs)
        } else {
            first_seen(xs).push(p)
        }),
    decreases ys.len(),
{
    if ys.len() == 1 {
        assert((xs + ys).drop_last() =~= xs);
        assert((xs + ys).last() == p);
    } else {
        assert((xs + ys).drop_last() =~= xs + ys.drop_last());
        lemma_first_seen_const_block(xs, ys.drop_last(), p);
        assert((xs + ys).last() == p);
        if !first_seen(xs).contains(p) {
            let f = first_seen(xs).push(p);
            assert(f[f.len() - 1] == p);
            assert(f.contains(p));
        }
    }
}

/// Laying out the blocks of distinct, occurring predicates yields rows whose
/// first-seen native predicates are exactly those predicates, in order.
proof fn lemma_first_seen_blocks(
    ts: Seq<TripleView>,
    fmts: Seq<Option<Seq<char>>>,
    ps: Seq<Seq<char>>,
)
    requires
        forall|k1: int, k2: int| 0 <= k1 < k2 < ps.len() ==> ps[k1] != ps[k2],
        forall|k: int| 0 <= k < ps.len() ==> pred_occurs(ts, #[trigger] ps[k]),
    ensures
        first_seen(native_preds(rows_for_preds(ts, fmts, ps))) == ps,
    decreases ps.len(),
{
    if ps.len() == 0 {
        assert(native_preds(rows_for_preds(ts, fmts, ps)) =~= Seq::<Seq<char>>::empty());
        assert(first_seen(Seq::<Seq<char>>::empty()) =~= ps);
    } else {
        let ps0 = ps.drop_last();
        let p = ps.last();
        lemma_first_seen_blocks(ts, fmts, ps0);
        let blocks0 = rows_for_preds(ts, fmts, ps0);
        let seg = rows_for_pred(ts, fmts, p);
        assert(rows_for_preds(ts, fmts, ps) == blocks0 + seg);
        assert(native_preds(blocks0 + seg) =~= native_preds(blocks0) + native_preds(seg));
        lemma_rows_for_pred_all_p(ts, fmts, p);
        assert(pred_occurs(ts, ps[ps.len() - 1]));
        lemma_rows_for_pred_nonempty(ts, fmts, p);
        assert(forall|k: int|
            0 <= k < native_preds(seg).len() ==> native_preds(seg)[k] == p);
        lemma_first_seen_const_block(native_preds(blocks0), native_preds(seg), p);
        if ps0.contains(p) {
            let k = choose|k: int| 0 <= k < ps0.len() && ps0[k] == p;
            assert(ps[k] == ps[ps.len() - 1]);
            assert(false);
        }
        assert(ps0.push(p) =~= ps);
    }
}

/// Aggregation ordering: for a fixed input triple stream, the predicate
/// blocks of the output stand in first-occurrence order of the input's
/// predicates, however many values each predicate has. The block order is
/// read off the rows after the identifier row as the first-seen order of
/// their native predicate cells.
pub proof fn lemma_block_order(
    subject: Seq<char>,
    ts: Seq<TripleView>,
    fmts: Seq<Option<Seq<char>>>,
)
    ensures
        first_seen(native_preds(spec_describe_rows(subject, ts, fmts).skip(1)))
            == preds_in_order(ts),
{
    let ps = preds_in_order(ts);
    lemma_preds_distinct(ts);
    assert forall|k: int| 0 <= k < ps.len() implies pred_occurs(ts, #[trigger] ps[k]) by {
        lemma_preds_membership(ts, ps[k]);
        assert(ps.contains(ps[k]));
    }
    lemma_first_seen_blocks(ts, fmts, ps);
    assert(spec_describe_rows(subject, ts, fmts).skip(1) =~= rows_for_preds(ts, fmts, ps));
}

/// A subject with no triples yields exactly one row — the identifier row —
/// and is not file-like.
pub proof fn lemma_empty_subject(subject: Seq<char>, fmts: Seq<Option<Seq<char>>>)
    ensures
        spec_describe_rows(subject, Seq::empty(), fmts) == seq![identifier_row(subject)],
        !spec_is_file_like(Seq::<TripleView>::empty()),
{
    assert(preds_in_order(Seq::<TripleView>::empty()) =~= Seq::<Seq<char>>::empty());
    assert(spec_describe_rows(subject, Seq::empty(), fmts) =~= seq![identifier_row(subject)]);
}

/// The file-like flag is set iff at least one triple joins the type predicate
/// to the file-object type, wherever in the stream that triple stands.
pub proof fn lemma_file_like_iff(ts: Seq<TripleView>)
    ensures
        spec_is_file_like(ts) <==> exists|i: int|
            0 <= i < ts.len() && (#[trigger] ts[i]).predicate == type_predicate_id()
                && ts[i].value == file_object_id(),
{
    if spec_is_file_like(ts) {
        let w = choose|w: int| 0 <= w < ts.len() && #[trigger] is_type_marker(ts[w]);
        assert(ts[w].predicate == type_predicate_id() && ts[w].value == file_object_id());
    }
    if exists|i: int|
        0 <= i < ts.len() && (#[trigger] ts[i]).predicate == type_predicate_id() && ts[i].value
            == file_object_id() {
        let w = choose|w: int|
            0 <= w < ts.len() && (#[trigger] ts[w]).predicate == type_predicate_id()
                && ts[w].value == file_object_id();
        assert(is_type_marker(ts[w]));
    }
}

} // verus!
