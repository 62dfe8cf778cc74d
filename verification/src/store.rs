use vstd::prelude::*;

use crate::errors::{AppError, Field};
use crate::frontmatter::{
    extract_frontmatter_from_content_file, extract_spec, fm_wf, Frontmatter, FrontmatterView,
};
use crate::time::{opt_ts_in_range_exec, ts_in_range, ts_in_range_exec};
use vstd::multiset::Multiset;

verus! {

/// One raw content unit: a locator and the full original text.
pub struct ContentItem {
    pub path: String,
    pub content: String,
}

pub struct ContentItemView {
    pub path: Seq<char>,
    pub content: Seq<char>,
}

impl View for ContentItem {
    type V = ContentItemView;

    open spec fn view(&self) -> ContentItemView {
        ContentItemView { path: self.path@, content: self.content@ }
    }
}

/// A published content item: its frontmatter, its locator, and the
/// effective publish timestamp used as the sort key.
#[derive(Debug, Clone)]
pub struct PublishedPage {
    pub published_at: i64,
    pub path: String,
    pub frontmatter: Frontmatter,
}

pub struct PublishedPageView {
    pub published_at: int,
    pub path: Seq<char>,
    pub frontmatter: FrontmatterView,
}

impl View for PublishedPage {
    type V = PublishedPageView;

    open spec fn view(&self) -> PublishedPageView {
        PublishedPageView {
            published_at: self.published_at as int,
            path: self.path@,
            frontmatter: self.frontmatter@,
        }
    }
}

pub open spec fn items_view(s: Seq<ContentItem>) -> Seq<ContentItemView> {
    s.map_values(|it: ContentItem| it@)
}

pub open spec fn pages_view(s: Seq<PublishedPage>) -> Seq<PublishedPageView> {
    s.map_values(|p: PublishedPage| p@)
}

/// Whether extraction succeeds on the item and marks it published.
pub open spec fn item_published(it: ContentItemView) -> bool {
    extract_spec(it.content) is Ok && extract_spec(it.content)->Ok_0.published_at is Some
}

/// The page a published item contributes to the index.
pub open spec fn page_of_item(it: ContentItemView) -> PublishedPageView {
    let fm = extract_spec(it.content)->Ok_0;
    PublishedPageView { published_at: fm.published_at->0, path: it.path, frontmatter: fm }
}

/// The pages of the published items, in enumeration order; drafts are
/// skipped silently.
pub open spec fn published_views(items: Seq<ContentItemView>) -> Seq<PublishedPageView>
    decreases items.len(),
{
    if items.len() == 0 {
        Seq::empty()
    } else {
        let rest = published_views(items.drop_first());
        if item_published(items[0]) {
            seq![page_of_item(items[0])] + rest
        } else {
            rest
        }
    }
}

/// The field error of the first item whose extraction fails, if any; the
/// build is fail-fast on exactly this item.
pub open spec fn first_failure(items: Seq<ContentItemView>) -> Option<Field>
    decreases items.len(),
{
    if items.len() == 0 {
        None
    } else if extract_spec(items[0].content) is Err {
        Some(extract_spec(items[0].content)->Err_0)
    } else {
        first_failure(items.drop_first())
    }
}

/// Insertion into a descending sequence: the new page goes after every
/// page published at least as recently, which keeps the sort stable.
pub open spec fn insert_desc(s: Seq<PublishedPageView>, x: PublishedPageView) -> Seq<
    PublishedPageView,
>
    decreases s.len(),
{
    if s.len() > 0 && s[0].published_at >= x.published_at {
        seq![s[0]] + insert_desc(s.drop_first(), x)
    } else {
        seq![x] + s
    }
}

/// The stable sort of a page sequence by effective timestamp descending,
/// one insertion at a time.
pub open spec fn sort_desc(s: Seq<PublishedPageView>) -> Seq<PublishedPageView>
    decreases s.len(),
{
    if s.len() == 0 {
        Seq::empty()
    } else {
        insert_desc(sort_desc(s.drop_last()), s.last())
    }
}

pub open spec fn sorted_desc(s: Seq<PublishedPageView>) -> bool {
    forall|i: int, j: int| 0 <= i < j < s.len() ==> s[i].published_at >= s[j].published_at
}

/// Every timestamp the page carries is in formatting range.
pub open spec fn page_wf(p: PublishedPageView) -> bool {
    ts_in_range(p.published_at) && fm_wf(p.frontmatter)
}

pub open spec fn pages_wf(s: Seq<PublishedPageView>) -> bool {
    forall|i: int| 0 <= i < s.len() ==> page_wf(#[trigger] s[i])
}

/// Where the insertion lands: the index of the first page published less
/// recently than `x`, or the length if there is none.
pub open spec fn insert_point(s: Seq<PublishedPageView>, x: PublishedPageView) -> int
    decreases s.len(),
{
    if s.len() > 0 && s[0].published_at >= x.published_at {
        1 + insert_point(s.drop_first(), x)
    } else {
        0
    }
}

pub proof fn lemma_insert_point_bounds(s: Seq<PublishedPageView>, x: PublishedPageView)
    ensures
        0 <= insert_point(s, x) <= s.len(),
        forall|j: int| 0 <= j < insert_point(s, x) ==> s[j].published_at >= x.published_at,
        insert_point(s, x) < s.len() ==> s[insert_point(s, x)].published_at < x.published_at,
    decreases s.len(),
{
    if s.len() > 0 && s[0].published_at >= x.published_at {
        lemma_insert_point_bounds(s.drop_first(), x);
        assert forall|j: int| 0 <= j < insert_point(s, x) implies s[j].published_at
            >= x.published_at by {
            if j > 0 {
                assert(s.drop_first()[j - 1].published_at >= x.published_at);
            }
        }
    }
}

pub proof fn lemma_insert_point_is(s: Seq<PublishedPageView>, x: PublishedPageView, k: int)
    requires
        0 <= k <= s.len(),
        forall|j: int| 0 <= j < k ==> s[j].published_at >= x.published_at,
        k < s.len() ==> s[k].published_at < x.published_at,
    ensures
        insert_point(s, x) == k,
    decreases k,
{
    if k == 0 {
        if s.len() > 0 && s[0].published_at >= x.published_at {
            assert(s[0].published_at < x.published_at);
        }
    } else {
        assert(s[0].published_at >= x.published_at);
        lemma_insert_point_is(s.drop_first(), x, k - 1);
    }
}

/// `insert_desc` places `x` exactly at its insertion point.
pub proof fn lemma_insert_desc_split(s: Seq<PublishedPageView>, x: PublishedPageView)
    ensures
        insert_desc(s, x) == s.take(insert_point(s, x)) + seq![x] + s.skip(insert_point(s, x)),
    decreases s.len(),
{
    lemma_insert_point_bounds(s, x);
    let p = insert_point(s, x);
    if s.len() > 0 && s[0].published_at >= x.published_at {
        lemma_insert_desc_split(s.drop_first(), x);
        let q = insert_point(s.drop_first(), x);
        assert(p == q + 1);
        assert(s.drop_first().take(q) =~= s.take(p).drop_first());
        assert(s.drop_first().skip(q) =~= s.skip(p));
        assert(insert_desc(s, x) =~= s.take(p) + seq![x] + s.skip(p));
    } else {
        assert(s.take(0) =~= Seq::<PublishedPageView>::empty());
        assert(s.skip(0) =~= s);
        assert(insert_desc(s, x) =~= s.take(0) + seq![x] + s.skip(0));
    }
}

/// The characteristic facts of the stable descending sort: it keeps the
/// length, keeps the multiset of pages, returns only pages of the input,
/// and is sorted by effective timestamp descending.
pub proof fn lemma_sort_desc_props(s: Seq<PublishedPageView>)
    ensures
        sort_desc(s).len() == s.len(),
        sorted_desc(sort_desc(s)),
        sort_desc(s).to_multiset() == s.to_multiset(),
        forall|k: int|
            0 <= k < sort_desc(s).len() ==> exists|m: int|
                0 <= m < s.len() && s[m] == #[trigger] sort_desc(s)[k],
    decreases s.len(),
{
    broadcast use vstd::seq_lib::lemma_multiset_commutative;
    broadcast use vstd::multiset::group_multiset_axioms;

    if s.len() == 0 {
        assert(s =~= Seq::<PublishedPageView>::empty());
        assert(sort_desc(s) == Seq::<PublishedPageView>::empty());
    } else {
        let t = sort_desc(s.drop_last());
        let x = s.last();
        lemma_sort_desc_props(s.drop_last());
        lemma_insert_point_bounds(t, x);
        lemma_insert_desc_split(t, x);
        let p = insert_point(t, x);
        let r = insert_desc(t, x);
        assert(r.len() == t.len() + 1);

        assert forall|i: int, j: int| 0 <= i < j < r.len() implies r[i].published_at
            >= r[j].published_at by {
            assert(forall|k: int| 0 <= k < p ==> r[k] == t[k]);
            assert(r[p] == x);
            assert(forall|k: int| p < k < r.len() ==> r[k] == t[k - 1]);
            if i < p && j == p {
                assert(t[i].published_at >= x.published_at);
            } else if i == p && j > p {
                assert(t[j - 1].published_at <= t[p].published_at);
            }
        }

        assert(t.take(p) + t.skip(p) =~= t);
        assert(r.to_multiset() =~= t.to_multiset().insert(x)) by {
            assert(r == t.take(p) + seq![x] + t.skip(p));
            assert((t.take(p) + seq![x] + t.skip(p)).to_multiset() == (t.take(p)
                + seq![x]).to_multiset().add(t.skip(p).to_multiset()));
            assert((t.take(p) + seq![x]).to_multiset() == t.take(p).to_multiset().add(
                seq![x].to_multiset(),
            ));
            assert(seq![x] =~= Seq::<PublishedPageView>::empty().push(x));
            Seq::<PublishedPageView>::empty().to_multiset_ensures();
            assert(seq![x].to_multiset() =~= Multiset::<PublishedPageView>::empty().insert(x));
            assert((t.take(p) + t.skip(p)).to_multiset() == t.take(p).to_multiset().add(
                t.skip(p).to_multiset(),
            ));
        }
        assert(s.drop_last().push(x) =~= s);
        s.drop_last().to_multiset_ensures();
        assert(s.to_multiset() =~= s.drop_last().to_multiset().insert(x));
        assert(sort_desc(s).to_multiset() =~= s.to_multiset());

        assert forall|k: int| 0 <= k < r.len() implies exists|m: int|
            0 <= m < s.len() && s[m] == #[trigger] r[k] by {
            if k == p {
                assert(s[s.len() - 1] == r[k]);
            } else {
                let ki = if k < p {
                    k
                } else {
                    k - 1
                };
                assert(r[k] == t[ki]);
                let m = choose|m: int| 0 <= m < s.drop_last().len() && s.drop_last()[m] == t[ki];
                assert(s[m] == r[k]);
            }
        }
    }
}

proof fn lemma_filter_none(q: Seq<PublishedPageView>, pred: spec_fn(PublishedPageView) -> bool)
    requires
        forall|i: int| 0 <= i < q.len() ==> !pred(#[trigger] q[i]),
    ensures
        q.filter(pred) == Seq::<PublishedPageView>::empty(),
    decreases q.len(),
{
    reveal(Seq::filter);
    if q.len() > 0 {
        assert(!pred(q.last()));
        assert forall|i: int| 0 <= i < q.drop_last().len() implies !pred(
            #[trigger] q.drop_last()[i],
        ) by {
            assert(q.drop_last()[i] == q[i]);
        }
        lemma_filter_none(q.drop_last(), pred);
    }
}

/// Stability of the descending sort: for every effective timestamp, the
/// pages carrying it leave the sort in exactly the order they entered it.
pub proof fn lemma_sort_desc_stable(s: Seq<PublishedPageView>, t: int)
    ensures
        sort_desc(s).filter(|p: PublishedPageView| p.published_at == t) == s.filter(
            |p: PublishedPageView| p.published_at == t,
        ),
    decreases s.len(),
{
    reveal(Seq::filter);
    let pred = |p: PublishedPageView| p.published_at == t;
    if s.len() == 0 {
        assert(s =~= Seq::<PublishedPageView>::empty());
        assert(sort_desc(s) == Seq::<PublishedPageView>::empty());
    } else {
        let u = s.drop_last();
        let x = s.last();
        lemma_sort_desc_stable(u, t);
        lemma_sort_desc_props(u);
        let ts = sort_desc(u);
        lemma_insert_point_bounds(ts, x);
        lemma_insert_desc_split(ts, x);
        let p = insert_point(ts, x);
        let front = ts.take(p);
        let back = ts.skip(p);
        assert(sort_desc(s) == front + seq![x] + back);
        Seq::<PublishedPageView>::filter_distributes_over_add(front + seq![x], back, pred);
        Seq::<PublishedPageView>::filter_distributes_over_add(front, seq![x], pred);
        Seq::<PublishedPageView>::filter_distributes_over_add(front, back, pred);
        assert(front + back =~= ts);
        assert(seq![x].drop_last() =~= Seq::<PublishedPageView>::empty());
        assert(seq![x].last() == x);
        if pred(x) {
            assert(seq![x].filter(pred) =~= seq![x]);
            // Everything after the insertion point was published strictly
            // earlier than x, so no page there carries timestamp t.
            assert forall|i: int| 0 <= i < back.len() implies !pred(#[trigger] back[i]) by {
                assert(back[i] == ts[p + i]);
                if p < ts.len() && p + i > p {
                    assert(ts[p].published_at >= ts[p + i].published_at);
                }
                assert(ts[p + i].published_at < x.published_at);
            }
            lemma_filter_none(back, pred);
            assert(sort_desc(s).filter(pred) =~= front.filter(pred) + seq![x]);
            assert(ts.filter(pred) =~= front.filter(pred));
            assert(s.filter(pred) == u.filter(pred).push(x));
            assert(sort_desc(s).filter(pred) =~= s.filter(pred));
        } else {
            assert(Seq::<PublishedPageView>::empty().filter(pred)
                == Seq::<PublishedPageView>::empty());
            assert(seq![x].filter(pred) == seq![x].drop_last().filter(pred));
            assert(seq![x].filter(pred) =~= Seq::<PublishedPageView>::empty());
            assert(sort_desc(s).filter(pred) =~= front.filter(pred) + back.filter(pred));
            assert(ts.filter(pred) =~= front.filter(pred) + back.filter(pred));
            assert(s.filter(pred) == u.filter(pred));
            assert(sort_desc(s).filter(pred) =~= s.filter(pred));
        }
    }
}

pub proof fn lemma_published_views_push(items: Seq<ContentItemView>, it: ContentItemView)
    ensures
        published_views(items.push(it)) == if item_published(it) {
            published_views(items).push(page_of_item(it))
        } else {
            published_views(items)
        },
    decreases items.len(),
{
    if items.len() == 0 {
        assert(items.push(it).len() == 1);
        assert(items.push(it)[0] == it);
        assert(items.push(it).drop_first() =~= Seq::<ContentItemView>::empty());
        assert(published_views(items.push(it).drop_first()) == Seq::<PublishedPageView>::empty());
        assert(items =~= Seq::<ContentItemView>::empty());
        assert(published_views(items) == Seq::<PublishedPageView>::empty());
        if item_published(it) {
            assert(published_views(items.push(it)) == seq![page_of_item(it)] + Seq::<
                PublishedPageView,
            >::empty());
            assert(published_views(items.push(it)) =~= published_views(items).push(
                page_of_item(it),
            ));
        }
    } else {
        lemma_published_views_push(items.drop_first(), it);
        assert(items.push(it).drop_first() =~= items.drop_first().push(it));
        assert(items.push(it)[0] == items[0]);
        if item_published(it) {
            assert(published_views(items.push(it)) =~= published_views(items).push(
                page_of_item(it),
            ));
        } else {
            assert(published_views(items.push(it)) =~= published_views(items));
        }
    }
}

pub proof fn lemma_first_failure_none(items: Seq<ContentItemView>)
    requires
        forall|j: int| 0 <= j < items.len() ==> extract_spec(#[trigger] items[j].content) is Ok,
    ensures
        first_failure(items) is None,
    decreases items.len(),
{
    if items.len() > 0 {
        assert(extract_spec(items[0].content) is Ok);
        assert forall|j: int| 0 <= j < items.drop_first().len() implies extract_spec(
            #[trigger] items.drop_first()[j].content,
        ) is Ok by {
            assert(items.drop_first()[j] == items[j + 1]);
        }
        lemma_first_failure_none(items.drop_first());
    }
}

pub proof fn lemma_first_failure_at(items: Seq<ContentItemView>, i: int)
    requires
        0 <= i < items.len(),
        forall|j: int| 0 <= j < i ==> extract_spec(#[trigger] items[j].content) is Ok,
        extract_spec(items[i].content) is Err,
    ensures
        first_failure(items) == Some(extract_spec(items[i].content)->Err_0),
    decreases i,
{
    if i == 0 {
    } else {
        assert(extract_spec(items[0].content) is Ok);
        assert forall|j: int| 0 <= j < i - 1 implies extract_spec(
            #[trigger] items.drop_first()[j].content,
        ) is Ok by {
            assert(items.drop_first()[j] == items[j + 1]);
        }
        assert(items.drop_first()[i - 1] == items[i]);
        lemma_first_failure_at(items.drop_first(), i - 1);
    }
}

proof fn lemma_singleton_count(p: PublishedPageView, x: PublishedPageView)
    ensures
        seq![p].to_multiset().count(x) == if p == x {
            1nat
        } else {
            0nat
        },
{
    broadcast use vstd::multiset::group_multiset_axioms;

    assert(seq![p] =~= Seq::<PublishedPageView>::empty().push(p));
    Seq::<PublishedPageView>::empty().to_multiset_ensures();
    assert(seq![p].to_multiset() =~= Multiset::<PublishedPageView>::empty().insert(p));
}

proof fn lemma_published_views_count_zero(items: Seq<ContentItemView>, x: PublishedPageView)
    requires
        forall|j: int|
            0 <= j < items.len() && item_published(#[trigger] items[j]) ==> page_of_item(items[j])
                != x,
    ensures
        published_views(items).to_multiset().count(x) == 0,
    decreases items.len(),
{
    broadcast use vstd::multiset::group_multiset_axioms;
    broadcast use vstd::seq_lib::lemma_multiset_commutative;

    if items.len() == 0 {
        assert(published_views(items) =~= Seq::<PublishedPageView>::empty());
        Seq::<PublishedPageView>::empty().to_multiset_ensures();
    } else {
        assert forall|j: int|
            0 <= j < items.drop_first().len() && item_published(
                #[trigger] items.drop_first()[j],
            ) implies page_of_item(items.drop_first()[j]) != x by {
            assert(items.drop_first()[j] == items[j + 1]);
        }
        lemma_published_views_count_zero(items.drop_first(), x);
        if item_published(items[0]) {
            assert(page_of_item(items[0]) != x);
            lemma_singleton_count(page_of_item(items[0]), x);
            assert(published_views(items).to_multiset() == seq![
                page_of_item(items[0]),
            ].to_multiset().add(published_views(items.drop_first()).to_multiset()));
        }
    }
}

proof fn lemma_published_views_count_unique(items: Seq<ContentItemView>, i: int)
    requires
        0 <= i < items.len(),
        item_published(items[i]),
        forall|j: int|
            0 <= j < items.len() && j != i && item_published(#[trigger] items[j])
                ==> page_of_item(items[j]) != page_of_item(items[i]),
    ensures
        published_views(items).to_multiset().count(page_of_item(items[i])) == 1,
    decreases items.len(),
{
    broadcast use vstd::multiset::group_multiset_axioms;
    broadcast use vstd::seq_lib::lemma_multiset_commutative;

    let x = page_of_item(items[i]);
    if i == 0 {
        assert forall|j: int|
            0 <= j < items.drop_first().len() && item_published(
                #[trigger] items.drop_first()[j],
            ) implies page_of_item(items.drop_first()[j]) != x by {
            assert(items.drop_first()[j] == items[j + 1]);
        }
        lemma_published_views_count_zero(items.drop_first(), x);
        lemma_singleton_count(x, x);
        assert(published_views(items).to_multiset() == seq![x].to_multiset().add(
            published_views(items.drop_first()).to_multiset(),
        ));
    } else {
        assert(items.drop_first()[i - 1] == items[i]);
        assert forall|j: int|
            0 <= j < items.drop_first().len() && j != i - 1 && item_published(
                #[trigger] items.drop_first()[j],
            ) implies page_of_item(items.drop_first()[j]) != page_of_item(
            items.drop_first()[i - 1],
        ) by {
            assert(items.drop_first()[j] == items[j + 1]);
        }
        lemma_published_views_count_unique(items.drop_first(), i - 1);
        if item_published(items[0]) {
            assert(page_of_item(items[0]) != x);
            lemma_singleton_count(page_of_item(items[0]), x);
            assert(published_views(items).to_multiset() == seq![
                page_of_item(items[0]),
            ].to_multiset().add(published_views(items.drop_first()).to_multiset()));
        }
    }
}

proof fn lemma_published_views_provenance(items: Seq<ContentItemView>)
    ensures
        forall|k: int|
            0 <= k < published_views(items).len() ==> exists|j: int|
                0 <= j < items.len() && item_published(items[j]) && page_of_item(items[j])
                    == #[trigger] published_views(items)[k],
    decreases items.len(),
{
    if items.len() > 0 {
        lemma_published_views_provenance(items.drop_first());
        assert forall|k: int| 0 <= k < published_views(items).len() implies exists|j: int|
            0 <= j < items.len() && item_published(items[j]) && page_of_item(items[j])
                == #[trigger] published_views(items)[k] by {
            let pv = published_views(items);
            let rest = published_views(items.drop_first());
            if item_published(items[0]) && k == 0 {
                assert(item_published(items[0]) && page_of_item(items[0]) == pv[0]);
            } else {
                let kr = if item_published(items[0]) {
                    k - 1
                } else {
                    k
                };
                assert(pv[k] == rest[kr]);
                let j = choose|j: int|
                    0 <= j < items.drop_first().len() && item_published(items.drop_first()[j])
                        && page_of_item(items.drop_first()[j]) == rest[kr];
                assert(items.drop_first()[j] == items[j + 1]);
                assert(item_published(items[j + 1]) && page_of_item(items[j + 1]) == pv[k]);
            }
        }
    }
}

/// A content item with a well-formed frontmatter block and a parseable
/// `published_at` appears exactly once in the built index, provided no
/// other item yields the very same page.
pub proof fn lemma_published_item_indexed_once(items: Seq<ContentItemView>, i: int)
    requires
        0 <= i < items.len(),
        item_published(items[i]),
        forall|j: int|
            0 <= j < items.len() && j != i && item_published(#[trigger] items[j])
                ==> page_of_item(items[j]) != page_of_item(items[i]),
    ensures
        sort_desc(published_views(items)).to_multiset().count(page_of_item(items[i])) == 1,
{
    lemma_sort_desc_props(published_views(items));
    lemma_published_views_count_unique(items, i);
}

/// A content item without `published_at` never appears in the built
/// index: no indexed page carries its locator, provided no other item
/// shares that locator.
pub proof fn lemma_draft_never_indexed(items: Seq<ContentItemView>, i: int)
    requires
        0 <= i < items.len(),
        !item_published(items[i]),
        forall|j: int|
            0 <= j < items.len() && j != i ==> (#[trigger] items[j]).path != items[i].path,
    ensures
        forall|k: int|
            0 <= k < sort_desc(published_views(items)).len() ==> (#[trigger] sort_desc(
                published_views(items),
            )[k]).path != items[i].path,
{
    lemma_sort_desc_props(published_views(items));
    lemma_published_views_provenance(items);
    let pv = published_views(items);
    assert forall|k: int| 0 <= k < sort_desc(pv).len() implies (#[trigger] sort_desc(
        pv,
    )[k]).path != items[i].path by {
        let m = choose|m: int| 0 <= m < pv.len() && pv[m] == sort_desc(pv)[k];
        let j = choose|j: int|
            0 <= j < items.len() && item_published(items[j]) && page_of_item(items[j]) == pv[m];
        assert(j != i);
        assert(page_of_item(items[j]).path == items[j].path);
    }
}

/// Descending-order invariant: of two indexed pages, the one with the
/// later effective timestamp stands strictly earlier in the index.
pub proof fn lemma_index_descending(items: Seq<ContentItemView>, i: int, j: int)
    requires
        0 <= i < sort_desc(published_views(items)).len(),
        0 <= j < sort_desc(published_views(items)).len(),
        sort_desc(published_views(items))[i].published_at > sort_desc(
            published_views(items),
        )[j].published_at,
    ensures
        i < j,
{
    lemma_sort_desc_props(published_views(items));
}

/// Inserts one page into a sequence kept sorted descending.
fn insert_sorted(pages: &mut Vec<PublishedPage>, page: PublishedPage)
    ensures
        pages_view(final(pages)@) == insert_desc(pages_view(old(pages)@), page@),
{
    let mut idx: usize = 0;
    while idx < pages.len() && pages[idx].published_at >= page.published_at
        invariant
            0 <= idx <= pages@.len(),
            pages@ == old(pages)@,
            forall|j: int|
                0 <= j < idx ==> pages_view(pages@)[j].published_at >= page@.published_at,
        decreases pages@.len() - idx,
    {
        proof {
            assert(pages_view(pages@)[idx as int] == pages@[idx as int]@);
        }
        idx += 1;
    }
    proof {
        if (idx as int) < pages@.len() {
            assert(pages_view(pages@)[idx as int] == pages@[idx as int]@);
        }
    }
    let ghost old_view = pages_view(pages@);
    pages.insert(idx, page);
    proof {
        lemma_insert_point_is(old_view, page@, idx as int);
        lemma_insert_desc_split(old_view, page@);
        assert(pages@ =~= old(pages)@.take(idx as int) + seq![page] + old(pages)@.skip(idx as int));
        assert(pages_view(pages@) =~= old_view.take(idx as int) + seq![page@] + old_view.skip(
            idx as int,
        ));
    }
}

/// One full index-builder pass: every item is extracted, drafts are
/// skipped, any failure aborts the build, and the pages come back sorted
/// by effective timestamp descending.
pub fn published_pages(items: &Vec<ContentItem>) -> (r: Result<Vec<PublishedPage>, AppError>)
    ensures
        match r {
            Ok(pages) => first_failure(items_view(items@)) is None && pages_view(pages@)
                == sort_desc(published_views(items_view(items@))) && sorted_desc(pages_view(pages@))
                && pages_wf(pages_view(pages@)),
            Err(e) => first_failure(items_view(items@)) is Some && e == AppError::MissingField(
                first_failure(items_view(items@))->0,
            ),
        },
{
    let ghost iv = items_view(items@);
    let mut pages: Vec<PublishedPage> = Vec::new();
    let mut i: usize = 0;
    proof {
        assert(iv.take(0) =~= Seq::<ContentItemView>::empty());
        assert(pages_view(pages@) =~= sort_desc(published_views(iv.take(0))));
    }
    while i < items.len()
        invariant
            0 <= i <= items@.len(),
            iv == items_view(items@),
            forall|j: int| 0 <= j < i ==> extract_spec(#[trigger] iv[j].content) is Ok,
            pages_view(pages@) == sort_desc(published_views(iv.take(i as int))),
            pages_wf(pages_view(pages@)),
        decreases items@.len() - i,
    {
        let ghost prefix = iv.take(i as int);
        match extract_frontmatter_from_content_file(items[i].content.as_str()) {
            Err(e) => {
                proof {
                    assert(iv[i as int] == items@[i as int]@);
                    lemma_first_failure_at(iv, i as int);
                }
                return Err(e);
            },
            Ok(fm) => {
                proof {
                    assert(iv[i as int] == items@[i as int]@);
                }
                match fm.published_at {
                    Some(ts) => {
                        let page = PublishedPage {
                            published_at: ts,
                            path: items[i].path.clone(),
                            frontmatter: fm,
                        };
                        proof {
                            assert(page@ == page_of_item(iv[i as int]));
                            assert(page_wf(page@));
                        }
                        let ghost old_pages_view = pages_view(pages@);
                        insert_sorted(&mut pages, page);
                        proof {
                            lemma_published_views_push(prefix, iv[i as int]);
                            assert(prefix.push(iv[i as int]) =~= iv.take(i + 1));
                            let pv = published_views(iv.take(i + 1));
                            assert(pv == published_views(prefix).push(page@));
                            assert(pv.drop_last() =~= published_views(prefix));
                            assert(pv.last() == page@);
                            assert(sort_desc(pv) == insert_desc(
                                sort_desc(published_views(prefix)),
                                page@,
                            ));
                            lemma_insert_point_bounds(old_pages_view, page@);
                            lemma_insert_desc_split(old_pages_view, page@);
                            let p = insert_point(old_pages_view, page@);
                            assert forall|k: int| 0 <= k < pages_view(pages@).len() implies page_wf(
                                #[trigger] pages_view(pages@)[k],
                            ) by {
                                if k < p {
                                    assert(pages_view(pages@)[k] == old_pages_view[k]);
                                } else if k == p {
                                    assert(pages_view(pages@)[k] == page@);
                                } else {
                                    assert(pages_view(pages@)[k] == old_pages_view[k - 1]);
                                }
                            }
                        }
                    },
                    None => {
                        proof {
                            lemma_published_views_push(prefix, iv[i as int]);
                            assert(prefix.push(iv[i as int]) =~= iv.take(i + 1));
                            assert(published_views(iv.take(i + 1)) == published_views(prefix));
                        }
                    },
                }
            },
        }
        i += 1;
    }
    proof {
        assert(iv.take(i as int) =~= iv);
        lemma_first_failure_none(iv);
        lemma_sort_desc_props(published_views(iv));
    }
    Ok(pages)
}

/// The content store: it owns the authoritative snapshot of the
/// publication index, read by every view and replaced only by a
/// successful `publish`.
pub struct PublishedPages {
    pages: Vec<PublishedPage>,
}

impl View for PublishedPages {
    type V = Seq<PublishedPageView>;

    closed spec fn view(&self) -> Seq<PublishedPageView> {
        pages_view(self.pages@)
    }
}

impl Default for PublishedPages {
    /// The store starts empty; a first successful `publish` must precede
    /// serving.
    fn default() -> (r: Self)
        ensures
            r@ == Seq::<PublishedPageView>::empty(),
    {
        let r = PublishedPages { pages: Vec::new() };
        proof {
            assert(pages_view(Seq::<PublishedPage>::empty()) =~= Seq::<
                PublishedPageView,
            >::empty());
        }
        r
    }
}

pub(crate) fn clone_page(p: &PublishedPage) -> (r: PublishedPage)
    ensures
        r@ == p@,
{
    PublishedPage {
        published_at: p.published_at,
        path: p.path.clone(),
        frontmatter: Frontmatter {
            description: p.frontmatter.description.clone(),
            preview: p.frontmatter.preview.clone(),
            published_at: p.frontmatter.published_at,
            revised_at: p.frontmatter.revised_at,
            slug: p.frontmatter.slug.clone(),
            title: p.frontmatter.title.clone(),
        },
    }
}

impl PublishedPages {
    /// The current snapshot, copied for the caller; never fails.
    pub fn get_all(&self) -> (r: Result<Vec<PublishedPage>, AppError>)
        ensures
            r is Ok,
            pages_view(r->Ok_0@) == self@,
    {
        let mut out: Vec<PublishedPage> = Vec::new();
        let mut i: usize = 0;
        proof {
            assert(pages_view(out@) =~= self@.subrange(0, 0));
        }
        while i < self.pages.len()
            invariant
                0 <= i <= self.pages@.len(),
                self@ == pages_view(self.pages@),
                pages_view(out@) == self@.subrange(0, i as int),
            decreases self.pages@.len() - i,
        {
            let ghost old_out = out@;
            out.push(clone_page(&self.pages[i]));
            proof {
                assert(pages_view(out@) =~= pages_view(old_out).push(self.pages@[i as int]@));
                assert(self@.subrange(0, i as int).push(self@[i as int]) =~= self@.subrange(
                    0,
                    i + 1,
                ));
            }
            i += 1;
        }
        proof {
            assert(self@.subrange(0, i as int) =~= self@);
        }
        Ok(out)
    }

    /// One index-builder pass over the given items, installed atomically:
    /// on success the new index replaces the snapshot and its length is
    /// returned; on failure the prior snapshot stands untouched.
    pub fn publish(&mut self, items: &Vec<ContentItem>) -> (r: Result<usize, AppError>)
        ensures
            match r {
                Ok(n) => first_failure(items_view(items@)) is None && final(self)@ == sort_desc(
                    published_views(items_view(items@)),
                ) && n == final(self)@.len() && sorted_desc(final(self)@) && pages_wf(final(self)@),
                Err(e) => final(self)@ == old(self)@ && first_failure(items_view(items@)) is Some
                    && e == AppError::MissingField(first_failure(items_view(items@))->0),
            },
    {
        match published_pages(items) {
            Ok(pages) => {
                let n = pages.len();
                self.pages = pages;
                Ok(n)
            },
            Err(e) => Err(e),
        }
    }
}

/// Whether every page of a snapshot carries timestamps in formatting
/// range; callers outside the library test this before the views that
/// require it.
pub fn pages_well_formed(pages: &Vec<PublishedPage>) -> (b: bool)
    ensures
        b == pages_wf(pages_view(pages@)),
{
    let mut i: usize = 0;
    while i < pages.len()
        invariant
            0 <= i <= pages@.len(),
            forall|j: int| 0 <= j < i ==> page_wf(#[trigger] pages_view(pages@)[j]),
        decreases pages@.len() - i,
    {
        let ok = ts_in_range_exec(pages[i].published_at) && opt_ts_in_range_exec(
            &pages[i].frontmatter.published_at,
        ) && opt_ts_in_range_exec(&pages[i].frontmatter.revised_at);
        if !ok {
            proof {
                assert(pages_view(pages@)[i as int] == pages@[i as int]@);
                assert(!page_wf(pages_view(pages@)[i as int]));
            }
            return false;
        }
        proof {
            assert(pages_view(pages@)[i as int] == pages@[i as int]@);
        }
        i += 1;
    }
    true
}

} // verus!
