//! Which headlines of a document become articles, what each article
//! holds, and what leaves the document before it is rendered.

use vstd::prelude::*;
use crate::outline::{
    before, end_of_subtree, plain_start, subtree_end, DateTime, Headline, OrgDoc, Timestamp,
};
use crate::site::{get_id, id_prop, Article, Id};
use crate::text::contains_str;

verus! {

/// Headline `h` carries tag `t`.
pub open spec fn has_tag(h: Headline, t: Seq<char>) -> bool {
    exists|k: int| 0 <= k < h.tags@.len() && #[trigger] h.tags@[k]@ == t
}

/// The schedule of a headline: `None` where it has none, `Some(None)`
/// where it is not a plain timestamp, else the start of that timestamp.
pub open spec fn schedule_of(h: Headline) -> Option<Option<DateTime>> {
    match h.scheduled {
        None => None,
        Some(t) => Some(plain_start(t)),
    }
}

/// The first index from `e` on that leaves the subtree of headline `i`.
pub open spec fn scan_end(hs: Seq<Headline>, i: int, e: int) -> int
    decreases hs.len() - e,
{
    if e < 0 || e >= hs.len() || hs[e].level <= hs[i].level {
        e
    } else {
        scan_end(hs, i, e + 1)
    }
}

/// The end of the subtree of headline `i`: its descendants are the
/// headlines strictly between `i` and this index.
pub open spec fn end_spec(hs: Seq<Headline>, i: int) -> int {
    scan_end(hs, i, i + 1)
}

/// Scanning from inside a subtree stops where the subtree ends.
pub proof fn lemma_scan_end(hs: Seq<Headline>, i: int, k: int, e: int)
    requires
        subtree_end(hs, i, e),
        i < k <= e,
    ensures
        scan_end(hs, i, k) == e,
    decreases e - k,
{
    if k < e {
        assert(hs[k].level > hs[i].level);
        lemma_scan_end(hs, i, k + 1, e);
    }
}

/// The identifiers of the headlines `from .. to`, in document order.
pub open spec fn ids_in(hs: Seq<Headline>, from: int, to: int) -> Seq<Seq<char>>
    decreases to - from,
{
    if to <= from {
        seq![]
    } else {
        let rest = ids_in(hs, from, to - 1);
        match id_prop(hs[to - 1].properties@) {
            Some(x) => rest.push(x),
            None => rest,
        }
    }
}

/// The indices of the headlines `from .. to` tagged `PRIVATE`, in order.
pub open spec fn private_in(hs: Seq<Headline>, from: int, to: int) -> Seq<usize>
    decreases to - from,
{
    if to <= from {
        seq![]
    } else {
        let rest = private_in(hs, from, to - 1);
        if has_tag(hs[to - 1], "PRIVATE"@) {
            rest.push((to - 1) as usize)
        } else {
            rest
        }
    }
}

/// The latest plain timestamp of `ts` that comes strictly after `p`.
pub open spec fn latest_after(ts: Seq<Timestamp>, p: DateTime) -> Option<DateTime>
    decreases ts.len(),
{
    if ts.len() == 0 {
        None
    } else {
        let rest = latest_after(ts.drop_last(), p);
        match plain_start(ts.last()) {
            Some(t) => if before(p, t) {
                match rest {
                    None => Some(t),
                    Some(u) => if before(u, t) {
                        Some(t)
                    } else {
                        rest
                    },
                }
            } else {
                rest
            },
            None => rest,
        }
    }
}

pub open spec fn ids_view(v: Seq<Id>) -> Seq<Seq<char>> {
    v.map_values(|x: Id| x@)
}

/// The identifiers of the headlines `from .. to`.
pub fn collect_ids(hs: &Vec<Headline>, from: usize, to: usize) -> (r: Vec<Id>)
    requires
        from <= to <= hs@.len(),
    ensures
        ids_view(r@) == ids_in(hs@, from as int, to as int),
{
    let mut r: Vec<Id> = Vec::new();
    let mut j: usize = from;
    while j < to
        invariant
            from <= j <= to <= hs@.len(),
            ids_view(r@) == ids_in(hs@, from as int, j as int),
        decreases to - j,
    {
        let ghost before_r = r@;
        match get_id(&hs[j].properties) {
            Some(id) => {
                r.push(id);
                assert(ids_view(r@) =~= ids_view(before_r).push(id@));
            },
            None => {},
        }
        j = j + 1;
    }
    r
}

/// The headlines `from .. to` that carry the `PRIVATE` tag.
pub fn private_headlines(hs: &Vec<Headline>, from: usize, to: usize) -> (r: Vec<usize>)
    requires
        from <= to <= hs@.len(),
    ensures
        r@ == private_in(hs@, from as int, to as int),
{
    let mut r: Vec<usize> = Vec::new();
    let mut j: usize = from;
    while j < to
        invariant
            from <= j <= to <= hs@.len(),
            r@ == private_in(hs@, from as int, j as int),
        decreases to - j,
    {
        if contains_str(&hs[j].tags, "PRIVATE") {
            r.push(j);
        }
        j = j + 1;
    }
    r
}

/// The latest plain timestamp of `ts` strictly after `published`.
pub fn last_update_after(ts: &Vec<Timestamp>, published: DateTime) -> (r: Option<DateTime>)
    ensures
        r == latest_after(ts@, published),
{
    let mut r: Option<DateTime> = None;
    let mut k: usize = 0;
    while k < ts.len()
        invariant
            k <= ts@.len(),
            r == latest_after(ts@.subrange(0, k as int), published),
        decreases ts@.len() - k,
    {
        assert(ts@.subrange(0, k + 1).drop_last() =~= ts@.subrange(0, k as int));
        if let Some(t) = ts[k].plain() {
            if published.is_before(&t) {
                match r {
                    None => {
                        r = Some(t);
                    },
                    Some(u) => {
                        if u.is_before(&t) {
                            r = Some(t);
                        }
                    },
                }
            }
        }
        k = k + 1;
    }
    assert(ts@.subrange(0, ts@.len() as int) =~= ts@);
    r
}

/// An update time drawn from the change log comes strictly after the
/// publication time.
pub proof fn lemma_latest_after_is_later(ts: Seq<Timestamp>, p: DateTime)
    ensures
        latest_after(ts, p) matches Some(u) ==> before(p, u),
    decreases ts.len(),
{
    if ts.len() > 0 {
        lemma_latest_after_is_later(ts.drop_last(), p);
    }
}


/// Why a headline tagged `blog` was not made an article.
#[derive(Clone, Copy, Debug, PartialEq, Eq, Structural)]
pub enum NoticeKind {
    NotScheduled,
    MissingId,
    EmptyId,
}

/// A diagnostic on a headline tagged `blog`, naming its title.
pub struct Notice {
    pub kind: NoticeKind,
    pub title: String,
}

impl Notice {
    /// The notice as a line of text.
    pub fn message(&self) -> (r: String)
        ensures
            r@ == "headline \""@ + self.title@ + notice_tail(self.kind),
    {
        let mut r = String::from_str("headline \"");
        r.append(self.title.as_str());
        match self.kind {
            NoticeKind::NotScheduled => r.append("\" has blog tag, but not SCHEDULED"),
            NoticeKind::MissingId => r.append("\" has blog tag, but does not have ID"),
            NoticeKind::EmptyId => r.append("\" has blog tag, but ID is empty"),
        }
        r
    }
}

pub open spec fn notice_tail(k: NoticeKind) -> Seq<char> {
    match k {
        NoticeKind::NotScheduled => "\" has blog tag, but not SCHEDULED"@,
        NoticeKind::MissingId => "\" has blog tag, but does not have ID"@,
        NoticeKind::EmptyId => "\" has blog tag, but ID is empty"@,
    }
}

/// `a` is the article that headline `i` of document `docno` yields.
pub open spec fn article_of(hs: Seq<Headline>, i: int, docno: usize, a: Article) -> bool {
    let h = hs[i];
    &&& id_prop(h.properties@) == Some(a.id@)
    &&& schedule_of(h) == Some(Some(a.published))
    &&& a.updated == latest_after(h.logbook@, a.published)
    &&& a.title@ == h.raw@
    &&& ids_view(a.subids@) == ids_in(hs, i + 1, end_spec(hs, i))
    &&& a.doc == docno
    &&& a.headline == i
}

/// What one headline yields.
pub enum Loaded {
    /// Not a candidate, or one without a schedule.
    Skipped,
    Rejected(Notice),
    /// The article, and the descendant headlines tagged `PRIVATE`, whose
    /// subtrees leave the document.
    Accepted(Article, Vec<usize>),
}

pub open spec fn rejected_as(r: Loaded, kind: NoticeKind, title: Seq<char>) -> bool {
    r matches Loaded::Rejected(n) && n.kind == kind && n.title@ == title
}

pub open spec fn plainly_scheduled(h: Headline) -> bool {
    schedule_of(h) matches Some(Some(_))
}

pub open spec fn has_nonempty_id(h: Headline) -> bool {
    id_prop(h.properties@) matches Some(x) && x.len() > 0
}

/// `r` holds the article of headline `i`, and the descendants of `i`
/// tagged `PRIVATE`.
pub open spec fn accepted_as(hs: Seq<Headline>, i: int, docno: usize, r: Loaded) -> bool {
    match r {
        Loaded::Accepted(a, p) => {
            &&& article_of(hs, i, docno, a)
            &&& a.wf()
            &&& p@ == private_in(hs, i + 1, end_spec(hs, i))
        },
        _ => false,
    }
}

/// Decides what headline `i` of document number `docno` yields.
pub fn load_article(doc: &OrgDoc, i: usize, docno: usize) -> (r: Loaded)
    requires
        i < doc.headlines@.len(),
    ensures
        ({
            let hs = doc.headlines@;
            let h = hs[i as int];
            let blog = has_tag(h, "blog"@);
            &&& !blog ==> r is Skipped
            &&& blog && schedule_of(h) is None ==> r is Skipped
            &&& blog && schedule_of(h) == Some(None::<DateTime>) ==> rejected_as(
                r,
                NoticeKind::NotScheduled,
                h.raw@,
            )
            &&& blog && plainly_scheduled(h) && id_prop(h.properties@) is None ==> rejected_as(
                r,
                NoticeKind::MissingId,
                h.raw@,
            )
            &&& blog && plainly_scheduled(h) && id_prop(h.properties@) == Some(
                Seq::<char>::empty(),
            ) ==> rejected_as(r, NoticeKind::EmptyId, h.raw@)
            &&& blog && plainly_scheduled(h) && has_nonempty_id(h) ==> accepted_as(
                hs,
                i as int,
                docno,
                r,
            )
            &&& yields_article(h) <==> r is Accepted
            &&& match r {
                Loaded::Rejected(n) => notice_of(h) == Some((n.kind, n.title@)),
                _ => notice_of(h) is None,
            }
        }),
{
    let hs = &doc.headlines;
    let h = &hs[i];
    if !contains_str(&h.tags, "blog") {
        return Loaded::Skipped;
    }
    let published = match &h.scheduled {
        None => {
            return Loaded::Skipped;
        },
        Some(t) => match t.plain() {
            Some(p) => p,
            None => {
                return Loaded::Rejected(
                    Notice { kind: NoticeKind::NotScheduled, title: h.raw.clone() },
                );
            },
        },
    };
    let id = match get_id(&h.properties) {
        None => {
            return Loaded::Rejected(Notice { kind: NoticeKind::MissingId, title: h.raw.clone() });
        },
        Some(id) => id,
    };
    if id.0.unicode_len() == 0 {
        assert(id@ =~= Seq::<char>::empty());
        return Loaded::Rejected(Notice { kind: NoticeKind::EmptyId, title: h.raw.clone() });
    }
    let end = end_of_subtree(hs, i);
    proof {
        lemma_scan_end(hs@, i as int, i + 1, end as int);
    }
    let subids = collect_ids(hs, i + 1, end);
    let updated = last_update_after(&h.logbook, published);
    proof {
        lemma_latest_after_is_later(h.logbook@, published);
    }
    let private = private_headlines(hs, i + 1, end);
    let a = Article {
        id,
        published,
        updated,
        title: h.raw.clone(),
        subids,
        doc: docno,
        headline: i,
    };
    Loaded::Accepted(a, private)
}


/// Headline `h` becomes an article.
pub open spec fn yields_article(h: Headline) -> bool {
    has_tag(h, "blog"@) && plainly_scheduled(h) && has_nonempty_id(h)
}

/// The diagnostic that headline `h` draws, if any.
pub open spec fn notice_of(h: Headline) -> Option<(NoticeKind, Seq<char>)> {
    if !has_tag(h, "blog"@) || schedule_of(h) is None {
        None
    } else if !plainly_scheduled(h) {
        Some((NoticeKind::NotScheduled, h.raw@))
    } else if id_prop(h.properties@) is None {
        Some((NoticeKind::MissingId, h.raw@))
    } else if id_prop(h.properties@) == Some(Seq::<char>::empty()) {
        Some((NoticeKind::EmptyId, h.raw@))
    } else {
        None
    }
}

/// The diagnostics of headlines `0 .. k`, in document order.
pub open spec fn notices_upto(hs: Seq<Headline>, k: int) -> Seq<(NoticeKind, Seq<char>)>
    decreases k,
{
    if k <= 0 {
        seq![]
    } else {
        match notice_of(hs[k - 1]) {
            Some(n) => notices_upto(hs, k - 1).push(n),
            None => notices_upto(hs, k - 1),
        }
    }
}

/// The headlines among `0 .. k` that become articles, in document order.
pub open spec fn articles_upto(hs: Seq<Headline>, k: int) -> Seq<usize>
    decreases k,
{
    if k <= 0 {
        seq![]
    } else if yields_article(hs[k - 1]) {
        articles_upto(hs, k - 1).push((k - 1) as usize)
    } else {
        articles_upto(hs, k - 1)
    }
}

/// The headlines to remove with their subtrees: those tagged `PRIVATE`
/// under each article among headlines `0 .. k`.
pub open spec fn private_upto(hs: Seq<Headline>, k: int) -> Seq<usize>
    decreases k,
{
    if k <= 0 {
        seq![]
    } else if yields_article(hs[k - 1]) {
        private_upto(hs, k - 1) + private_in(hs, k, end_spec(hs, k - 1))
    } else {
        private_upto(hs, k - 1)
    }
}

pub open spec fn notices_view(v: Seq<Notice>) -> Seq<(NoticeKind, Seq<char>)> {
    v.map_values(|n: Notice| (n.kind, n.title@))
}

/// What loading one document produced besides its articles: the
/// diagnostics, the headlines that became articles (whose `LOGBOOK`
/// drawers leave the document), and the headlines that leave the
/// document with their subtrees.
pub struct LoadReport {
    pub notices: Vec<Notice>,
    pub articles: Vec<usize>,
    pub private: Vec<usize>,
}

/// Scanning from inside a subtree yields an index where it ends.
pub proof fn lemma_scan_end_is_end(hs: Seq<Headline>, i: int, e: int)
    requires
        0 <= i < e <= hs.len(),
        forall|k: int| i < k < e ==> #[trigger] hs[k].level > hs[i].level,
    ensures
        subtree_end(hs, i, scan_end(hs, i, e)),
    decreases hs.len() - e,
{
    if e < hs.len() && hs[e].level > hs[i].level {
        assert forall|k: int| i < k < e + 1 implies #[trigger] hs[k].level > hs[i].level by {}
        lemma_scan_end_is_end(hs, i, e + 1);
    }
}

/// A headline is listed as private between `from` and `to` exactly when it
/// lies there and carries the `PRIVATE` tag.
pub proof fn lemma_private_in(hs: Seq<Headline>, from: int, to: int, j: int)
    requires
        0 <= from,
        to <= hs.len() <= usize::MAX,
    ensures
        private_in(hs, from, to).contains(j as usize) && 0 <= j <= usize::MAX <==> (from <= j < to
            && has_tag(hs[j], "PRIVATE"@)),
    decreases to - from,
{
    if to > from {
        lemma_private_in(hs, from, to - 1, j);
        let rest = private_in(hs, from, to - 1);
        if has_tag(hs[to - 1], "PRIVATE"@) {
            let full = rest.push((to - 1) as usize);
            assert(full[rest.len() as int] == (to - 1) as usize);
            if full.contains(j as usize) && 0 <= j <= usize::MAX {
                let m = choose|m: int| 0 <= m < full.len() && full[m] == j as usize;
                if m < rest.len() {
                    assert(rest[m] == j as usize);
                }
            }
            if rest.contains(j as usize) {
                let m = choose|m: int| 0 <= m < rest.len() && rest[m] == j as usize;
                assert(full[m] == j as usize);
            }
        }
    }
}

/// Within an article, every headline tagged `PRIVATE` is listed for
/// removal with its subtree, and nothing else is.
pub proof fn lemma_private_listed(hs: Seq<Headline>, i: int, j: int)
    requires
        0 <= i < hs.len() <= usize::MAX,
    ensures
        private_in(hs, i + 1, end_spec(hs, i)).contains(j as usize) && 0 <= j <= usize::MAX <==> (
        crate::outline::descends(hs, i, j) && has_tag(hs[j], "PRIVATE"@)),
{
    lemma_scan_end_is_end(hs, i, i + 1);
    let e = end_spec(hs, i);
    lemma_private_in(hs, i + 1, e, j);
    if crate::outline::descends(hs, i, j) && j >= e {
        assert(hs[e].level > hs[i].level);
    }
}

} // verus!
