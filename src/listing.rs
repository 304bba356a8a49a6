//! The orders in which the pages of a site list its articles.

use vstd::prelude::*;
use crate::outline::before;
use crate::outline::DateTime;
use crate::site::{effective, max_effective, unique_ids, Article, Site, Year};
use crate::text::{lemma_text_lt_total, lemma_text_lt_transitive, text_less, text_lt};

verus! {

/// The order of a year's articles: by `published`, then by identifier.
pub open spec fn date_before(a: Article, b: Article) -> bool {
    before(a.published, b.published) || (a.published == b.published && text_lt(a.id@, b.id@))
}

/// The order of the most recent articles: latest effective timestamp
/// first, then the reverse of the year order.
pub open spec fn recent_before(a: Article, b: Article) -> bool {
    before(effective(b), effective(a)) || (effective(a) == effective(b) && date_before(b, a))
}

pub open spec fn article_order(a: Article, b: Article, recent: bool) -> bool {
    if recent {
        recent_before(a, b)
    } else {
        date_before(a, b)
    }
}

/// Both orders are total on articles with distinct identifiers,
/// irreflexive and transitive.
pub proof fn lemma_order(a: Article, b: Article, c: Article, recent: bool)
    ensures
        a.id@ != b.id@ ==> article_order(a, b, recent) || article_order(b, a, recent),
        !article_order(a, a, recent),
        article_order(a, b, recent) && article_order(b, c, recent) ==> article_order(a, c, recent),
{
    lemma_text_lt_total(a.id@, b.id@);
    lemma_text_lt_total(b.id@, a.id@);
    lemma_text_lt_total(a.id@, a.id@);
    if text_lt(a.id@, b.id@) && text_lt(b.id@, c.id@) {
        lemma_text_lt_transitive(a.id@, b.id@, c.id@);
    }
    if text_lt(c.id@, b.id@) && text_lt(b.id@, a.id@) {
        lemma_text_lt_transitive(c.id@, b.id@, a.id@);
    }
}

/// Whether article `a` comes before article `b`.
fn precedes(a: &Article, b: &Article, recent: bool) -> (r: bool)
    ensures
        r == article_order(*a, *b, recent),
{
    let date = a.published.is_before(&b.published) || (a.published == b.published && text_less(
        a.id.0.as_str(),
        b.id.0.as_str(),
    ));
    if !recent {
        return date;
    }
    let ea = a.effective_timestamp();
    let eb = b.effective_timestamp();
    let back = b.published.is_before(&a.published) || (a.published == b.published && text_less(
        b.id.0.as_str(),
        a.id.0.as_str(),
    ));
    eb.is_before(&ea) || (ea == eb && back)
}

/// `r` lists every article of `arts` once, in the order chosen by `recent`.
pub open spec fn sorted_indices(arts: Seq<Article>, r: Seq<usize>, recent: bool) -> bool {
    &&& r.len() == arts.len()
    &&& r.no_duplicates()
    &&& forall|m: int| 0 <= m < r.len() ==> #[trigger] r[m] < arts.len()
    &&& forall|j: int| 0 <= j < arts.len() ==> #[trigger] r.contains(j as usize)
    &&& forall|x: int, y: int|
        0 <= x < y < r.len() ==> article_order(arts[#[trigger] r[x] as int], arts[#[trigger] r[y] as int], recent)
}

/// The positions of all articles, sorted by insertion in the order chosen
/// by `recent`.
fn sort_indices(arts: &Vec<Article>, recent: bool) -> (r: Vec<usize>)
    requires
        unique_ids(arts@),
    ensures
        sorted_indices(arts@, r@, recent),
{
    let mut r: Vec<usize> = Vec::new();
    let mut k: usize = 0;
    while k < arts.len()
        invariant
            unique_ids(arts@),
            k <= arts@.len(),
            r@.len() == k,
            r@.no_duplicates(),
            forall|m: int| 0 <= m < r@.len() ==> #[trigger] r@[m] < k,
            forall|j: int| 0 <= j < k ==> #[trigger] r@.contains(j as usize),
            forall|x: int, y: int|
                0 <= x < y < r@.len() ==> article_order(
                    arts@[#[trigger] r@[x] as int],
                    arts@[#[trigger] r@[y] as int],
                    recent,
                ),
        decreases arts@.len() - k,
    {
        let mut p: usize = r.len();
        while p > 0 && precedes(&arts[k], &arts[r[p - 1]], recent)
            invariant
                p <= r@.len(),
                r@.len() == k,
                k < arts@.len(),
                forall|m: int| 0 <= m < r@.len() ==> #[trigger] r@[m] < k,
                forall|m: int|
                    p <= m < r@.len() ==> article_order(
                        arts@[k as int],
                        arts@[#[trigger] r@[m] as int],
                        recent,
                    ),
            decreases p,
        {
            p = p - 1;
        }
        let ghost old_r = r@;
        if p > 0 {
            proof {
                let j = old_r[p - 1] as int;
                assert(arts@[j].id@ != arts@[k as int].id@);
                lemma_order(arts@[k as int], arts@[j], arts@[j], recent);
            }
        }
        r.insert(p, k);
        proof {
            assert forall|x: int, y: int|
                0 <= x < y < r@.len() implies article_order(
                arts@[#[trigger] r@[x] as int],
                arts@[#[trigger] r@[y] as int],
                recent,
            ) by {
                let ak = arts@[k as int];
                if x < p && y == p {
                    if x < p - 1 {
                        lemma_order(arts@[old_r[x] as int], arts@[old_r[p - 1] as int], ak, recent);
                    }
                } else if x == p && y > p {
                    assert(r@[y] == old_r[y - 1]);
                } else if x < p && y > p {
                    assert(r@[y] == old_r[y - 1]);
                } else if x > p {
                    assert(r@[x] == old_r[x - 1]);
                    assert(r@[y] == old_r[y - 1]);
                }
            }
            assert forall|a: int, b: int|
                0 <= a < r@.len() && 0 <= b < r@.len() && a != b implies r@[a] != r@[b] by {
                if a != p && b != p {
                    let a0 = if a < p { a } else { a - 1 };
                    let b0 = if b < p { b } else { b - 1 };
                    assert(r@[a] == old_r[a0]);
                    assert(r@[b] == old_r[b0]);
                } else if a != p {
                    let a0 = if a < p { a } else { a - 1 };
                    assert(r@[a] == old_r[a0]);
                } else if b != p {
                    let b0 = if b < p { b } else { b - 1 };
                    assert(r@[b] == old_r[b0]);
                }
            }
            assert forall|j: int| 0 <= j < k + 1 implies #[trigger] r@.contains(j as usize) by {
                if j < k {
                    assert(old_r.contains(j as usize));
                    let m = choose|m: int| 0 <= m < old_r.len() && old_r[m] == j as usize;
                    if m < p {
                        assert(r@[m] == old_r[m]);
                    } else {
                        assert(r@[m + 1] == old_r[m]);
                    }
                } else {
                    assert(r@[p as int] == k);
                }
            }
            assert forall|m: int| 0 <= m < r@.len() implies #[trigger] r@[m] < k + 1 by {
                if m < p {
                    assert(r@[m] == old_r[m]);
                } else if m > p {
                    assert(r@[m] == old_r[m - 1]);
                }
            }
        }
        k = k + 1;
    }
    r
}

impl Site {
    /// The positions in `articles` of all articles, by `published`, then
    /// by identifier: the order of the articles of a year.
    pub fn by_date(&self) -> (r: Vec<usize>)
        requires
            self.wf(),
        ensures
            sorted_indices(self.articles@, r@, false),
    {
        sort_indices(&self.articles, false)
    }

    /// The positions of the `n` most recent articles, most recent first:
    /// by effective timestamp, then latest published, then the greater
    /// identifier.
    pub fn most_recent(&self, n: usize) -> (r: Vec<usize>)
        requires
            self.wf(),
        ensures
            r@.len() == if n < self.articles@.len() {
                n as int
            } else {
                self.articles@.len() as int
            },
            r@.no_duplicates(),
            forall|m: int| 0 <= m < r@.len() ==> #[trigger] r@[m] < self.articles@.len(),
            forall|x: int, y: int|
                0 <= x < y < r@.len() ==> recent_before(
                    self.articles@[#[trigger] r@[x] as int],
                    self.articles@[#[trigger] r@[y] as int],
                ),
            forall|j: int, m: int|
                0 <= j < self.articles@.len() && !r@.contains(j as usize) && 0 <= m < r@.len()
                    ==> recent_before(
                    self.articles@[#[trigger] r@[m] as int],
                    #[trigger] self.articles@[j],
                ),
    {
        let all = sort_indices(&self.articles, true);
        let cnt = if n < all.len() {
            n
        } else {
            all.len()
        };
        let mut r: Vec<usize> = Vec::new();
        let mut k: usize = 0;
        while k < cnt
            invariant
                cnt <= all@.len(),
                k <= cnt,
                r@ == all@.subrange(0, k as int),
            decreases cnt - k,
        {
            r.push(all[k]);
            assert(r@ =~= all@.subrange(0, k + 1));
            k = k + 1;
        }
        proof {
            let full = all@;
            assert forall|a: int, b: int|
                0 <= a < r@.len() && 0 <= b < r@.len() && a != b implies r@[a] != r@[b] by {
                assert(r@[a] == full[a]);
                assert(r@[b] == full[b]);
            }
            assert forall|x: int, y: int| 0 <= x < y < r@.len() implies recent_before(
                self.articles@[#[trigger] r@[x] as int],
                self.articles@[#[trigger] r@[y] as int],
            ) by {
                assert(r@[x] == full[x]);
                assert(r@[y] == full[y]);
                assert(article_order(self.articles@[full[x] as int], self.articles@[full[y] as int], true));
            }
            assert forall|j: int, m: int|
                0 <= j < self.articles@.len() && !r@.contains(j as usize) && 0 <= m < r@.len()
                    implies recent_before(
                self.articles@[#[trigger] r@[m] as int],
                #[trigger] self.articles@[j],
            ) by {
                assert(full.contains(j as usize));
                let q = choose|q: int| 0 <= q < full.len() && full[q] == j as usize;
                if q < cnt {
                    assert(r@[q] == j as usize);
                }
                assert(r@[m] == full[m]);
                assert(article_order(self.articles@[full[m] as int], self.articles@[full[q] as int], true));
            }
        }
        r
    }

    /// The years in which articles were published, latest first, each once.
    pub fn years_descending(&self) -> (r: Vec<Year>)
        requires
            self.wf(),
        ensures
            forall|x: int, y: int| 0 <= x < y < r@.len() ==> (#[trigger] r@[x]).0 > (#[trigger] r@[y]).0,
            forall|y: Year| #[trigger] has_year(r@, y) <==> published_in(self.articles@, y.0),
    {
        let all = sort_indices(&self.articles, false);
        let ghost arts = self.articles@;
        let ghost full = all@;
        let mut r: Vec<Year> = Vec::new();
        let mut q: usize = all.len();
        while q > 0
            invariant
                full == all@,
                arts == self.articles@,
                sorted_indices(arts, full, false),
                q <= full.len(),
                forall|x: int, y: int| 0 <= x < y < r@.len() ==> (#[trigger] r@[x]).0 > (#[trigger] r@[y]).0,
                r@.len() > 0 ==> q < full.len() && r@.last().0 == arts[full[q as int] as int].published.year,
                r@.len() == 0 ==> q == full.len(),
                forall|y: Year| #[trigger] has_year(r@, y) <==> published_from(arts, full, q as int, y.0),
            decreases q,
        {
            let y = Year(self.articles[all[q - 1]].published.year);
            let ghost prev = r@;
            if r.len() == 0 || r[r.len() - 1].0 != y.0 {
                r.push(y);
            }
            proof {
                if prev.len() > 0 {
                    assert(article_order(arts[full[q - 1] as int], arts[full[q as int] as int], false));
                }
                assert forall|x: int, z: int| 0 <= x < z < r@.len() implies (#[trigger] r@[x]).0 > (#[trigger] r@[z]).0 by {
                    if z == r@.len() - 1 && r@.len() > prev.len() && prev.len() > 0 {
                        if x < prev.len() - 1 {
                            assert(prev[x].0 > prev[prev.len() - 1].0);
                        }
                    }
                }
                assert forall|yy: Year| #[trigger] has_year(r@, yy) <==> published_from(arts, full, q - 1, yy.0) by {
                    if has_year(r@, yy) {
                        let x = choose|x: int| 0 <= x < r@.len() && r@[x] == yy;
                        if x < prev.len() {
                            assert(prev[x] == yy);
                            assert(has_year(prev, yy));
                            let p = choose|p: int|
                                q <= p < full.len() && #[trigger] arts[full[p] as int].published.year == yy.0;
                        } else {
                            assert(arts[full[q - 1] as int].published.year == yy.0);
                        }
                    }
                    if published_from(arts, full, q - 1, yy.0) {
                        let p = choose|p: int|
                            q - 1 <= p < full.len() && #[trigger] arts[full[p] as int].published.year == yy.0;
                        if p >= q {
                            assert(published_from(arts, full, q as int, yy.0));
                            assert(has_year(prev, yy));
                            let x = choose|x: int| 0 <= x < prev.len() && prev[x] == yy;
                            assert(r@[x] == yy);
                        } else if r@.len() > prev.len() {
                            assert(r@[prev.len() as int] == yy);
                        } else {
                            assert(prev[prev.len() - 1] == yy);
                            assert(r@[prev.len() - 1] == yy);
                        }
                    }
                }
            }
            q = q - 1;
        }
        proof {
            assert forall|y: Year| #[trigger] has_year(r@, y) <==> published_in(arts, y.0) by {
                if published_in(arts, y.0) {
                    let k = choose|k: int| 0 <= k < arts.len() && (#[trigger] arts[k]).published.year == y.0;
                    assert(full.contains(k as usize));
                    let p = choose|p: int| 0 <= p < full.len() && full[p] == k as usize;
                    assert(arts[full[p] as int].published.year == y.0);
                }
                if published_from(arts, full, 0, y.0) {
                    let p = choose|p: int| 0 <= p < full.len() && #[trigger] arts[full[p] as int].published.year == y.0;
                    assert(arts[full[p] as int].published.year == y.0);
                }
            }
        }
        r
    }
}

/// Year `y` is in `v`.
pub open spec fn has_year(v: Seq<Year>, y: Year) -> bool {
    exists|x: int| 0 <= x < v.len() && v[x] == y
}

/// Some article of `arts` was published in year `y`.
pub open spec fn published_in(arts: Seq<Article>, y: i32) -> bool {
    exists|k: int| 0 <= k < arts.len() && (#[trigger] arts[k]).published.year == y
}

/// Some article listed in `full` from position `q` on was published in `y`.
pub open spec fn published_from(arts: Seq<Article>, full: Seq<usize>, q: int, y: i32) -> bool {
    exists|p: int| q <= p < full.len() && #[trigger] arts[full[p] as int].published.year == y
}

impl Site {
    /// The positions of the articles published in year `y`, by
    /// `published`, then by identifier.
    pub fn year_articles(&self, y: Year) -> (r: Vec<usize>)
        requires
            self.wf(),
        ensures
            r@.no_duplicates(),
            forall|m: int|
                0 <= m < r@.len() ==> #[trigger] r@[m] < self.articles@.len()
                    && self.articles@[r@[m] as int].published.year == y.0,
            forall|j: int|
                0 <= j < self.articles@.len() && (#[trigger] self.articles@[j]).published.year == y.0
                    ==> r@.contains(j as usize),
            forall|x: int, z: int|
                0 <= x < z < r@.len() ==> date_before(
                    self.articles@[#[trigger] r@[x] as int],
                    self.articles@[#[trigger] r@[z] as int],
                ),
    {
        let all = sort_indices(&self.articles, false);
        let ghost arts = self.articles@;
        let ghost full = all@;
        let mut r: Vec<usize> = Vec::new();
        let ghost mut pos: Seq<int> = seq![];
        let mut q: usize = 0;
        while q < all.len()
            invariant
                full == all@,
                arts == self.articles@,
                sorted_indices(arts, full, false),
                q <= full.len(),
                pos.len() == r@.len(),
                forall|m: int|
                    0 <= m < r@.len() ==> 0 <= #[trigger] pos[m] < q && full[pos[m]] == r@[m]
                        && arts[r@[m] as int].published.year == y.0,
                forall|x: int, z: int| 0 <= x < z < r@.len() ==> #[trigger] pos[x] < #[trigger] pos[z],
                forall|p: int|
                    0 <= p < q && arts[#[trigger] full[p] as int].published.year == y.0 ==> r@.contains(
                        full[p],
                    ),
            decreases full.len() - q,
        {
            let k = all[q];
            let ghost prev = r@;
            if self.articles[k].published.year == y.0 {
                r.push(k);
                proof {
                    pos = pos.push(q as int);
                    assert forall|p: int|
                        0 <= p < q + 1 && arts[#[trigger] full[p] as int].published.year == y.0 implies r@.contains(
                        full[p],
                    ) by {
                        if p < q {
                            assert(prev.contains(full[p]));
                            let m = choose|m: int| 0 <= m < prev.len() && prev[m] == full[p];
                            assert(r@[m] == full[p]);
                        } else {
                            assert(r@[prev.len() as int] == full[p]);
                        }
                    }
                }
            }
            q = q + 1;
        }
        proof {
            assert forall|a: int, b: int|
                0 <= a < r@.len() && 0 <= b < r@.len() && a != b implies r@[a] != r@[b] by {
                if a < b {
                    assert(pos[a] < pos[b]);
                } else {
                    assert(pos[b] < pos[a]);
                }
                assert(full[pos[a]] != full[pos[b]]);
            }
            assert forall|m: int| 0 <= m < r@.len() implies #[trigger] r@[m] < arts.len()
                && arts[r@[m] as int].published.year == y.0 by {
                assert(full[pos[m]] == r@[m]);
            }
            assert forall|j: int|
                0 <= j < arts.len() && (#[trigger] arts[j]).published.year == y.0 implies r@.contains(
                j as usize,
            ) by {
                assert(full.contains(j as usize));
                let p = choose|p: int| 0 <= p < full.len() && full[p] == j as usize;
                assert(arts[full[p] as int].published.year == y.0);
            }
            assert forall|x: int, z: int| 0 <= x < z < r@.len() implies date_before(
                arts[#[trigger] r@[x] as int],
                arts[#[trigger] r@[z] as int],
            ) by {
                assert(pos[x] < pos[z]);
                assert(article_order(arts[full[pos[x]] as int], arts[full[pos[z]] as int], false));
            }
        }
        r
    }
}

/// The articles at `positions`, in that order.
pub open spec fn at_positions(arts: Seq<Article>, positions: Seq<usize>) -> Seq<Article> {
    positions.map_values(|k: usize| arts[k as int])
}

impl Site {
    /// The latest effective timestamp of the articles at `positions`: the
    /// modification time of a page that lists them.
    pub fn latest_of(&self, positions: &Vec<usize>) -> (r: Option<DateTime>)
        requires
            forall|m: int| 0 <= m < positions@.len() ==> #[trigger] positions@[m] < self.articles@.len(),
        ensures
            r == max_effective(at_positions(self.articles@, positions@)),
    {
        let mut r: Option<DateTime> = None;
        let mut m: usize = 0;
        while m < positions.len()
            invariant
                m <= positions@.len(),
                forall|j: int| 0 <= j < positions@.len() ==> #[trigger] positions@[j] < self.articles@.len(),
                r == max_effective(at_positions(self.articles@, positions@.subrange(0, m as int))),
            decreases positions@.len() - m,
        {
            let ghost prefix = at_positions(self.articles@, positions@.subrange(0, m + 1));
            assert(prefix.drop_last() =~= at_positions(self.articles@, positions@.subrange(0, m as int)));
            let e = self.articles[positions[m]].effective_timestamp();
            r = match r {
                None => Some(e),
                Some(u) => if u.is_before(&e) {
                    Some(e)
                } else {
                    Some(u)
                },
            };
            m = m + 1;
        }
        assert(positions@.subrange(0, positions@.len() as int) =~= positions@);
        r
    }
}

} // verus!
