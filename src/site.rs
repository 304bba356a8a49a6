//! Identifiers, articles and the index of a whole site.

use vstd::prelude::*;
use crate::extract::{
    article_of, articles_upto, ids_view, load_article, notices_upto, notices_view, private_upto,
    LoadReport, Loaded, Notice,
};
use crate::outline::{before, later_of, DateTime, OrgDoc};
use crate::text::str_eq;

verus! {

/// An article or section identifier, compared by its text.
pub struct Id(pub String);

impl View for Id {
    type V = Seq<char>;

    open spec fn view(&self) -> Seq<char> {
        self.0@
    }
}

impl Clone for Id {
    fn clone(&self) -> (r: Self)
        ensures
            r@ == self@,
    {
        Id(self.0.clone())
    }
}

impl Id {
    pub fn new(id: String) -> (r: Id)
        ensures
            r@ == id@,
    {
        Id(id)
    }

    pub fn to_string(&self) -> (r: String)
        ensures
            r@ == self@,
    {
        self.0.clone()
    }

    /// Whether two identifiers have the same text.
    pub fn same(&self, other: &Id) -> (r: bool)
        ensures
            r == (self@ == other@),
    {
        self.0 == other.0
    }
}

/// The output path of the page of the article with identifier `id`:
/// `articles/<last character of id>/<id>.html`.
pub open spec fn path_of(id: Seq<char>) -> Seq<char> {
    "articles/"@ + seq![id.last()] + "/"@ + id + ".html"@
}

pub fn id_to_path(id: &Id) -> (r: String)
    requires
        id@.len() > 0,
    ensures
        r@ == path_of(id@),
{
    let n = id.0.unicode_len();
    let last = id.0.as_str().substring_char(n - 1, n);
    let mut r = String::from_str("articles/");
    r.append(last);
    r.append("/");
    r.append(id.0.as_str());
    r.append(".html");
    assert(last@ =~= seq![id@.last()]);
    r
}


/// The value of the first `ID` property of a property list.
pub open spec fn id_prop_from(ps: Seq<(String, String)>, k: int) -> Option<Seq<char>>
    decreases ps.len() - k,
{
    if k < 0 || k >= ps.len() {
        None
    } else if ps[k].0@ == "ID"@ {
        Some(ps[k].1@)
    } else {
        id_prop_from(ps, k + 1)
    }
}

pub open spec fn id_prop(ps: Seq<(String, String)>) -> Option<Seq<char>> {
    id_prop_from(ps, 0)
}

/// The identifier of a headline: its first `ID` property.
pub fn get_id(properties: &Vec<(String, String)>) -> (r: Option<Id>)
    ensures
        r matches Some(id) ==> id_prop(properties@) == Some(id@),
        r is None ==> id_prop(properties@) is None,
{
    let mut i: usize = 0;
    while i < properties.len()
        invariant
            i <= properties@.len(),
            id_prop(properties@) == id_prop_from(properties@, i as int),
        decreases properties@.len() - i,
    {
        if str_eq(properties[i].0.as_str(), "ID") {
            return Some(Id::new(properties[i].1.clone()));
        }
        i = i + 1;
    }
    None
}

/// One article: a headline of document number `doc`, at index `headline`.
pub struct Article {
    pub id: Id,
    pub published: DateTime,
    pub updated: Option<DateTime>,
    pub title: String,
    pub subids: Vec<Id>,
    pub doc: usize,
    pub headline: usize,
}

/// The instant that stands for an article's last change.
pub open spec fn effective(a: Article) -> DateTime {
    match a.updated {
        Some(u) => u,
        None => a.published,
    }
}

impl Article {
    /// An identifier that is not empty, and an update after publication.
    pub open spec fn wf(&self) -> bool {
        &&& self.id@.len() > 0
        &&& self.updated matches Some(u) ==> before(self.published, u)
    }

    pub fn path(&self) -> (r: String)
        requires
            self.wf(),
        ensures
            r@ == path_of(self.id@),
    {
        id_to_path(&self.id)
    }

    /// `updated` where present, else `published`.
    pub fn effective_timestamp(&self) -> (r: DateTime)
        ensures
            r == effective(*self),
    {
        match self.updated {
            Some(u) => u,
            None => self.published,
        }
    }
}

/// A calendar year, the key of the archive pages.
#[derive(Clone, Copy, Debug, PartialEq, Eq, PartialOrd, Ord, Hash, Structural)]
pub struct Year(pub i32);

/// No two articles share an identifier.
pub open spec fn unique_ids(arts: Seq<Article>) -> bool {
    forall|i: int, j: int|
        0 <= i < arts.len() && 0 <= j < arts.len() && i != j ==> #[trigger] arts[i].id@
            != #[trigger] arts[j].id@
}

/// No two entries share a key.
pub open spec fn unique_keys(m: Seq<(Id, Id)>) -> bool {
    forall|i: int, j: int|
        0 <= i < m.len() && 0 <= j < m.len() && i != j ==> #[trigger] m[i].0@ != #[trigger] m[j].0@
}

/// Every entry maps to an identifier that is not empty.
pub open spec fn nonempty_owners(m: Seq<(Id, Id)>) -> bool {
    forall|k: int| 0 <= k < m.len() ==> (#[trigger] m[k]).1@.len() > 0
}

/// The article with identifier `id`.
pub open spec fn lookup(arts: Seq<Article>, id: Seq<char>) -> Option<Article> {
    if exists|k: int| 0 <= k < arts.len() && #[trigger] arts[k].id@ == id {
        Some(arts[choose|k: int| 0 <= k < arts.len() && #[trigger] arts[k].id@ == id])
    } else {
        None
    }
}

/// The identifier that sub-identifier `s` maps to.
pub open spec fn owner(m: Seq<(Id, Id)>, s: Seq<char>) -> Option<Seq<char>> {
    if exists|k: int| 0 <= k < m.len() && #[trigger] m[k].0@ == s {
        Some(m[choose|k: int| 0 <= k < m.len() && #[trigger] m[k].0@ == s].1@)
    } else {
        None
    }
}

/// The last article of `s` with identifier `id`.
pub open spec fn latest_with_id(s: Seq<Article>, id: Seq<char>) -> Option<Article>
    decreases s.len(),
{
    if s.len() == 0 {
        None
    } else if s.last().id@ == id {
        Some(s.last())
    } else {
        latest_with_id(s.drop_last(), id)
    }
}

/// The identifier of the last article of `s` that holds sub-identifier `sub`.
pub open spec fn latest_owner(s: Seq<Article>, sub: Seq<char>) -> Option<Seq<char>>
    decreases s.len(),
{
    if s.len() == 0 {
        None
    } else if ids_view(s.last().subids@).contains(sub) {
        Some(s.last().id@)
    } else {
        latest_owner(s.drop_last(), sub)
    }
}

/// The latest effective timestamp over `s`.
pub open spec fn max_effective(s: Seq<Article>) -> Option<DateTime>
    decreases s.len(),
{
    if s.len() == 0 {
        None
    } else {
        let e = effective(s.last());
        match max_effective(s.drop_last()) {
            None => Some(e),
            Some(m) => Some(later_of(m, e)),
        }
    }
}

/// With unique identifiers, each article is what its identifier looks up.
pub proof fn lemma_lookup(arts: Seq<Article>, k: int)
    requires
        unique_ids(arts),
        0 <= k < arts.len(),
    ensures
        lookup(arts, arts[k].id@) == Some(arts[k]),
{
    let id = arts[k].id@;
    assert(arts[k].id@ == id);
}

/// With unique keys, each entry is what its key looks up.
pub proof fn lemma_owner(m: Seq<(Id, Id)>, k: int)
    requires
        unique_keys(m),
        0 <= k < m.len(),
    ensures
        owner(m, m[k].0@) == Some(m[k].1@),
{
    let s = m[k].0@;
    assert(m[k].0@ == s);
}

/// The articles of a site, keyed by identifier, with the map from
/// sub-identifiers to the identifier of the article that holds them.
pub struct Site {
    pub name: String,
    pub url: Option<String>,
    pub feed: bool,
    pub articles: Vec<Article>,
    pub subid_to_articleid_map: Vec<(Id, Id)>,
    pub last_update: Option<DateTime>,
    /// How many documents were loaded.
    pub docs: usize,
    /// Every article inserted, in order.
    pub ingested: Ghost<Seq<Article>>,
}

impl Site {
    pub open spec fn wf(&self) -> bool {
        &&& unique_ids(self.articles@)
        &&& unique_keys(self.subid_to_articleid_map@)
        &&& nonempty_owners(self.subid_to_articleid_map@)
        &&& forall|k: int| 0 <= k < self.articles@.len() ==> (#[trigger] self.articles@[k]).wf()
        &&& self.last_update == max_effective(self.ingested@)
        &&& forall|id: Seq<char>| #[trigger] lookup(self.articles@, id) == latest_with_id(self.ingested@, id)
        &&& forall|s: Seq<char>|
            #[trigger] owner(self.subid_to_articleid_map@, s) == latest_owner(self.ingested@, s)
    }

    pub fn new(name: String, url: Option<String>, feed: bool) -> (r: Site)
        ensures
            r.wf(),
            r.name == name,
            r.url == url,
            r.feed == feed,
            r.articles@.len() == 0,
            r.subid_to_articleid_map@.len() == 0,
            r.last_update is None,
            r.docs == 0,
            r.ingested@.len() == 0,
    {
        Site {
            name,
            url,
            feed,
            articles: Vec::new(),
            subid_to_articleid_map: Vec::new(),
            last_update: None,
            docs: 0,
            ingested: Ghost(Seq::empty()),
        }
    }

    /// Where the article with identifier `id` stands.
    pub fn article_index(&self, id: &Id) -> (r: Option<usize>)
        ensures
            r matches Some(k) ==> k < self.articles@.len() && self.articles@[k as int].id@ == id@,
            r is None ==> lookup(self.articles@, id@) is None,
    {
        position_of_id(&self.articles, id)
    }

    /// The identifier of the article that holds sub-identifier `s`.
    pub fn article_of_subid(&self, s: &Id) -> (r: Option<Id>)
        requires
            self.wf(),
        ensures
            r matches Some(o) ==> owner(self.subid_to_articleid_map@, s@) == Some(o@) && o@.len()
                > 0,
            r is None ==> owner(self.subid_to_articleid_map@, s@) is None,
    {
        match position_of_key(&self.subid_to_articleid_map, s) {
            Some(k) => {
                proof {
                    lemma_owner(self.subid_to_articleid_map@, k as int);
                }
                Some(self.subid_to_articleid_map[k].1.clone())
            },
            None => None,
        }
    }
}

/// Where the entry for key `s` stands.
fn position_of_key(m: &Vec<(Id, Id)>, s: &Id) -> (r: Option<usize>)
    ensures
        r matches Some(k) ==> k < m@.len() && m@[k as int].0@ == s@,
        r is None ==> forall|j: int| 0 <= j < m@.len() ==> #[trigger] m@[j].0@ != s@,
{
    let mut k: usize = 0;
    while k < m.len()
        invariant
            k <= m@.len(),
            forall|j: int| 0 <= j < k ==> #[trigger] m@[j].0@ != s@,
        decreases m@.len() - k,
    {
        if m[k].0.same(s) {
            return Some(k);
        }
        k = k + 1;
    }
    None
}

/// Where the article with identifier `id` stands.
fn position_of_id(arts: &Vec<Article>, id: &Id) -> (r: Option<usize>)
    ensures
        r matches Some(k) ==> k < arts@.len() && arts@[k as int].id@ == id@,
        r is None ==> forall|j: int| 0 <= j < arts@.len() ==> #[trigger] arts@[j].id@ != id@,
{
    let mut k: usize = 0;
    while k < arts.len()
        invariant
            k <= arts@.len(),
            forall|j: int| 0 <= j < k ==> #[trigger] arts@[j].id@ != id@,
        decreases arts@.len() - k,
    {
        if arts[k].id.same(id) {
            return Some(k);
        }
        k = k + 1;
    }
    None
}

/// Maps sub-identifier `s` to `o`, replacing an earlier entry for `s`.
fn set_owner(m: &mut Vec<(Id, Id)>, s: Id, o: Id)
    requires
        unique_keys(old(m)@),
        nonempty_owners(old(m)@),
        o@.len() > 0,
    ensures
        unique_keys(final(m)@),
        nonempty_owners(final(m)@),
        forall|t: Seq<char>|
            #[trigger] owner(final(m)@, t) == if t == s@ {
                Some(o@)
            } else {
                owner(old(m)@, t)
            },
{
    let ghost om = m@;
    let ghost sv = s@;
    let ghost ov = o@;
    let pos = position_of_key(m, &s);
    if let Some(k) = pos {
        m.set(k, (s, o));
        assert(unique_keys(m@)) by {
            assert forall|i: int, j: int|
                0 <= i < m@.len() && 0 <= j < m@.len() && i != j implies #[trigger] m@[i].0@
                != #[trigger] m@[j].0@ by {
                assert(om[i].0@ != om[j].0@);
            }
        }
        assert forall|t: Seq<char>| #[trigger] owner(m@, t) == if t == sv {
            Some(ov)
        } else {
            owner(om, t)
        } by {
            if t == sv {
                lemma_owner(m@, k as int);
            } else if exists|j: int| 0 <= j < om.len() && #[trigger] om[j].0@ == t {
                let j = choose|j: int| 0 <= j < om.len() && #[trigger] om[j].0@ == t;
                lemma_owner(om, j);
                lemma_owner(m@, j);
            } else {
                assert forall|j: int| 0 <= j < m@.len() implies #[trigger] m@[j].0@ != t by {
                    if j != k {
                        assert(om[j].0@ != t);
                    }
                }
            }
        }
    } else {
        m.push((s, o));
        assert(unique_keys(m@)) by {
            assert forall|i: int, j: int|
                0 <= i < m@.len() && 0 <= j < m@.len() && i != j implies #[trigger] m@[i].0@
                != #[trigger] m@[j].0@ by {
                if i < om.len() && j < om.len() {
                    assert(om[i].0@ != om[j].0@);
                }
            }
        }
        assert forall|t: Seq<char>| #[trigger] owner(m@, t) == if t == sv {
            Some(ov)
        } else {
            owner(om, t)
        } by {
            if t == sv {
                lemma_owner(m@, om.len() as int);
            } else if exists|j: int| 0 <= j < om.len() && #[trigger] om[j].0@ == t {
                let j = choose|j: int| 0 <= j < om.len() && #[trigger] om[j].0@ == t;
                lemma_owner(om, j);
                lemma_owner(m@, j);
            } else {
                assert forall|j: int| 0 <= j < m@.len() implies #[trigger] m@[j].0@ != t by {
                    if j < om.len() {
                        assert(om[j].0@ != t);
                    }
                }
            }
        }
    }
}

/// Puts `a` in place of the article with its identifier, or adds it.
fn put_article(arts: &mut Vec<Article>, a: Article)
    requires
        unique_ids(old(arts)@),
        forall|k: int| 0 <= k < old(arts)@.len() ==> (#[trigger] old(arts)@[k]).wf(),
        a.wf(),
    ensures
        unique_ids(final(arts)@),
        forall|k: int| 0 <= k < final(arts)@.len() ==> (#[trigger] final(arts)@[k]).wf(),
        forall|id: Seq<char>|
            #[trigger] lookup(final(arts)@, id) == if id == a.id@ {
                Some(a)
            } else {
                lookup(old(arts)@, id)
            },
{
    let ghost om = arts@;
    let ghost av = a;
    let pos = position_of_id(arts, &a.id);
    if let Some(k) = pos {
        arts.set(k, a);
        assert(unique_ids(arts@)) by {
            assert forall|i: int, j: int|
                0 <= i < arts@.len() && 0 <= j < arts@.len() && i != j implies #[trigger] arts@[i].id@
                != #[trigger] arts@[j].id@ by {
                assert(om[i].id@ != om[j].id@);
            }
        }
        assert forall|id: Seq<char>| #[trigger] lookup(arts@, id) == if id == av.id@ {
            Some(av)
        } else {
            lookup(om, id)
        } by {
            if id == av.id@ {
                lemma_lookup(arts@, k as int);
            } else if exists|j: int| 0 <= j < om.len() && #[trigger] om[j].id@ == id {
                let j = choose|j: int| 0 <= j < om.len() && #[trigger] om[j].id@ == id;
                lemma_lookup(om, j);
                lemma_lookup(arts@, j);
            } else {
                assert forall|j: int| 0 <= j < arts@.len() implies #[trigger] arts@[j].id@ != id by {
                    if j != k {
                        assert(om[j].id@ != id);
                    }
                }
            }
        }
    } else {
        arts.push(a);
        assert(unique_ids(arts@)) by {
            assert forall|i: int, j: int|
                0 <= i < arts@.len() && 0 <= j < arts@.len() && i != j implies #[trigger] arts@[i].id@
                != #[trigger] arts@[j].id@ by {
                if i < om.len() && j < om.len() {
                    assert(om[i].id@ != om[j].id@);
                }
            }
        }
        assert forall|id: Seq<char>| #[trigger] lookup(arts@, id) == if id == av.id@ {
            Some(av)
        } else {
            lookup(om, id)
        } by {
            if id == av.id@ {
                lemma_lookup(arts@, om.len() as int);
            } else if exists|j: int| 0 <= j < om.len() && #[trigger] om[j].id@ == id {
                let j = choose|j: int| 0 <= j < om.len() && #[trigger] om[j].id@ == id;
                lemma_lookup(om, j);
                lemma_lookup(arts@, j);
            } else {
                assert forall|j: int| 0 <= j < arts@.len() implies #[trigger] arts@[j].id@ != id by {
                    if j < om.len() {
                        assert(om[j].id@ != id);
                    }
                }
            }
        }
    }
}

/// Maps every sub-identifier of `subids` to `o`.
fn register_subids(m: &mut Vec<(Id, Id)>, subids: &Vec<Id>, o: &Id)
    requires
        unique_keys(old(m)@),
        nonempty_owners(old(m)@),
        o@.len() > 0,
    ensures
        unique_keys(final(m)@),
        nonempty_owners(final(m)@),
        forall|s: Seq<char>|
            #[trigger] owner(final(m)@, s) == if ids_view(subids@).contains(s) {
                Some(o@)
            } else {
                owner(old(m)@, s)
            },
{
    let ghost om = m@;
    let mut k: usize = 0;
    while k < subids.len()
        invariant
            unique_keys(m@),
            nonempty_owners(m@),
            o@.len() > 0,
            k <= subids@.len(),
            forall|s: Seq<char>|
                #[trigger] owner(m@, s) == if ids_view(subids@.subrange(0, k as int)).contains(s) {
                    Some(o@)
                } else {
                    owner(om, s)
                },
        decreases subids@.len() - k,
    {
        let ghost prev = ids_view(subids@.subrange(0, k as int));
        let ghost next = ids_view(subids@.subrange(0, k + 1));
        assert(next =~= prev.push(subids@[k as int]@));
        assert forall|s: Seq<char>| #[trigger] next.contains(s) <==> (prev.contains(s) || s
            == subids@[k as int]@) by {
            if prev.contains(s) {
                let j = choose|j: int| 0 <= j < prev.len() && prev[j] == s;
                assert(next[j] == s);
            }
            if s == subids@[k as int]@ {
                assert(next[k as int] == s);
            }
            if next.contains(s) {
                let j = choose|j: int| 0 <= j < next.len() && next[j] == s;
                if j < k {
                    assert(prev[j] == s);
                }
            }
        }
        set_owner(m, subids[k].clone(), o.clone());
        k = k + 1;
    }
    assert(subids@.subrange(0, subids@.len() as int) =~= subids@);
}

impl Site {
    /// Adds an article. An earlier article with the same identifier, and
    /// earlier owners of its sub-identifiers, give way to it.
    pub fn insert(&mut self, a: Article)
        requires
            old(self).wf(),
            a.wf(),
        ensures
            final(self).wf(),
            final(self).ingested@ == old(self).ingested@.push(a),
            final(self).name == old(self).name,
            final(self).url == old(self).url,
            final(self).feed == old(self).feed,
            final(self).docs == old(self).docs,
            forall|id: Seq<char>|
                #[trigger] lookup(final(self).articles@, id) == if id == a.id@ {
                    Some(a)
                } else {
                    lookup(old(self).articles@, id)
                },
            forall|s: Seq<char>|
                #[trigger] owner(final(self).subid_to_articleid_map@, s) == if ids_view(
                    a.subids@,
                ).contains(s) {
                    Some(a.id@)
                } else {
                    owner(old(self).subid_to_articleid_map@, s)
                },
            final(self).last_update == Some(
                match old(self).last_update {
                    None => effective(a),
                    Some(m) => later_of(m, effective(a)),
                },
            ),
    {
        register_subids(&mut self.subid_to_articleid_map, &a.subids, &a.id);
        let e = a.effective_timestamp();
        self.last_update = match self.last_update {
            None => Some(e),
            Some(m) => if m.is_before(&e) {
                Some(e)
            } else {
                Some(m)
            },
        };
        proof {
            assert(self.ingested@.push(a).drop_last() =~= self.ingested@);
        }
        self.ingested = Ghost(self.ingested@.push(a));
        put_article(&mut self.articles, a);
    }
}

impl Site {
    /// Extracts the articles of one document, in document order, and adds
    /// them under the next document number.
    pub fn load_org_data(&mut self, doc: &OrgDoc) -> (r: LoadReport)
        requires
            old(self).wf(),
            old(self).docs < usize::MAX,
        ensures
            ({
                let hs = doc.headlines@;
                let n = old(self).ingested@.len();
                &&& final(self).wf()
                &&& final(self).docs == old(self).docs + 1
                &&& final(self).name == old(self).name
                &&& final(self).url == old(self).url
                &&& final(self).feed == old(self).feed
                &&& notices_view(r.notices@) == notices_upto(hs, hs.len() as int)
                &&& r.articles@ == articles_upto(hs, hs.len() as int)
                &&& r.private@ == private_upto(hs, hs.len() as int)
                &&& final(self).ingested@.len() == n + r.articles@.len()
                &&& final(self).ingested@.subrange(0, n as int) == old(self).ingested@
                &&& forall|m: int|
                    0 <= m < r.articles@.len() ==> article_of(
                        hs,
                        r.articles@[m] as int,
                        old(self).docs,
                        #[trigger] final(self).ingested@[n + m],
                    )
            }),
    {
        let docno = self.docs;
        let ghost hs = doc.headlines@;
        let ghost n = self.ingested@.len();
        let mut notices: Vec<Notice> = Vec::new();
        let mut articles: Vec<usize> = Vec::new();
        let mut private: Vec<usize> = Vec::new();
        assert(self.ingested@.subrange(0, n as int) =~= self.ingested@);
        let mut i: usize = 0;
        while i < doc.headlines.len()
            invariant
                hs == doc.headlines@,
                i <= hs.len(),
                self.wf(),
                docno == old(self).docs,
                self.docs == old(self).docs,
                self.name == old(self).name,
                self.url == old(self).url,
                self.feed == old(self).feed,
                n == old(self).ingested@.len(),
                notices_view(notices@) == notices_upto(hs, i as int),
                articles@ == articles_upto(hs, i as int),
                private@ == private_upto(hs, i as int),
                self.ingested@.len() == n + articles@.len(),
                self.ingested@.subrange(0, n as int) == old(self).ingested@,
                forall|m: int|
                    0 <= m < articles@.len() ==> article_of(
                        hs,
                        articles@[m] as int,
                        docno,
                        #[trigger] self.ingested@[n + m],
                    ),
            decreases hs.len() - i,
        {
            let ghost before_ingested = self.ingested@;
            let ghost before_notices = notices@;
            match load_article(doc, i, docno) {
                Loaded::Skipped => {},
                Loaded::Rejected(note) => {
                    notices.push(note);
                    assert(notices_view(notices@) =~= notices_view(before_notices).push(
                        (note.kind, note.title@),
                    ));
                },
                Loaded::Accepted(a, p) => {
                    let ghost av = a;
                    self.insert(a);
                    articles.push(i);
                    let mut k: usize = 0;
                    let ghost base = private@;
                    while k < p.len()
                        invariant
                            k <= p@.len(),
                            private@ == base + p@.subrange(0, k as int),
                        decreases p@.len() - k,
                    {
                        private.push(p[k]);
                        assert(p@.subrange(0, k + 1) =~= p@.subrange(0, k as int).push(p@[k as int]));
                        assert(private@ =~= base + p@.subrange(0, k + 1));
                        k = k + 1;
                    }
                    assert(p@.subrange(0, p@.len() as int) =~= p@);
                    assert(self.ingested@.subrange(0, n as int) =~= before_ingested.subrange(
                        0,
                        n as int,
                    ));
                    assert(self.ingested@[n + articles@.len() - 1] == av);
                    assert forall|m: int|
                        0 <= m < articles@.len() implies article_of(
                        hs,
                        articles@[m] as int,
                        docno,
                        #[trigger] self.ingested@[n + m],
                    ) by {
                        if m < articles@.len() - 1 {
                            assert(self.ingested@[n + m] == before_ingested[n + m]);
                        }
                    }
                },
            }
            i = i + 1;
        }
        self.docs = docno + 1;
        LoadReport { notices, articles, private }
    }
}

/// Article `id` of site `s` is in the bucket of year `y`.
pub open spec fn in_year(s: Site, y: Year, id: Seq<char>) -> bool {
    lookup(s.articles@, id) matches Some(a) && a.published.year == y.0
}

/// An article, once inserted, is found under its identifier and in the
/// bucket of the year it was published, and in no other bucket.
pub proof fn lemma_inserted_article_placed(s1: Site, a: Article, s2: Site)
    requires
        forall|id: Seq<char>|
            #[trigger] lookup(s2.articles@, id) == if id == a.id@ {
                Some(a)
            } else {
                lookup(s1.articles@, id)
            },
    ensures
        lookup(s2.articles@, a.id@) == Some(a),
        in_year(s2, Year(a.published.year), a.id@),
        forall|y: Year| y != Year(a.published.year) ==> !in_year(s2, y, a.id@),
{
    assert(lookup(s2.articles@, a.id@) == Some(a));
}

/// The latest update of a site is the latest effective timestamp of all
/// the articles inserted into it.
pub proof fn lemma_last_update_is_max(s: Site)
    requires
        s.wf(),
    ensures
        s.last_update is None <==> s.ingested@.len() == 0,
        s.last_update matches Some(m) ==> (forall|k: int|
            0 <= k < s.ingested@.len() ==> !before(m, effective(#[trigger] s.ingested@[k])))
            && exists|k: int| 0 <= k < s.ingested@.len() && effective(#[trigger] s.ingested@[k]) == m,
{
    lemma_max_effective(s.ingested@);
}

/// `max_effective` is a maximum: no article is later, and one reaches it.
pub proof fn lemma_max_effective(v: Seq<Article>)
    ensures
        max_effective(v) is None <==> v.len() == 0,
        max_effective(v) matches Some(m) ==> (forall|k: int|
            0 <= k < v.len() ==> !before(m, effective(#[trigger] v[k]))) && exists|k: int|
            0 <= k < v.len() && effective(#[trigger] v[k]) == m,
    decreases v.len(),
{
    if v.len() > 0 {
        let w = v.drop_last();
        lemma_max_effective(w);
        assert forall|k: int| 0 <= k < w.len() implies #[trigger] v[k] == w[k] by {}
        let e = effective(v.last());
        match max_effective(w) {
            None => {
                assert(effective(v[v.len() - 1]) == e);
            },
            Some(m) => {
                let k0 = choose|k: int| 0 <= k < w.len() && effective(#[trigger] w[k]) == m;
                assert(v[k0] == w[k0]);
                assert(effective(v[v.len() - 1]) == e);
                assert forall|k: int| 0 <= k < v.len() implies !before(
                    later_of(m, e),
                    effective(#[trigger] v[k]),
                ) by {
                    if k < w.len() {
                        assert(v[k] == w[k]);
                    }
                }
            },
        }
    }
}

} // verus!
