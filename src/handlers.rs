//! Rendering decisions for the nodes that refer to other pages: links,
//! headings and footnotes.

use std::rc::Rc;
use vstd::prelude::*;
use crate::site::{get_id, id_to_path, lookup, owner, path_of, Id, Site};
use crate::text::{has_prefix, starts_with, str_eq};

verus! {

/// Whether `url::Url::parse` refuses `s` as a relative URL without a base.
pub uninterp spec fn relative_without_base(s: Seq<char>) -> bool;

/// Relies on `url::Url::parse`: whether it fails with
/// `ParseError::RelativeUrlWithoutBase`, which depends on the text alone.
#[verifier::external_body]
fn is_relative_without_base(s: &str) -> (r: bool)
    ensures
        r == relative_without_base(s@),
{
    matches!(url::Url::parse(s), Err(url::ParseError::RelativeUrlWithoutBase))
}

/// What a link becomes, as text.
pub ghost enum LinkView {
    Anchor(Seq<char>, Seq<char>),
    Missing(Seq<char>, Seq<char>),
    Image(Seq<char>),
    Delegate(Seq<char>),
}

/// What a link becomes.
pub enum LinkHtml {
    /// `<a href="{href}">{text}</a>`.
    Anchor { href: String, text: String },
    /// The identifier `id` is unknown: only `text` is written, and a
    /// diagnostic names `id`.
    Missing { id: String, text: String },
    /// `<a href="{src}"><img src="{src}"></a>`.
    Image { src: String },
    /// The base renderer writes the link, with `path` as its target.
    Delegate { path: String },
}

impl View for LinkHtml {
    type V = LinkView;

    open spec fn view(&self) -> LinkView {
        match self {
            LinkHtml::Anchor { href, text } => LinkView::Anchor(href@, text@),
            LinkHtml::Missing { id, text } => LinkView::Missing(id@, text@),
            LinkHtml::Image { src } => LinkView::Image(src@),
            LinkHtml::Delegate { path } => LinkView::Delegate(path@),
        }
    }
}

/// An image extension.
pub open spec fn image_extension(e: Seq<char>) -> bool {
    e == "jpeg"@ || e == "jpg"@ || e == "png"@ || e == "svg"@
}

/// The last path segment of `s` holds a `.`, and what follows its last
/// `.` is an image extension.
pub open spec fn is_image(s: Seq<char>) -> bool {
    exists|k: int|
        0 <= k < s.len() && #[trigger] s[k] == '.' && (forall|j: int|
            k < j < s.len() ==> s[j] != '.' && s[j] != '/') && image_extension(
            s.subrange(k + 1, s.len() as int),
        )
}

/// Whether `s` names an image file.
pub fn has_image_extension(s: &str) -> (r: bool)
    ensures
        r == is_image(s@),
{
    let n = s.unicode_len();
    let mut j: usize = n;
    while j > 0 && s.get_char(j - 1) != '.' && s.get_char(j - 1) != '/'
        invariant
            n == s@.len(),
            j <= n,
            forall|m: int| j <= m < n ==> s@[m] != '.' && s@[m] != '/',
        decreases j,
    {
        j = j - 1;
    }
    if j > 0 && s.get_char(j - 1) == '.' {
        let e = s.substring_char(j, n);
        let r = str_eq(e, "jpeg") || str_eq(e, "jpg") || str_eq(e, "png") || str_eq(e, "svg");
        proof {
            let k = j - 1;
            assert(s@[k as int] == '.');
            if !r {
                assert forall|k2: int|
                    0 <= k2 < s@.len() && #[trigger] s@[k2] == '.' && (forall|m: int|
                        k2 < m < s@.len() ==> s@[m] != '.' && s@[m] != '/') implies !image_extension(
                    s@.subrange(k2 + 1, s@.len() as int),
                ) by {
                    if k2 < k {
                        assert(s@[k as int] == '.');
                    }
                }
            }
        }
        r
    } else {
        proof {
            assert forall|k2: int|
                0 <= k2 < s@.len() && #[trigger] s@[k2] == '.' implies !(forall|m: int|
                k2 < m < s@.len() ==> s@[m] != '.' && s@[m] != '/') by {
                if k2 < j - 1 {
                    assert(s@[j - 1] == '/');
                }
            }
        }
        false
    }
}

/// A link to a target outside this site, or a relative one: a relative
/// target without a scheme is put after `base`; an image becomes a
/// thumbnail.
pub open spec fn external_view(base: Seq<char>, target: Seq<char>, relative: bool) -> LinkView {
    let t = if relative {
        base + target
    } else {
        target
    };
    if is_image(t) {
        LinkView::Image(t)
    } else {
        LinkView::Delegate(t)
    }
}

/// What a link to `target` becomes, where `relative` tells whether the
/// target is a relative URL without a base.
pub fn external_link(base: &str, target: &str, relative: bool) -> (r: LinkHtml)
    ensures
        r@ == external_view(base@, target@, relative),
{
    let mut t = String::from_str(base);
    if relative {
        t.append(target);
    } else {
        t = String::from_str(target);
    }
    if has_image_extension(t.as_str()) {
        LinkHtml::Image { src: t }
    } else {
        LinkHtml::Delegate { path: t }
    }
}

pub open spec fn text_of(path: Seq<char>, desc: Option<Seq<char>>) -> Seq<char> {
    match desc {
        Some(d) => d,
        None => path,
    }
}

/// What a link with target `path` and description `desc` becomes.
pub open spec fn link_view(site: Site, base: Seq<char>, path: Seq<char>, desc: Option<Seq<char>>) -> LinkView
    decreases path.len(),
{
    if starts_with(path, "id:"@) {
        let id = path.subrange(3, path.len() as int);
        let text = text_of(path, desc);
        if lookup(site.articles@, id) is Some {
            LinkView::Anchor(base + path_of(id), text)
        } else if owner(site.subid_to_articleid_map@, id) is Some {
            LinkView::Anchor(
                base + path_of(owner(site.subid_to_articleid_map@, id)->0) + "#"@ + id,
                text,
            )
        } else {
            LinkView::Missing(id, text)
        }
    } else if starts_with(path, "file:"@) && path.len() >= 5 {
        link_view(site, base, path.subrange(5, path.len() as int), desc)
    } else {
        external_view(base, path, relative_without_base(path))
    }
}

/// A link to `id:x` becomes an anchor to the page of article `x` where
/// there is one; else an anchor to the fragment `x` of the page of the
/// article that holds `x`; else only its text, with a diagnostic for `x`.
pub proof fn lemma_id_link(site: Site, base: Seq<char>, x: Seq<char>, desc: Option<Seq<char>>)
    ensures
        ({
            let path = "id:"@ + x;
            let text = text_of(path, desc);
            let m = site.subid_to_articleid_map@;
            &&& lookup(site.articles@, x) is Some ==> link_view(site, base, path, desc)
                == LinkView::Anchor(base + path_of(x), text)
            &&& lookup(site.articles@, x) is None && owner(m, x) is Some ==> link_view(
                site,
                base,
                path,
                desc,
            ) == LinkView::Anchor(base + path_of(owner(m, x)->0) + "#"@ + x, text)
            &&& lookup(site.articles@, x) is None && owner(m, x) is None ==> link_view(
                site,
                base,
                path,
                desc,
            ) == LinkView::Missing(x, text)
        }),
{
    reveal_strlit("id:");
    let path = "id:"@ + x;
    assert(path.subrange(0, 3) =~= "id:"@);
    assert(path.subrange(3, path.len() as int) =~= x);
}

pub open spec fn opt_view(d: Option<&str>) -> Option<Seq<char>> {
    match d {
        Some(s) => Some(s@),
        None => None,
    }
}

/// The renderer of the nodes that refer to other pages of a site. The
/// links it writes start with `base`.
pub struct ImoHtmlHandler {
    pub site: Rc<Site>,
    pub base: String,
}

impl ImoHtmlHandler {
    pub fn new(site: Rc<Site>, base: String) -> (r: ImoHtmlHandler)
        ensures
            r.site == site,
            r.base == base,
    {
        ImoHtmlHandler { site, base }
    }

    pub fn set_base(&mut self, base: String)
        ensures
            final(self).base == base,
            final(self).site == old(self).site,
    {
        self.base = base;
    }

    /// What a link with target `path` and description `desc` becomes.
    pub fn link(&self, path: &str, desc: Option<&str>) -> (r: LinkHtml)
        requires
            self.site.wf(),
        ensures
            r@ == link_view(*self.site, self.base@, path@, opt_view(desc)),
        decreases path@.len(),
    {
        let site: &Site = &self.site;
        proof {
            reveal_strlit("id:");
            reveal_strlit("file:");
        }
        if has_prefix(path, "id:") {
            let n = path.unicode_len();
            let id = Id::new(String::from_str(path.substring_char(3, n)));
            let text = match desc {
                Some(d) => String::from_str(d),
                None => String::from_str(path),
            };
            match site.article_index(&id) {
                Some(k) => {
                    proof {
                        crate::site::lemma_lookup(site.articles@, k as int);
                    }
                    let mut href = self.base.clone();
                    let p = id_to_path(&id);
                    href.append(p.as_str());
                    LinkHtml::Anchor { href, text }
                },
                None => match site.article_of_subid(&id) {
                    Some(o) => {
                        let mut href = self.base.clone();
                        let p = id_to_path(&o);
                        href.append(p.as_str());
                        href.append("#");
                        href.append(id.0.as_str());
                        LinkHtml::Anchor { href, text }
                    },
                    None => LinkHtml::Missing { id: id.to_string(), text },
                },
            }
        } else if has_prefix(path, "file:") {
            let n = path.unicode_len();
            self.link(path.substring_char(5, n), desc)
        } else {
            let relative = is_relative_without_base(path);
            external_link(self.base.as_str(), path, relative)
        }
    }
}

/// The level at which a heading of level `level` is written, inside an
/// article whose own headline has level `top`: the article's headline
/// at level 2, each level below it one more, at most 6.
pub open spec fn heading_level_spec(level: int, top: int) -> int {
    if 2 + level - top <= 6 {
        2 + level - top
    } else {
        6
    }
}

pub fn heading_level(level: usize, top: usize) -> (r: usize)
    requires
        top <= level,
    ensures
        r == heading_level_spec(level as int, top as int),
{
    let d = level - top;
    if d <= 4 {
        2 + d
    } else {
        6
    }
}

/// The fragment anchor of a heading: its identifier, if it has one.
pub fn heading_anchor(properties: &Vec<(String, String)>) -> (r: Option<String>)
    ensures
        r matches Some(s) ==> crate::site::id_prop(properties@) == Some(s@),
        r is None ==> crate::site::id_prop(properties@) is None,
{
    match get_id(properties) {
        Some(id) => Some(id.to_string()),
        None => None,
    }
}

/// A footnote definition or reference: its label in small brackets.
pub fn footnote_html(label: &str) -> (r: String)
    ensures
        r@ == "<small>["@ + label@ + "]</small>"@,
{
    let mut r = String::from_str("<small>[");
    r.append(label);
    r.append("]</small>");
    r
}

} // verus!
