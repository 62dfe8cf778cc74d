use vstd::prelude::*;

use crate::store::{page_wf, pages_view, pages_wf, PublishedPage, PublishedPageView};
use crate::time::{format_rfc3339_micros, rfc3339_text_of, ts_in_range};
use crate::xml::{
    concat_texts, el_add_attribute, el_add_child, el_add_text, el_new, elem_attrs, elem_kids,
    elem_name, elem_render, elem_text, escape_xml, new_xml_1_1_utf8, tabs, xml_generate,
    xml_set_root,
};

verus! {

/// One url record of the sitemap document.
#[derive(Debug, Clone)]
pub struct SitemapEntry {
    pub loc: String,
    pub lastmod: String,
}

pub struct SitemapEntryView {
    pub loc: Seq<char>,
    pub lastmod: Seq<char>,
}

impl View for SitemapEntry {
    type V = SitemapEntryView;

    open spec fn view(&self) -> SitemapEntryView {
        SitemapEntryView { loc: self.loc@, lastmod: self.lastmod@ }
    }
}

pub open spec fn entries_view(s: Seq<SitemapEntry>) -> Seq<SitemapEntryView> {
    s.map_values(|e: SitemapEntry| e@)
}

/// The site root URL.
pub open spec fn site_root() -> Seq<char> {
    "https://corybuecker.com"@
}

/// The effective last-modified timestamp of a page: `revised_at` if
/// present, else `published_at` if present, else the fallback time
/// (unreachable for an index the builder produced, and kept only
/// defensively).
pub open spec fn effective_lastmod(p: PublishedPageView, now: int) -> int {
    match p.frontmatter.revised_at {
        Some(t) => t,
        None => match p.frontmatter.published_at {
            Some(t) => t,
            None => now,
        },
    }
}

/// The location of entry `i`: the site root at position zero, the page's
/// slug below `/post/` after it.
pub open spec fn entry_loc(pv: Seq<PublishedPageView>, i: int) -> Seq<char> {
    if i == 0 {
        site_root()
    } else {
        site_root() + "/post/"@ + pv[i].frontmatter.slug
    }
}

/// The url records of a snapshot: one per indexed page, in index order.
pub open spec fn sitemap_entry_views(pv: Seq<PublishedPageView>, now: int) -> Seq<
    SitemapEntryView,
> {
    Seq::new(
        pv.len(),
        |i: int|
            SitemapEntryView {
                loc: entry_loc(pv, i),
                lastmod: rfc3339_text_of(effective_lastmod(pv[i], now)),
            },
    )
}

/// One url record per indexed page: as many entries as the index holds,
/// entry zero located at the site root, every further entry at
/// `{root}/post/{slug}`, each dated by `revised_at`, else `published_at`,
/// else the given fallback time.
pub fn sitemap_entries(pages: &Vec<PublishedPage>, now: i64) -> (r: Vec<SitemapEntry>)
    requires
        pages_wf(pages_view(pages@)),
        ts_in_range(now as int),
    ensures
        entries_view(r@) == sitemap_entry_views(pages_view(pages@), now as int),
        r@.len() == pages@.len(),
        forall|i: int|
            0 <= i < r@.len() ==> (#[trigger] entries_view(r@)[i]).loc == entry_loc(
                pages_view(pages@),
                i,
            ),
        forall|i: int|
            0 <= i < r@.len() ==> (#[trigger] entries_view(r@)[i]).lastmod == rfc3339_text_of(
                effective_lastmod(pages_view(pages@)[i], now as int),
            ),
{
    let ghost pv = pages_view(pages@);
    let ghost sev = sitemap_entry_views(pv, now as int);
    let mut out: Vec<SitemapEntry> = Vec::new();
    let mut i: usize = 0;
    proof {
        assert(entries_view(out@) =~= sev.take(0));
    }
    while i < pages.len()
        invariant
            0 <= i <= pages@.len(),
            pv == pages_view(pages@),
            sev == sitemap_entry_views(pv, now as int),
            pages_wf(pv),
            ts_in_range(now as int),
            entries_view(out@) == sev.take(i as int),
        decreases pages@.len() - i,
    {
        proof {
            assert(pv[i as int] == pages@[i as int]@);
            assert(page_wf(pv[i as int]));
        }
        let loc: String = if i == 0 {
            String::from_str("https://corybuecker.com")
        } else {
            let mut s = String::from_str("https://corybuecker.com");
            s.append("/post/");
            s.append(pages[i].frontmatter.slug.as_str());
            s
        };
        let t: i64 = match pages[i].frontmatter.revised_at {
            Some(tv) => tv,
            None => match pages[i].frontmatter.published_at {
                Some(tv) => tv,
                None => now,
            },
        };
        proof {
            assert(t as int == effective_lastmod(pv[i as int], now as int));
            assert(ts_in_range(t as int));
        }
        let lastmod: String = match format_rfc3339_micros(t) {
            Some(s) => s,
            None => {
                proof {
                    assert(false);
                }
                String::new()
            },
        };
        let ghost old_out = out@;
        out.push(SitemapEntry { loc, lastmod });
        proof {
            assert(entries_view(out@) =~= entries_view(old_out).push(
                SitemapEntryView { loc: loc@, lastmod: lastmod@ },
            ));
            assert(loc@ == entry_loc(pv, i as int));
            assert(SitemapEntryView { loc: loc@, lastmod: lastmod@ } == sev[i as int]);
            assert(sev.take(i as int).push(sev[i as int]) =~= sev.take(i + 1));
        }
        i += 1;
    }
    proof {
        assert(sev.take(i as int) =~= sev);
    }
    out
}

/// The rendering of one text element at level `l`.
pub open spec fn text_elem_render(name: Seq<char>, text: Seq<char>, l: int) -> Seq<char> {
    tabs(l) + seq!['<'] + name + seq!['>'] + text + seq!['<', '/'] + name + seq!['>', '\n']
}

/// The rendering of one url element at level `l`: its location and
/// last-modified children, one level deeper.
pub open spec fn url_render(e: SitemapEntryView, l: int) -> Seq<char> {
    tabs(l) + seq!['<'] + "url"@ + seq!['>', '\n'] + text_elem_render("loc"@, e.loc, l + 1)
        + text_elem_render("lastmod"@, e.lastmod, l + 1) + tabs(l) + seq!['<', '/'] + "url"@
        + seq!['>', '\n']
}

pub open spec fn url_renders(es: Seq<SitemapEntryView>, l: int) -> Seq<Seq<char>> {
    es.map_values(|e: SitemapEntryView| url_render(e, l))
}

pub open spec fn urlset_attrs() -> Seq<char> {
    seq![' '] + "xmlns"@ + seq!['=', '"'] + escape_xml(
        "http://www.sitemaps.org/schemas/sitemap/0.9"@,
    ) + seq!['"']
}

pub open spec fn sitemap_decl() -> Seq<char> {
    "<?xml version=\"1.1\" encoding=\"UTF-8\"?>\n"@
}

/// The complete sitemap document for the given url records: the XML 1.1
/// declaration and a `urlset` element in the sitemap namespace, holding
/// one `url` element per record; an empty index still yields a
/// well-formed document with a collapsed `urlset`.
pub open spec fn sitemap_xml_spec(es: Seq<SitemapEntryView>) -> Seq<char> {
    if es.len() == 0 {
        sitemap_decl() + seq!['<'] + "urlset"@ + urlset_attrs() + seq![' ', '/', '>', '\n']
    } else {
        sitemap_decl() + seq!['<'] + "urlset"@ + urlset_attrs() + seq!['>', '\n'] + concat_texts(
            url_renders(es, 1),
        ) + seq!['<', '/'] + "urlset"@ + seq!['>', '\n']
    }
}

/// Renders the sitemap document for the given url records.
pub fn sitemap_xml(entries: &Vec<SitemapEntry>) -> (r: String)
    ensures
        r@ == sitemap_xml_spec(entries_view(entries@)),
{
    let ghost ev = entries_view(entries@);
    let mut urlset = el_new("urlset");
    el_add_attribute(&mut urlset, "xmlns", "http://www.sitemaps.org/schemas/sitemap/0.9");
    proof {
        assert(elem_attrs(urlset) =~= urlset_attrs());
    }
    let mut i: usize = 0;
    proof {
        assert forall|l: int| elem_kids(urlset, l) =~= url_renders(ev.take(0), l) by {
            assert(ev.take(0) =~= Seq::<SitemapEntryView>::empty());
        }
    }
    while i < entries.len()
        invariant
            0 <= i <= entries@.len(),
            ev == entries_view(entries@),
            elem_name(urlset) == "urlset"@,
            elem_attrs(urlset) == urlset_attrs(),
            elem_text(urlset) is None,
            forall|l: int| elem_kids(urlset, l) == url_renders(ev.take(i as int), l),
        decreases entries@.len() - i,
    {
        proof {
            assert(ev[i as int] == entries@[i as int]@);
        }
        let mut url = el_new("url");
        let mut loc = el_new("loc");
        let ok_loc_text = el_add_text(&mut loc, entries[i].loc.clone());
        proof {
            assert(ok_loc_text);
        }
        let ok_loc = el_add_child(&mut url, loc);
        proof {
            assert(ok_loc);
        }
        let mut lastmod = el_new("lastmod");
        let ok_lastmod_text = el_add_text(&mut lastmod, entries[i].lastmod.clone());
        proof {
            assert(ok_lastmod_text);
        }
        let ok_lastmod = el_add_child(&mut url, lastmod);
        proof {
            assert(ok_lastmod);
        }
        proof {
            assert forall|l: int| elem_render(url, l) == url_render(ev[i as int], l) by {
                let kids = elem_kids(url, l + 1);
                assert(kids =~= seq![elem_render(loc, l + 1), elem_render(lastmod, l + 1)]);
                assert(kids.drop_first() =~= seq![elem_render(lastmod, l + 1)]);
                assert(concat_texts(Seq::<Seq<char>>::empty()) == Seq::<char>::empty());
                assert(seq![elem_render(lastmod, l + 1)].drop_first() =~= Seq::<Seq<char>>::empty());
                assert(concat_texts(seq![elem_render(lastmod, l + 1)]) =~= elem_render(
                    lastmod,
                    l + 1,
                ));
                assert(concat_texts(kids) == kids[0] + concat_texts(kids.drop_first()));
                assert(concat_texts(kids) =~= elem_render(loc, l + 1) + elem_render(
                    lastmod,
                    l + 1,
                ));
                assert(elem_render(loc, l + 1) =~= text_elem_render(
                    "loc"@,
                    ev[i as int].loc,
                    l + 1,
                ));
                assert(elem_render(lastmod, l + 1) =~= text_elem_render(
                    "lastmod"@,
                    ev[i as int].lastmod,
                    l + 1,
                ));
                assert(elem_render(url, l) =~= url_render(ev[i as int], l));
            }
        }
        let ok_url = el_add_child(&mut urlset, url);
        proof {
            assert(ok_url);
            assert forall|l: int| elem_kids(urlset, l) =~= url_renders(ev.take(i + 1), l) by {
                assert(elem_kids(urlset, l) == url_renders(ev.take(i as int), l).push(
                    elem_render(url, l),
                ));
                assert(ev.take(i as int).push(ev[i as int]) =~= ev.take(i + 1));
            }
        }
        i += 1;
    }
    proof {
        assert(ev.take(i as int) =~= ev);
    }
    let mut doc = new_xml_1_1_utf8();
    xml_set_root(&mut doc, urlset);
    let rendered = match xml_generate(doc) {
        Some(s) => s,
        None => {
            proof {
                assert(false);
            }
            String::new()
        },
    };
    proof {
        assert(tabs(0) =~= Seq::<char>::empty());
        if ev.len() == 0 {
            assert(elem_kids(urlset, 1).len() == 0);
            assert(elem_render(urlset, 0) =~= seq!['<'] + "urlset"@ + urlset_attrs() + seq![
                ' ',
                '/',
                '>',
                '\n',
            ]);
            assert(rendered@ =~= sitemap_xml_spec(ev));
        } else {
            assert(elem_kids(urlset, 1).len() > 0);
            assert(elem_render(urlset, 0) =~= seq!['<'] + "urlset"@ + urlset_attrs() + seq![
                '>',
                '\n',
            ] + concat_texts(url_renders(ev, 1)) + seq!['<', '/'] + "urlset"@ + seq!['>', '\n']);
            assert(rendered@ =~= sitemap_xml_spec(ev));
        }
    }
    rendered
}

/// Sitemap View: the complete document for a snapshot at call time.
pub fn sitemap_view(pages: &Vec<PublishedPage>, now: i64) -> (r: String)
    requires
        pages_wf(pages_view(pages@)),
        ts_in_range(now as int),
    ensures
        r@ == sitemap_xml_spec(sitemap_entry_views(pages_view(pages@), now as int)),
{
    let entries = sitemap_entries(pages, now);
    sitemap_xml(&entries)
}

} // verus!
