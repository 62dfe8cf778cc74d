use vstd::prelude::*;

use crate::errors::AppError;
use crate::store::{clone_page, pages_view, PublishedPage, PublishedPageView};

verus! {

/// One entry of the secondary navigation list: title and slug only.
#[derive(Debug, Clone)]
pub struct Link {
    pub title: String,
    pub slug: String,
}

pub struct LinkView {
    pub title: Seq<char>,
    pub slug: Seq<char>,
}

impl View for Link {
    type V = LinkView;

    open spec fn view(&self) -> LinkView {
        LinkView { title: self.title@, slug: self.slug@ }
    }
}

pub open spec fn link_of(p: PublishedPageView) -> LinkView {
    LinkView { title: p.frontmatter.title, slug: p.frontmatter.slug }
}

pub open spec fn links_view(s: Seq<Link>) -> Seq<LinkView> {
    s.map_values(|l: Link| l@)
}

/// What the Home View hands to the renderer: the homepage item and the
/// navigation links of the remaining pages.
#[derive(Debug)]
pub struct HomeData {
    pub homepage: PublishedPage,
    pub links: Vec<Link>,
}

/// Home View selection: position 0 of the index is the homepage item and
/// is excluded from the secondary list; an empty index fails with
/// `NoPublishedContent`.
pub fn home_view(pages: &Vec<PublishedPage>) -> (r: Result<HomeData, AppError>)
    ensures
        match r {
            Ok(h) => pages@.len() > 0 && h.homepage@ == pages_view(pages@)[0] && links_view(
                h.links@,
            ) == pages_view(pages@).skip(1).map_values(|p: PublishedPageView| link_of(p)),
            Err(e) => pages@.len() == 0 && e == AppError::NoPublishedContent,
        },
{
    if pages.len() == 0 {
        return Err(AppError::NoPublishedContent);
    }
    let homepage = clone_page(&pages[0]);
    let mut links: Vec<Link> = Vec::new();
    let mut i: usize = 1;
    let ghost pv = pages_view(pages@);
    let ghost lf = |p: PublishedPageView| link_of(p);
    proof {
        assert(links_view(links@) =~= pv.subrange(1, 1).map_values(lf));
    }
    while i < pages.len()
        invariant
            1 <= i <= pages@.len(),
            pv == pages_view(pages@),
            lf == (|p: PublishedPageView| link_of(p)),
            links_view(links@) == pv.subrange(1, i as int).map_values(lf),
        decreases pages@.len() - i,
    {
        let ghost old_links = links@;
        links.push(
            Link {
                title: pages[i].frontmatter.title.clone(),
                slug: pages[i].frontmatter.slug.clone(),
            },
        );
        proof {
            assert(links_view(links@) =~= links_view(old_links).push(link_of(pv[i as int])));
            assert(pv.subrange(1, i as int).push(pv[i as int]) =~= pv.subrange(1, i + 1));
            assert(pv.subrange(1, i as int).map_values(lf).push(lf(pv[i as int])) =~= pv.subrange(
                1,
                i + 1,
            ).map_values(lf));
        }
        i += 1;
    }
    proof {
        assert(pv.subrange(1, i as int) =~= pv.skip(1));
    }
    Ok(HomeData { homepage, links })
}

} // verus!
