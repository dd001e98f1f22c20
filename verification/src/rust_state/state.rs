//! Links between the generated pages: one record per anchor found.

use vstd::prelude::*;

verus! {

/// One anchor of a generated page: the page it stands on, its target and
/// the text it shows.
#[derive(Debug)]
pub struct SiteLinks {
    pub path: String,
    pub href: String,
    pub disp: String,
}

/// The view of one link: `(path, href, disp)`.
pub type LinkView = (Seq<char>, Seq<char>, Seq<char>);

impl View for SiteLinks {
    type V = LinkView;

    open spec fn view(&self) -> LinkView {
        (self.path@, self.href@, self.disp@)
    }
}

impl Clone for SiteLinks {
    fn clone(&self) -> (res: Self)
        ensures
            res == *self,
    {
        SiteLinks { path: self.path.clone(), href: self.href.clone(), disp: self.disp.clone() }
    }
}

/// The links of a whole site, in the order in which they were added.
#[derive(Debug)]
pub struct VecSiteLinks {
    pub links: Vec<SiteLinks>,
}

impl View for VecSiteLinks {
    type V = Seq<LinkView>;

    open spec fn view(&self) -> Seq<LinkView> {
        self.links@.map_values(|l: SiteLinks| l@)
    }
}

impl Clone for VecSiteLinks {
    fn clone(&self) -> (res: Self)
        ensures
            res@ == self@,
    {
        let links = self.links.clone();
        assert(links@ =~= self.links@);
        VecSiteLinks { links }
    }
}

impl VecSiteLinks {
    /// A copy of the current list of links; the list itself is untouched.
    pub fn query_results(&self) -> (res: VecSiteLinks)
        ensures
            res@ == self@,
    {
        self.clone()
    }

    /// Appends a link, and returns a copy of the list as it now stands.
    pub fn add_vec(&mut self, site_links: SiteLinks) -> (res: Self)
        ensures
            final(self)@ == old(self)@.push(site_links@),
            res@ == final(self)@,
    {
        self.links.push(site_links);
        assert(self@ =~= old(self)@.push(site_links@));
        self.clone()
    }

    /// Removes the link at `index`, shifting the later ones down, and returns
    /// a copy of the list as it now stands.
    pub fn remove_vec(&mut self, index: usize) -> (res: Self)
        requires
            index < old(self)@.len(),
        ensures
            final(self)@ == old(self)@.remove(index as int),
            res@ == final(self)@,
    {
        self.links.remove(index);
        assert(self@ =~= old(self)@.remove(index as int));
        self.clone()
    }
}

/// Adding a link and then removing the link at the old length gives back the
/// list as it was: `remove_vec` undoes `add_vec`.
pub proof fn law_remove_undoes_add(links: Seq<LinkView>, link: LinkView)
    ensures
        links.push(link).remove(links.len() as int) == links,
{
    assert(links.push(link).remove(links.len() as int) =~= links);
}

} // verus!
