//! The source registry: which catalogs are merged, in which order, and the
//! name of the catalog that comes out.

use vstd::prelude::*;
use crate::text::texts;

verus! {

/// One source catalog: the id under which it is stored, and where it is
/// fetched from.
#[derive(Debug)]
pub struct TokenListMeta {
    pub id: String,
    pub url: String,
}

/// What a `TokenListMeta` holds.
pub struct TokenListMetaView {
    pub id: Seq<char>,
    pub url: Seq<char>,
}

impl View for TokenListMeta {
    type V = TokenListMetaView;

    open spec fn view(&self) -> TokenListMetaView {
        TokenListMetaView { id: self.id@, url: self.url@ }
    }
}

impl Clone for TokenListMeta {
    fn clone(&self) -> (r: Self)
        ensures
            r@ == self@,
    {
        TokenListMeta { id: self.id.clone(), url: self.url.clone() }
    }
}

/// What is said of the merged catalog as a whole.
#[derive(Debug)]
pub struct ListMeta {
    pub name: String,
}

/// What a `ListMeta` holds.
pub struct ListMetaView {
    pub name: Seq<char>,
}

impl View for ListMeta {
    type V = ListMetaView;

    open spec fn view(&self) -> ListMetaView {
        ListMetaView { name: self.name@ }
    }
}

impl Clone for ListMeta {
    fn clone(&self) -> (r: Self)
        ensures
            r@ == self@,
    {
        ListMeta { name: self.name.clone() }
    }
}

/// The registry: the sources in the order of their precedence.
#[derive(Debug)]
pub struct Lists {
    pub meta: ListMeta,
    pub lists: Vec<TokenListMeta>,
}

/// What a `Lists` holds.
pub struct ListsView {
    pub meta: ListMetaView,
    pub lists: Seq<TokenListMetaView>,
}

/// What a sequence of sources holds.
pub open spec fn metas_view(v: Seq<TokenListMeta>) -> Seq<TokenListMetaView> {
    v.map_values(|m: TokenListMeta| m@)
}

/// The ids of the sources, in order.
pub open spec fn source_ids(v: Seq<TokenListMetaView>) -> Seq<Seq<char>> {
    v.map_values(|m: TokenListMetaView| m.id)
}

impl View for Lists {
    type V = ListsView;

    open spec fn view(&self) -> ListsView {
        ListsView { meta: self.meta@, lists: metas_view(self.lists@) }
    }
}

impl Clone for Lists {
    fn clone(&self) -> (r: Self)
        ensures
            r@ == self@,
    {
        let mut lists: Vec<TokenListMeta> = Vec::new();
        let mut i: usize = 0;
        while i < self.lists.len()
            invariant
                i <= self.lists.len(),
                lists.len() == i,
                forall|j: int| 0 <= j < i ==> lists@[j]@ == self.lists@[j]@,
            decreases self.lists.len() - i,
        {
            lists.push(self.lists[i].clone());
            i += 1;
        }
        assert(metas_view(lists@) =~= metas_view(self.lists@));
        Lists { meta: self.meta.clone(), lists }
    }
}

impl Lists {
    /// The index of the registry: the id of every source, in registry order.
    pub fn index(&self) -> (ids: Vec<String>)
        ensures
            texts(ids@) == source_ids(self@.lists),
    {
        let mut ids: Vec<String> = Vec::new();
        let mut i: usize = 0;
        while i < self.lists.len()
            invariant
                i <= self.lists.len(),
                ids.len() == i,
                forall|j: int| 0 <= j < i ==> ids@[j]@ == self.lists@[j].id@,
            decreases self.lists.len() - i,
        {
            ids.push(self.lists[i].id.clone());
            i += 1;
        }
        assert(texts(ids@) =~= source_ids(self@.lists));
        ids
    }
}

} // verus!
