//! Tags: what a tag is, and the dictionary that maps each tag name to its
//! details. The dictionary keeps its entries in the order of their names, so
//! that it is written out the same way whenever it holds the same tags.

use vstd::prelude::*;
use crate::order::{
    lemma_str_lt_connected, lemma_str_lt_irreflexive, lemma_str_lt_transitive, str_equal, str_lt,
    str_precedes,
};

verus! {

/// Details about what a tag is.
#[derive(Debug)]
pub struct TagDetails {
    /// Name of the tag.
    pub name: String,
    /// Description of what the tag is.
    pub description: String,
}

/// What a `TagDetails` holds.
pub struct TagDetailsView {
    pub name: Seq<char>,
    pub description: Seq<char>,
}

impl View for TagDetails {
    type V = TagDetailsView;

    open spec fn view(&self) -> TagDetailsView {
        TagDetailsView { name: self.name@, description: self.description@ }
    }
}

impl Clone for TagDetails {
    fn clone(&self) -> (r: Self)
        ensures
            r@ == self@,
    {
        TagDetails { name: self.name.clone(), description: self.description.clone() }
    }
}

/// A list of tag names with their details, as mathematical values.
pub type Listing = Seq<(Seq<char>, TagDetailsView)>;

/// What a list of dictionary entries holds.
pub open spec fn listing_view(v: Seq<(String, TagDetails)>) -> Listing {
    v.map_values(|e: (String, TagDetails)| (e.0@, e.1@))
}

/// The names of the listing come in strictly ascending order; so none occurs
/// twice.
pub open spec fn names_ascending(e: Listing) -> bool {
    forall|i: int, j: int| 0 <= i < j < e.len() ==> str_lt((#[trigger] e[i]).0, (#[trigger] e[j]).0)
}

/// Whether the listing has an entry for the name `k`.
pub open spec fn has_name(e: Listing, k: Seq<char>) -> bool {
    exists|i: int| 0 <= i < e.len() && (#[trigger] e[i]).0 == k
}

/// The position of an entry for the name `k`.
pub open spec fn index_of_name(e: Listing, k: Seq<char>) -> int {
    choose|i: int| 0 <= i < e.len() && (#[trigger] e[i]).0 == k
}

/// The map that a listing stands for.
pub open spec fn listing_map(e: Listing) -> Map<Seq<char>, TagDetailsView> {
    Map::new(|k: Seq<char>| has_name(e, k), |k: Seq<char>| e[index_of_name(e, k)].1)
}

/// `e` lists the map `m`: in ascending order of the names, each entry of `m`
/// once and nothing else.
pub open spec fn is_listing_of(e: Listing, m: Map<Seq<char>, TagDetailsView>) -> bool {
    &&& names_ascending(e)
    &&& forall|i: int| 0 <= i < e.len() ==> m.contains_key((#[trigger] e[i]).0) && m[e[i].0] == e[i].1
    &&& forall|k: Seq<char>| m.contains_key(k) ==> has_name(e, k)
}

/// In a listing with ascending names, the map holds for each name the
/// details that stand beside it.
pub proof fn lemma_listing_at(e: Listing, i: int)
    requires
        names_ascending(e),
        0 <= i < e.len(),
    ensures
        listing_map(e).contains_key(e[i].0),
        listing_map(e)[e[i].0] == e[i].1,
{
    let k = e[i].0;
    assert(has_name(e, k));
    let j = index_of_name(e, k);
    lemma_str_lt_irreflexive(k);
    if j < i {
        assert(str_lt(e[j].0, e[i].0));
    } else if i < j {
        assert(str_lt(e[i].0, e[j].0));
    }
}

/// A listing with ascending names lists the map that it stands for.
pub proof fn lemma_listing_of_its_map(e: Listing)
    requires
        names_ascending(e),
    ensures
        is_listing_of(e, listing_map(e)),
{
    assert forall|i: int| 0 <= i < e.len() implies listing_map(e).contains_key((#[trigger] e[i]).0)
        && listing_map(e)[e[i].0] == e[i].1 by {
        lemma_listing_at(e, i);
    }
}

/// Two listings of one map are the same listing.
pub proof fn lemma_listing_unique(a: Listing, b: Listing, m: Map<Seq<char>, TagDetailsView>)
    requires
        is_listing_of(a, m),
        is_listing_of(b, m),
    ensures
        a == b,
    decreases a.len(),
{
    if a.len() == 0 {
        if b.len() > 0 {
            assert(m.contains_key(b[0].0));
            assert(has_name(a, b[0].0));
        }
        assert(a =~= b);
    } else if b.len() == 0 {
        assert(m.contains_key(a[0].0));
        assert(has_name(b, a[0].0));
    } else {
        // The last entries carry the greatest name of the map.
        let x = a.last();
        let y = b.last();
        assert(m.contains_key(a[a.len() - 1].0));
        assert(m.contains_key(b[b.len() - 1].0));
        assert(has_name(b, x.0));
        assert(has_name(a, y.0));
        let p = index_of_name(b, x.0);
        let q = index_of_name(a, y.0);
        lemma_str_lt_irreflexive(x.0);
        if x.0 != y.0 {
            assert(p < b.len() - 1);
            assert(str_lt(b[p].0, b[b.len() - 1].0));
            assert(q < a.len() - 1);
            assert(str_lt(a[q].0, a[a.len() - 1].0));
            lemma_str_lt_transitive(x.0, y.0, x.0);
        }
        assert(x.1 == m[x.0]);
        assert(y.1 == m[y.0]);
        assert(x == y);
        let m2 = m.remove(x.0);
        let a2 = a.drop_last();
        let b2 = b.drop_last();
        assert(is_listing_of(a2, m2)) by {
            assert forall|i: int| 0 <= i < a2.len() implies m2.contains_key((#[trigger] a2[i]).0)
                && m2[a2[i].0] == a2[i].1 by {
                assert(a2[i] == a[i]);
                assert(str_lt(a[i].0, a[a.len() - 1].0));
            }
            assert forall|k: Seq<char>| m2.contains_key(k) implies has_name(a2, k) by {
                assert(has_name(a, k));
                let i = index_of_name(a, k);
                assert(a2[i] == a[i]);
            }
        }
        assert(is_listing_of(b2, m2)) by {
            assert forall|i: int| 0 <= i < b2.len() implies m2.contains_key((#[trigger] b2[i]).0)
                && m2[b2[i].0] == b2[i].1 by {
                assert(b2[i] == b[i]);
                assert(str_lt(b[i].0, b[b.len() - 1].0));
            }
            assert forall|k: Seq<char>| m2.contains_key(k) implies has_name(b2, k) by {
                assert(has_name(b, k));
                let i = index_of_name(b, k);
                assert(b2[i] == b[i]);
            }
        }
        lemma_listing_unique(a2, b2, m2);
        assert(a =~= a2.push(x));
        assert(b =~= b2.push(y));
    }
}

/// The first position of `entries` whose name does not come before `name`.
fn position(entries: &Vec<(String, TagDetails)>, name: &str) -> (p: usize)
    requires
        names_ascending(listing_view(entries@)),
    ensures
        p <= entries.len(),
        forall|i: int| 0 <= i < p ==> str_lt((#[trigger] listing_view(entries@)[i]).0, name@),
        forall|i: int|
            p <= i < entries.len() ==> !str_lt((#[trigger] listing_view(entries@)[i]).0, name@),
{
    let ghost e = listing_view(entries@);
    let mut p: usize = 0;
    while p < entries.len()
        invariant
            p <= entries.len(),
            e == listing_view(entries@),
            names_ascending(e),
            forall|i: int| 0 <= i < p ==> str_lt((#[trigger] e[i]).0, name@),
        decreases entries.len() - p,
    {
        if !str_precedes(entries[p].0.as_str(), name) {
            proof {
                assert forall|i: int| p <= i < entries.len() implies !str_lt(
                    (#[trigger] e[i]).0,
                    name@,
                ) by {
                    if i > p && str_lt(e[i].0, name@) {
                        assert(str_lt(e[p as int].0, e[i].0));
                        lemma_str_lt_transitive(e[p as int].0, e[i].0, name@);
                    }
                }
            }
            return p;
        }
        p += 1;
    }
    p
}

/// A mapping from tag name to the details of the tag.
#[derive(Debug)]
pub struct TagDictionary {
    entries: Vec<(String, TagDetails)>,
}

impl View for TagDictionary {
    type V = Map<Seq<char>, TagDetailsView>;

    closed spec fn view(&self) -> Map<Seq<char>, TagDetailsView> {
        listing_map(listing_view(self.entries@))
    }
}

impl TagDictionary {
    #[verifier::type_invariant]
    spec fn names_in_order(self) -> bool {
        names_ascending(listing_view(self.entries@))
    }

    /// A dictionary without tags.
    pub fn new() -> (r: Self)
        ensures
            r@ == Map::<Seq<char>, TagDetailsView>::empty(),
    {
        let r = TagDictionary { entries: Vec::new() };
        assert(r@ =~= Map::<Seq<char>, TagDetailsView>::empty());
        r
    }

    /// The details of the tag `name`, if the dictionary has that tag.
    pub fn get(&self, name: &str) -> (r: Option<&TagDetails>)
        ensures
            match r {
                Some(d) => self@.contains_key(name@) && self@[name@] == d@,
                None => !self@.contains_key(name@),
            },
    {
        proof {
            use_type_invariant(self);
        }
        let ghost e = listing_view(self.entries@);
        let p = position(&self.entries, name);
        if p < self.entries.len() && str_equal(self.entries[p].0.as_str(), name) {
            proof {
                lemma_listing_at(e, p as int);
            }
            Some(&self.entries[p].1)
        } else {
            proof {
                if has_name(e, name@) {
                    let i = index_of_name(e, name@);
                    lemma_str_lt_irreflexive(name@);
                    if i > p {
                        assert(str_lt(e[p as int].0, e[i].0));
                    }
                }
            }
            None
        }
    }

    /// Sets the details of the tag `name`, whether or not the dictionary had
    /// that tag before.
    pub fn insert(&mut self, name: String, details: TagDetails)
        ensures
            final(self)@ == old(self)@.insert(name@, details@),
    {
        proof {
            use_type_invariant(&*self);
        }
        let ghost e = listing_view(self.entries@);
        let ghost k = name@;
        let ghost d = details@;
        let p = position(&self.entries, name.as_str());
        let mut entries: Vec<(String, TagDetails)> = Vec::new();
        assert(listing_view(entries@) =~= Seq::empty());
        core::mem::swap(&mut self.entries, &mut entries);
        let found = p < entries.len() && str_equal(entries[p].0.as_str(), name.as_str());
        if found {
            entries.set(p, (name, details));
        } else {
            entries.insert(p, (name, details));
        }
        let ghost e2 = listing_view(entries@);
        proof {
            lemma_str_lt_irreflexive(k);
            if found {
                assert(e2 =~= e.update(p as int, (k, d)));
            } else {
                assert(e2 =~= e.insert(p as int, (k, d)));
                assert forall|i: int| p <= i < e.len() implies str_lt(k, (#[trigger] e[i]).0) by {
                    if i > p {
                        assert(str_lt(e[p as int].0, e[i].0));
                    }
                    if !str_lt(k, e[p as int].0) {
                        lemma_str_lt_connected(k, e[p as int].0);
                    }
                    if i > p {
                        lemma_str_lt_transitive(k, e[p as int].0, e[i].0);
                    }
                }
            }
            assert(names_ascending(e2)) by {
                assert forall|i: int, j: int| 0 <= i < j < e2.len() implies str_lt(
                    (#[trigger] e2[i]).0,
                    (#[trigger] e2[j]).0,
                ) by {
                    if found {
                        assert(e2[i].0 == e[i].0);
                        assert(e2[j].0 == e[j].0);
                    } else {
                        if i < p && j > p {
                            assert(e2[i] == e[i]);
                            assert(e2[j] == e[j - 1]);
                        } else if i < p && j < p {
                            assert(e2[i] == e[i]);
                            assert(e2[j] == e[j]);
                        } else if i > p {
                            assert(e2[i] == e[i - 1]);
                            assert(e2[j] == e[j - 1]);
                        } else if i == p {
                            assert(e2[j] == e[j - 1]);
                        } else {
                            assert(e2[i] == e[i]);
                        }
                    }
                }
            }
            assert(listing_map(e2) =~= listing_map(e).insert(k, d)) by {
                assert(e2[p as int] == (k, d));
                lemma_listing_at(e2, p as int);
                assert forall|x: Seq<char>| listing_map(e).insert(k, d).contains_key(x)
                    implies #[trigger] listing_map(e2).contains_key(x) by {
                    if x != k {
                        let i = index_of_name(e, x);
                        if found {
                            assert(e2[i] == e[i]);
                        } else if i < p {
                            assert(e2[i] == e[i]);
                        } else {
                            assert(e2[i + 1] == e[i]);
                        }
                    }
                }
                assert forall|x: Seq<char>| #[trigger] listing_map(e2).contains_key(x)
                    implies listing_map(e).insert(k, d).contains_key(x) && listing_map(e2)[x]
                    == listing_map(e).insert(k, d)[x] by {
                    let j = index_of_name(e2, x);
                    lemma_listing_at(e2, j);
                    if x != k {
                        if found {
                            assert(e2[j] == e[j]);
                            lemma_listing_at(e, j);
                        } else if j < p {
                            assert(e2[j] == e[j]);
                            lemma_listing_at(e, j);
                        } else {
                            assert(e2[j] == e[j - 1]);
                            lemma_listing_at(e, j - 1);
                        }
                    }
                }
            }
        }
        self.entries = entries;
    }

    /// Takes over every tag of `other`. Where both dictionaries have a tag,
    /// the details that `other` has for it replace those held before.
    pub fn merge(&mut self, other: &TagDictionary)
        ensures
            final(self)@ == old(self)@.union_prefer_right(other@),
    {
        proof {
            use_type_invariant(other);
        }
        let ghost oe = listing_view(other.entries@);
        let ghost start = self@;
        let mut i: usize = 0;
        assert(listing_map(oe.take(0)) =~= Map::<Seq<char>, TagDetailsView>::empty());
        assert(self@ =~= start.union_prefer_right(listing_map(oe.take(0))));
        while i < other.entries.len()
            invariant
                i <= other.entries.len(),
                oe == listing_view(other.entries@),
                names_ascending(oe),
                self@ == start.union_prefer_right(listing_map(oe.take(i as int))),
            decreases other.entries.len() - i,
        {
            let ghost before = self@;
            self.insert(other.entries[i].0.clone(), other.entries[i].1.clone());
            proof {
                let a = oe.take(i as int);
                let b = oe.take(i + 1);
                let k = oe[i as int].0;
                let d = oe[i as int].1;
                assert(b =~= a.push((k, d)));
                assert(names_ascending(a));
                assert(names_ascending(b));
                assert(listing_map(b) =~= listing_map(a).insert(k, d)) by {
                    lemma_listing_at(b, i as int);
                    assert forall|x: Seq<char>| listing_map(a).insert(k, d).contains_key(x)
                        implies #[trigger] listing_map(b).contains_key(x) by {
                        if x != k {
                            let j = index_of_name(a, x);
                            assert(b[j] == a[j]);
                        }
                    }
                    assert forall|x: Seq<char>| #[trigger] listing_map(b).contains_key(x)
                        implies listing_map(a).insert(k, d).contains_key(x) && listing_map(b)[x]
                        == listing_map(a).insert(k, d)[x] by {
                        let j = index_of_name(b, x);
                        lemma_listing_at(b, j);
                        if x != k {
                            assert(j < i) by {
                                if j == i {
                                    assert(b[j].0 == k);
                                }
                            }
                            assert(b[j] == a[j]);
                            lemma_listing_at(a, j);
                        }
                    }
                }
                assert(self@ =~= start.union_prefer_right(listing_map(b)));
            }
            i += 1;
        }
        proof {
            assert(oe.take(i as int) =~= oe);
        }
    }

    /// The tags of the dictionary with their details, in ascending order of
    /// the names.
    pub fn entries(&self) -> (r: Vec<(String, TagDetails)>)
        ensures
            is_listing_of(listing_view(r@), self@),
    {
        proof {
            use_type_invariant(self);
            lemma_listing_of_its_map(listing_view(self.entries@));
        }
        let mut out: Vec<(String, TagDetails)> = Vec::new();
        let mut i: usize = 0;
        assert(listing_view(out@) =~= listing_view(self.entries@).take(0));
        while i < self.entries.len()
            invariant
                i <= self.entries.len(),
                out.len() == i,
                listing_view(out@) == listing_view(self.entries@).take(i as int),
            decreases self.entries.len() - i,
        {
            let ghost before = listing_view(out@);
            out.push((self.entries[i].0.clone(), self.entries[i].1.clone()));
            assert(listing_view(out@) =~= before.push(listing_view(self.entries@)[i as int]));
            assert(listing_view(out@) =~= listing_view(self.entries@).take(i + 1));
            i += 1;
        }
        assert(listing_view(out@) =~= listing_view(self.entries@));
        out
    }
}

impl Clone for TagDictionary {
    fn clone(&self) -> (r: Self)
        ensures
            r@ == self@,
    {
        proof {
            use_type_invariant(self);
        }
        let entries = self.entries();
        proof {
            lemma_listing_of_its_map(listing_view(self.entries@));
            lemma_listing_unique(listing_view(entries@), listing_view(self.entries@), self@);
        }
        TagDictionary { entries }
    }
}

} // verus!
