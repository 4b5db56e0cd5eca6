//! The discovery ledger: which canonical links were seen, and in what order
//! they were accepted.
use vstd::hash_set::StringHashSet;
use vstd::prelude::*;

verus! {

/// Accepted canonical links, in order of acceptance, without repeats.
pub struct Ledger {
    seen: StringHashSet,
    order: Vec<String>,
}

pub open spec fn views_of(v: Seq<String>) -> Seq<Seq<char>> {
    v.map_values(|s: String| s@)
}

impl View for Ledger {
    type V = Seq<Seq<char>>;

    closed spec fn view(&self) -> Seq<Seq<char>> {
        views_of(self.order@)
    }
}

/// The ledger after one link is offered to it: appended iff not yet there.
pub open spec fn accept_spec(l: Seq<Seq<char>>, url: Seq<char>) -> Seq<Seq<char>> {
    if l.contains(url) {
        l
    } else {
        l.push(url)
    }
}

impl Ledger {
    /// The seen set holds exactly the accepted links, and no link was accepted twice.
    pub closed spec fn wf(&self) -> bool {
        &&& self.seen@ == self@.to_set()
        &&& self@.no_duplicates()
    }

    pub fn new() -> (r: Ledger)
        ensures
            r.wf(),
            r@ == Seq::<Seq<char>>::empty(),
    {
        let r = Ledger { seen: StringHashSet::new(), order: Vec::new() };
        assert(r@ =~= Seq::<Seq<char>>::empty());
        assert(r@.to_set() =~= Set::<Seq<char>>::empty());
        r
    }

    /// Offers a canonical link; accepts and appends it iff it was not seen before.
    pub fn try_accept(&mut self, url: String) -> (accepted: bool)
        requires
            old(self).wf(),
        ensures
            final(self).wf(),
            final(self)@.no_duplicates(),
            accepted == !old(self)@.contains(url@),
            final(self)@ == accept_spec(old(self)@, url@),
    {
        let ghost before = self@;
        if self.seen.contains(url.as_str()) {
            false
        } else {
            let copy = url.clone();
            self.seen.insert(copy);
            self.order.push(url);
            assert(self@ =~= before.push(url@));
            proof {
                before.lemma_push_to_set_commute(url@);
            }
            true
        }
    }

    /// A well-formed ledger never holds a link twice.
    pub proof fn lemma_no_duplicates(&self)
        requires
            self.wf(),
        ensures
            self@.no_duplicates(),
    {
    }

    /// Number of accepted links.
    pub fn len(&self) -> (n: usize)
        ensures
            n == self@.len(),
    {
        self.order.len()
    }

    pub fn contains(&self, url: &str) -> (r: bool)
        requires
            self.wf(),
        ensures
            r == self@.contains(url@),
    {
        self.seen.contains(url)
    }

    /// The accepted links in order of acceptance.
    pub fn into_resources(self) -> (r: Vec<String>)
        ensures
            views_of(r@) == self@,
    {
        self.order
    }
}

/// Offering the same link twice accepts it the first time only, and the
/// ledger grows by exactly one.
pub proof fn lemma_accept_idempotent(l: Seq<Seq<char>>, url: Seq<char>)
    requires
        !l.contains(url),
    ensures
        accept_spec(l, url).contains(url),
        accept_spec(accept_spec(l, url), url) == accept_spec(l, url),
        accept_spec(accept_spec(l, url), url).len() == l.len() + 1,
{
    assert(l.push(url)[l.len() as int] == url);
}

} // verus!
