use vstd::prelude::*;
use crate::diff::{contains_key, keys_view};

verus! {

/// The next request of a purge.
pub enum PurgeAction {
    /// List the next page of objects: from the start, or after the marker.
    ListPage(Option<String>),
    /// Delete the object with this key.
    DeleteObject(String),
    /// Delete the bucket, now empty.
    DeleteBucket,
    /// Nothing is left to do.
    Done,
}

/// Where a purge stands.
#[derive(Debug, Clone, Copy, PartialEq, Eq, Structural)]
pub enum PurgePhase {
    /// Waiting for a page of the listing.
    Listing,
    /// Waiting for the deletion of an object.
    Deleting,
    /// Waiting for the deletion of the bucket.
    DeletingBucket,
    /// Finished.
    Done,
}

/// Every key that occurs on some page.
pub open spec fn keys_of_pages(pages: Seq<Seq<Seq<char>>>) -> Set<Seq<char>> {
    Set::new(
        |k: Seq<char>|
            exists|p: int, i: int| 0 <= p < pages.len() && 0 <= i < pages[p].len() && pages[p][i] == k,
    )
}

/// Empties one bucket and deletes it: pages through its listing, collects each
/// key once however often the pages repeat it, deletes each collected key,
/// and then the bucket.
///
/// The caller performs each returned action and reports its result through
/// `on_page`, `on_deleted` or `on_bucket_deleted`. The first request is always
/// a listing from the start.
pub struct Purge {
    phase: PurgePhase,
    keys: Vec<String>,
    next: usize,
    pages: Ghost<Seq<Seq<Seq<char>>>>,
}

impl Purge {
    /// Where the purge stands.
    pub closed spec fn phase(&self) -> PurgePhase {
        self.phase
    }

    /// The keys collected so far, each once, in the order in which they are deleted.
    pub closed spec fn to_delete(&self) -> Seq<Seq<char>> {
        keys_view(self.keys@)
    }

    /// How many objects have been deleted.
    pub closed spec fn deleted(&self) -> nat {
        self.next as nat
    }

    /// The pages of the listing received so far.
    pub closed spec fn pages_seen(&self) -> Seq<Seq<Seq<char>>> {
        self.pages@
    }

    /// The collected keys are those of the pages seen, each once; deletions
    /// go through them in order.
    pub open spec fn wf(&self) -> bool {
        &&& self.to_delete().no_duplicates()
        &&& self.to_delete().to_set() == keys_of_pages(self.pages_seen())
        &&& self.deleted() <= self.to_delete().len()
        &&& self.phase() == PurgePhase::Listing ==> self.deleted() == 0
        &&& self.phase() == PurgePhase::Deleting ==> self.deleted() < self.to_delete().len()
        &&& (self.phase() == PurgePhase::DeletingBucket || self.phase() == PurgePhase::Done)
            ==> self.deleted() == self.to_delete().len()
    }

    /// A purge that has seen nothing yet; its first request lists the bucket
    /// from the start.
    pub fn new() -> (r: Purge)
        ensures
            r.wf(),
            r.phase() == PurgePhase::Listing,
            r.pages_seen() == Seq::<Seq<Seq<char>>>::empty(),
    {
        let r = Purge { phase: PurgePhase::Listing, keys: Vec::new(), next: 0, pages: Ghost(Seq::empty()) };
        assert(r.to_delete().to_set() =~= keys_of_pages(r.pages_seen()));
        r
    }

    /// Where the purge stands.
    pub fn current_phase(&self) -> (r: PurgePhase)
        ensures
            r == self.phase(),
    {
        self.phase
    }

    /// The action that deletes the next collected key, or the bucket when
    /// none is left.
    fn next_deletion(&mut self) -> (r: PurgeAction)
        requires
            old(self).next <= old(self).keys@.len(),
            old(self).phase == PurgePhase::Deleting,
        ensures
            final(self).keys == old(self).keys,
            final(self).next == old(self).next,
            final(self).pages == old(self).pages,
            old(self).next < old(self).keys@.len() ==> {
                &&& final(self).phase == PurgePhase::Deleting
                &&& r matches PurgeAction::DeleteObject(k) && k@ == old(self).keys@[old(self).next as int]@
            },
            old(self).next == old(self).keys@.len() ==> {
                &&& final(self).phase == PurgePhase::DeletingBucket
                &&& r is DeleteBucket
            },
    {
        if self.next < self.keys.len() {
            PurgeAction::DeleteObject(self.keys[self.next].clone())
        } else {
            self.phase = PurgePhase::DeletingBucket;
            PurgeAction::DeleteBucket
        }
    }

    /// Takes in one page of the listing and the marker after it, if the
    /// listing goes on. While it does, the next page is requested; after the
    /// last page, the first collected key is deleted, or the bucket if there
    /// is none.
    pub fn on_page(&mut self, page: &Vec<String>, next_marker: Option<String>) -> (r: PurgeAction)
        requires
            old(self).wf(),
            old(self).phase() == PurgePhase::Listing,
        ensures
            final(self).wf(),
            final(self).pages_seen() == old(self).pages_seen().push(keys_view(page@)),
            final(self).deleted() == 0,
            next_marker matches Some(m) ==> {
                &&& final(self).phase() == PurgePhase::Listing
                &&& r matches PurgeAction::ListPage(Some(n)) && n@ == m@
            },
            next_marker is None ==> {
                &&& final(self).to_delete().len() > 0 ==> {
                    &&& final(self).phase() == PurgePhase::Deleting
                    &&& r matches PurgeAction::DeleteObject(k) && k@ == final(self).to_delete()[0]
                }
                &&& final(self).to_delete().len() == 0 ==> {
                    &&& final(self).phase() == PurgePhase::DeletingBucket
                    &&& r is DeleteBucket
                }
            },
    {
        let ghost old_pages = self.pages@;
        let ghost pv = keys_view(page@);
        let ghost new_pages = old_pages.push(pv);
        let mut i: usize = 0;
        while i < page.len()
            invariant
                0 <= i <= page@.len(),
                pv == keys_view(page@),
                new_pages == old_pages.push(pv),
                keys_view(self.keys@).no_duplicates(),
                keys_view(self.keys@).to_set() == keys_of_pages(old_pages).union(pv.take(i as int).to_set()),
                self.next == 0,
                self.phase == PurgePhase::Listing,
                self.pages@ == old_pages,
            decreases page@.len() - i,
        {
            let ghost before = keys_view(self.keys@);
            assert(pv.take(i + 1) =~= pv.take(i as int).push(pv[i as int]));
            if !contains_key(&self.keys, &page[i]) {
                self.keys.push(page[i].clone());
                assert(keys_view(self.keys@) =~= before.push(page@[i as int]@));
                proof {
                    before.lemma_push_to_set_commute(pv[i as int]);
                }
                assert(!before.contains(pv[i as int]));
                assert(keys_view(self.keys@).to_set() =~= before.to_set().insert(pv[i as int]));
            } else {
                assert(before.to_set().contains(pv[i as int]));
                assert(before.to_set().insert(pv[i as int]) =~= before.to_set());
            }
            proof {
                pv.take(i as int).lemma_push_to_set_commute(pv[i as int]);
            }
            assert(keys_view(self.keys@).to_set() =~= keys_of_pages(old_pages).union(pv.take(i + 1).to_set()));
            i = i + 1;
        }
        proof {
            assert(pv.take(page@.len() as int) =~= pv);
            lemma_keys_of_pages_push(old_pages, pv);
        }
        self.pages = Ghost(new_pages);
        match next_marker {
            Some(m) => PurgeAction::ListPage(Some(m)),
            None => {
                self.phase = PurgePhase::Deleting;
                self.next_deletion()
            },
        }
    }

    /// Takes in the deletion of the object last requested, and requests the
    /// next one, or the bucket after the last.
    pub fn on_deleted(&mut self) -> (r: PurgeAction)
        requires
            old(self).wf(),
            old(self).phase() == PurgePhase::Deleting,
        ensures
            final(self).wf(),
            final(self).to_delete() == old(self).to_delete(),
            final(self).pages_seen() == old(self).pages_seen(),
            final(self).deleted() == old(self).deleted() + 1,
            final(self).deleted() < final(self).to_delete().len() ==> {
                &&& final(self).phase() == PurgePhase::Deleting
                &&& r matches PurgeAction::DeleteObject(k) && k@ == final(self).to_delete()[final(self).deleted() as int]
            },
            final(self).deleted() == final(self).to_delete().len() ==> {
                &&& final(self).phase() == PurgePhase::DeletingBucket
                &&& r is DeleteBucket
            },
    {
        let collected = self.keys.len();
        assert(keys_view(self.keys@).len() == collected);
        assert(self.next < collected);
        self.next = self.next + 1;
        self.next_deletion()
    }

    /// Takes in the deletion of the bucket; the purge is done.
    pub fn on_bucket_deleted(&mut self) -> (r: PurgeAction)
        requires
            old(self).wf(),
            old(self).phase() == PurgePhase::DeletingBucket,
        ensures
            final(self).wf(),
            final(self).phase() == PurgePhase::Done,
            final(self).to_delete() == old(self).to_delete(),
            final(self).pages_seen() == old(self).pages_seen(),
            final(self).deleted() == old(self).deleted(),
            r is Done,
    {
        self.phase = PurgePhase::Done;
        PurgeAction::Done
    }
}

proof fn lemma_keys_of_pages_push(pages: Seq<Seq<Seq<char>>>, page: Seq<Seq<char>>)
    ensures
        keys_of_pages(pages.push(page)) == keys_of_pages(pages).union(page.to_set()),
{
    let np = pages.push(page);
    assert forall|k: Seq<char>| keys_of_pages(np).contains(k) implies keys_of_pages(pages).union(page.to_set()).contains(k) by {
        let (p, i) = choose|p: int, i: int| 0 <= p < np.len() && 0 <= i < np[p].len() && np[p][i] == k;
        if p < pages.len() {
            assert(pages[p][i] == k);
        } else {
            assert(page[i] == k);
            assert(page.contains(k));
        }
    }
    assert forall|k: Seq<char>| keys_of_pages(pages).union(page.to_set()).contains(k) implies keys_of_pages(np).contains(k) by {
        if keys_of_pages(pages).contains(k) {
            let (p, i) = choose|p: int, i: int| 0 <= p < pages.len() && 0 <= i < pages[p].len() && pages[p][i] == k;
            assert(np[p][i] == k);
        } else {
            let i = choose|i: int| 0 <= i < page.len() && page[i] == k;
            assert(np[pages.len() as int][i] == k);
        }
    }
    assert(keys_of_pages(np) =~= keys_of_pages(pages).union(page.to_set()));
}

/// However the keys are spread over the pages, and however often a page
/// repeats one, a purge deletes each distinct key exactly once, and only
/// those, before it deletes the bucket.
pub proof fn lemma_purge_exhaustive(p: Purge)
    requires
        p.wf(),
    ensures
        p.to_delete().no_duplicates(),
        p.to_delete().to_set() == keys_of_pages(p.pages_seen()),
        p.to_delete().len() == keys_of_pages(p.pages_seen()).len(),
        p.phase() == PurgePhase::DeletingBucket || p.phase() == PurgePhase::Done ==> p.deleted()
            == keys_of_pages(p.pages_seen()).len(),
{
    p.to_delete().unique_seq_to_set();
}

} // verus!
