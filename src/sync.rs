use vstd::prelude::*;
use crate::ids::{
    copy_ids, id_set, lemma_id_set_empty, lemma_remove_from_set, position_of, unique_ids, views,
};
use crate::outcome::{FailReason, SyncOutcome};

verus! {

/// Number of entries asked for in each page read.
pub const PAGE_SIZE: u32 = 100;

/// Where a synchronization stands.
#[derive(Clone, Copy, Debug, PartialEq, Eq, Structural)]
pub enum Phase {
    /// Reading the collection page by page.
    Scanning,
    /// Waiting for the result of the add call.
    Adding,
    /// Finished; the outcome has been handed out.
    Done,
}

/// What the caller must do next on behalf of a synchronization.
#[derive(Debug)]
pub enum Action {
    /// Read `limit` entries of the collection starting at `offset`, and report the page
    /// with `on_page`, or the failure with `on_read_failure`.
    ListPage { offset: u32, limit: u32 },
    /// Add these identifiers to the collection in one call, and report with `on_add_result`.
    AddItems(Vec<String>),
    /// Nothing more to do: this is the outcome.
    Finish(SyncOutcome),
}

/// The mathematical form of an action.
pub enum ActionView {
    ListPage { offset: nat, limit: nat },
    AddItems(Set<Seq<char>>),
    Finish(SyncOutcome),
}

impl View for Action {
    type V = ActionView;

    open spec fn view(&self) -> ActionView {
        match self {
            Action::ListPage { offset, limit } => ActionView::ListPage {
                offset: *offset as nat,
                limit: *limit as nat,
            },
            Action::AddItems(v) => ActionView::AddItems(id_set(v@)),
            Action::Finish(o) => ActionView::Finish(*o),
        }
    }
}

/// The mathematical form of a synchronizer's state.
pub struct SyncView {
    /// Candidates not yet seen in the collection.
    pub remaining: Set<Seq<char>>,
    /// Whether some candidate was seen in the collection.
    pub found_duplicate: bool,
    /// Offset of the page last asked for.
    pub offset: nat,
    pub phase: Phase,
}

/// The entries of a page as optional identifiers (`None`: an entry without identifier).
pub open spec fn entry_views(e: Seq<Option<String>>) -> Seq<Option<Seq<char>>> {
    e.map_values(|o: Option<String>| match o {
        Some(s) => Some(s@),
        None => None,
    })
}

/// The identifiers that occur among the entries of a page.
pub open spec fn page_ids(e: Seq<Option<Seq<char>>>) -> Set<Seq<char>> {
    Set::new(|x: Seq<char>| e.contains(Some(x)))
}

/// The state in which a synchronization of `candidates` starts.
pub open spec fn initial(candidates: Set<Seq<char>>) -> SyncView {
    SyncView { remaining: candidates, found_duplicate: false, offset: 0, phase: Phase::Scanning }
}

/// The first request of every synchronization: the page at offset 0.
pub open spec fn first_request() -> ActionView {
    ActionView::ListPage { offset: 0, limit: PAGE_SIZE as nat }
}

/// State and action after a page of the collection was read. The candidates found on the
/// page are dropped; the scan ends when none is left, when the page is the last one, or
/// when the next page lies past the offsets that a page read can address (which counts
/// as a read failure).
pub open spec fn after_page(s: SyncView, e: Seq<Option<Seq<char>>>, has_more: bool) -> (
    SyncView,
    ActionView,
) {
    let rem = s.remaining.difference(page_ids(e));
    let dup = s.found_duplicate || !s.remaining.disjoint(page_ids(e));
    if rem.is_empty() {
        (
            SyncView { remaining: rem, found_duplicate: dup, offset: s.offset, phase: Phase::Done },
            ActionView::Finish(SyncOutcome::Failed(FailReason::NothingToAdd)),
        )
    } else if has_more {
        if s.offset + PAGE_SIZE <= u32::MAX {
            (
                SyncView {
                    remaining: rem,
                    found_duplicate: dup,
                    offset: (s.offset + PAGE_SIZE) as nat,
                    phase: Phase::Scanning,
                },
                ActionView::ListPage { offset: (s.offset + PAGE_SIZE) as nat, limit: PAGE_SIZE as nat },
            )
        } else {
            (
                SyncView {
                    remaining: rem,
                    found_duplicate: dup,
                    offset: s.offset,
                    phase: Phase::Done,
                },
                ActionView::Finish(SyncOutcome::Failed(FailReason::ReadFailure)),
            )
        }
    } else {
        (
            SyncView {
                remaining: rem,
                found_duplicate: dup,
                offset: s.offset,
                phase: Phase::Adding,
            },
            ActionView::AddItems(rem),
        )
    }
}

/// State and action after a page read failed.
pub open spec fn after_read_failure(s: SyncView) -> (SyncView, ActionView) {
    (
        SyncView { phase: Phase::Done, ..s },
        ActionView::Finish(SyncOutcome::Failed(FailReason::ReadFailure)),
    )
}

/// The outcome once the add call has returned.
pub open spec fn add_outcome(found_duplicate: bool, added: bool) -> SyncOutcome {
    if !added {
        SyncOutcome::Failed(FailReason::WriteFailure)
    } else if found_duplicate {
        SyncOutcome::AddedWithDuplicates
    } else {
        SyncOutcome::Added
    }
}

/// State and action after the add call returned, successfully or not.
pub open spec fn after_add(s: SyncView, added: bool) -> (SyncView, ActionView) {
    (SyncView { phase: Phase::Done, ..s }, ActionView::Finish(add_outcome(s.found_duplicate, added)))
}

/// Adds a batch of candidate identifiers to a remote paginated collection, leaving out
/// those already in it. The caller performs each requested action and reports back.
pub struct Synchronizer {
    remaining: Vec<String>,
    found_duplicate: bool,
    offset: u32,
    phase: Phase,
}

impl View for Synchronizer {
    type V = SyncView;

    closed spec fn view(&self) -> SyncView {
        SyncView {
            remaining: id_set(self.remaining@),
            found_duplicate: self.found_duplicate,
            offset: self.offset as nat,
            phase: self.phase,
        }
    }
}

impl Synchronizer {
    /// The synchronizer's internal invariant: no candidate is held twice.
    pub closed spec fn wf(&self) -> bool {
        views(self.remaining@).no_duplicates()
    }

    /// Starts a synchronization of the given candidates (repeated ones count once).
    pub fn new(candidates: &Vec<String>) -> (r: Synchronizer)
        requires
            candidates.len() > 0,
        ensures
            r.wf(),
            r@ == initial(id_set(candidates@)),
    {
        let remaining = unique_ids(candidates);
        Synchronizer { remaining, found_duplicate: false, offset: 0, phase: Phase::Scanning }
    }

    /// The first action: read the page at offset 0.
    pub fn first_request(&self) -> (a: Action)
        ensures
            a@ == first_request(),
    {
        Action::ListPage { offset: 0, limit: PAGE_SIZE }
    }

    pub fn phase(&self) -> (r: Phase)
        ensures
            r == self@.phase,
    {
        self.phase
    }

    /// Takes in the page that the last `ListPage` action read: its entries, and whether
    /// the collection continues after it.
    pub fn on_page(&mut self, entries: &Vec<Option<String>>, has_more: bool) -> (a: Action)
        requires
            old(self).wf(),
            old(self)@.phase == Phase::Scanning,
        ensures
            final(self).wf(),
            (final(self)@, a@) == after_page(old(self)@, entry_views(entries@), has_more),
            a matches Action::AddItems(v) ==> views(v@).no_duplicates(),
    {
        let ghost s0 = self@;
        let ghost e = entry_views(entries@);
        let mut i: usize = 0;
        while i < entries.len() && self.remaining.len() > 0
            invariant
                i <= entries.len(),
                views(self.remaining@).no_duplicates(),
                self.phase == s0.phase,
                self.offset == s0.offset,
                e == entry_views(entries@),
                id_set(self.remaining@) == s0.remaining.difference(
                    page_ids(e.subrange(0, i as int)),
                ),
                self.found_duplicate == (s0.found_duplicate || !s0.remaining.disjoint(
                    page_ids(e.subrange(0, i as int)),
                )),
            decreases entries.len() - i,
        {
            let ghost pre = e.subrange(0, i as int);
            let ghost post = e.subrange(0, i + 1);
            let ghost rem0 = self.remaining@;
            assert(post == pre.push(e[i as int]));
            match &entries[i] {
                Some(id) => {
                    assert(e[i as int] == Some(id@));
                    assert(page_ids(post) =~= page_ids(pre).insert(id@)) by {
                        assert forall|x: Seq<char>| page_ids(post).contains(x) implies page_ids(
                            pre,
                        ).insert(id@).contains(x) by {
                            let k = choose|k: int| 0 <= k < post.len() && post[k] == Some(x);
                            if k < i {
                                assert(pre[k] == Some(x));
                            }
                        }
                        assert forall|x: Seq<char>| page_ids(pre).insert(id@).contains(
                            x,
                        ) implies page_ids(post).contains(x) by {
                            if x == id@ {
                                assert(post[i as int] == Some(x));
                            } else {
                                let k = choose|k: int| 0 <= k < pre.len() && pre[k] == Some(x);
                                assert(post[k] == Some(x));
                            }
                        }
                    }
                    match position_of(&self.remaining, id) {
                        Some(j) => {
                            proof {
                                lemma_remove_from_set(views(rem0), j as int);
                            }
                            self.remaining.remove(j);
                            self.found_duplicate = true;
                            proof {
                                assert(views(self.remaining@) =~= views(rem0).remove(j as int));
                                assert(views(rem0)[j as int] == id@);
                                assert(id_set(rem0).contains(id@));
                                assert(s0.remaining.contains(id@));
                                assert(page_ids(post).contains(id@));
                                assert(id_set(self.remaining@) =~= s0.remaining.difference(
                                    page_ids(post),
                                ));
                            }
                        },
                        None => {
                            proof {
                                assert(id_set(self.remaining@) =~= s0.remaining.difference(
                                    page_ids(post),
                                ));
                                assert(s0.remaining.disjoint(page_ids(post))
                                    == s0.remaining.disjoint(page_ids(pre))) by {
                                    if s0.remaining.contains(id@) {
                                        assert(!id_set(rem0).contains(id@));
                                        assert(page_ids(pre).contains(id@));
                                    }
                                }
                            }
                        },
                    }
                },
                None => {
                    assert(page_ids(post) =~= page_ids(pre)) by {
                        assert forall|x: Seq<char>| page_ids(post).contains(x) implies page_ids(
                            pre,
                        ).contains(x) by {
                            let k = choose|k: int| 0 <= k < post.len() && post[k] == Some(x);
                            assert(k < i);
                            assert(pre[k] == Some(x));
                        }
                        assert forall|x: Seq<char>| page_ids(pre).contains(x) implies page_ids(
                            post,
                        ).contains(x) by {
                            let k = choose|k: int| 0 <= k < pre.len() && pre[k] == Some(x);
                            assert(post[k] == Some(x));
                        }
                    }
                },
            }
            i += 1;
        }
        proof {
            let pre = e.subrange(0, i as int);
            lemma_id_set_empty(self.remaining@);
            if i == entries.len() {
                assert(pre =~= e);
            } else {
                assert(page_ids(pre).subset_of(page_ids(e))) by {
                    assert forall|x: Seq<char>| page_ids(pre).contains(x) implies page_ids(
                        e,
                    ).contains(x) by {
                        let k = choose|k: int| 0 <= k < pre.len() && pre[k] == Some(x);
                        assert(e[k] == Some(x));
                    }
                }
                assert(s0.remaining.difference(page_ids(e)) =~= Set::empty());
                if !s0.remaining.disjoint(page_ids(e)) {
                    let x = choose|x: Seq<char>| s0.remaining.contains(x) && page_ids(e).contains(x);
                    assert(!s0.remaining.difference(page_ids(pre)).contains(x));
                }
            }
        }
        if self.remaining.len() == 0 {
            self.phase = Phase::Done;
            Action::Finish(SyncOutcome::Failed(FailReason::NothingToAdd))
        } else if has_more {
            if self.offset <= u32::MAX - PAGE_SIZE {
                self.offset = self.offset + PAGE_SIZE;
                Action::ListPage { offset: self.offset, limit: PAGE_SIZE }
            } else {
                self.phase = Phase::Done;
                Action::Finish(SyncOutcome::Failed(FailReason::ReadFailure))
            }
        } else {
            self.phase = Phase::Adding;
            Action::AddItems(copy_ids(&self.remaining))
        }
    }

    /// Takes in the failure of the last `ListPage` action: the synchronization fails
    /// without adding anything.
    pub fn on_read_failure(&mut self) -> (a: Action)
        requires
            old(self).wf(),
            old(self)@.phase == Phase::Scanning,
        ensures
            final(self).wf(),
            (final(self)@, a@) == after_read_failure(old(self)@),
            a == Action::Finish(SyncOutcome::Failed(FailReason::ReadFailure)),
    {
        self.phase = Phase::Done;
        Action::Finish(SyncOutcome::Failed(FailReason::ReadFailure))
    }

    /// Takes in the result of the `AddItems` action.
    pub fn on_add_result(&mut self, added: bool) -> (a: Action)
        requires
            old(self).wf(),
            old(self)@.phase == Phase::Adding,
        ensures
            final(self).wf(),
            (final(self)@, a@) == after_add(old(self)@, added),
            !added ==> a == Action::Finish(SyncOutcome::Failed(FailReason::WriteFailure)),
    {
        self.phase = Phase::Done;
        if !added {
            Action::Finish(SyncOutcome::Failed(FailReason::WriteFailure))
        } else if self.found_duplicate {
            Action::Finish(SyncOutcome::AddedWithDuplicates)
        } else {
            Action::Finish(SyncOutcome::Added)
        }
    }
}

} // verus!
