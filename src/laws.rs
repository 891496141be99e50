use vstd::prelude::*;
use crate::outcome::{FailReason, SyncOutcome};
use crate::sync::{
    add_outcome, after_add, after_page, first_request, initial, page_ids, ActionView, Phase,
    SyncView, PAGE_SIZE,
};

verus! {

/// A remote collection, as the pages that successive reads return.
pub type Pages = Seq<Seq<Option<Seq<char>>>>;

/// Page `k` of the collection; past the end a read returns an empty page.
pub open spec fn page_at(pages: Pages, k: nat) -> Seq<Option<Seq<char>>> {
    if k < pages.len() {
        pages[k as int]
    } else {
        Seq::empty()
    }
}

/// The identifiers found in the pages before page `k`.
pub open spec fn ids_before(pages: Pages, k: nat) -> Set<Seq<char>>
    decreases k,
{
    if k == 0 {
        Set::empty()
    } else {
        ids_before(pages, (k - 1) as nat).union(page_ids(page_at(pages, (k - 1) as nat)))
    }
}

/// Every identifier in the collection.
pub open spec fn collection_ids(pages: Pages) -> Set<Seq<char>> {
    ids_before(pages, pages.len())
}

/// The offset of page `k`.
pub open spec fn page_offset(k: nat) -> nat {
    k * (PAGE_SIZE as nat)
}

/// Every page offset of the collection fits the offset type of a page read.
pub open spec fn offsets_fit(pages: Pages) -> bool {
    pages.len() * PAGE_SIZE <= u32::MAX
}

/// The actions a synchronizer in state `s` requests from action `a` on, when each page
/// read succeeds with the collection's page at that offset and the add call succeeds
/// exactly when `added` holds.
pub open spec fn drive(s: SyncView, a: ActionView, pages: Pages, added: bool, fuel: nat) -> Seq<
    ActionView,
>
    decreases fuel,
{
    if fuel == 0 {
        seq![a]
    } else {
        match a {
            ActionView::ListPage { offset, limit } => {
                let k = offset / (PAGE_SIZE as nat);
                let next = after_page(s, page_at(pages, k), k + 1 < pages.len());
                seq![a] + drive(next.0, next.1, pages, added, (fuel - 1) as nat)
            },
            ActionView::AddItems(_) => {
                let next = after_add(s, added);
                seq![a] + drive(next.0, next.1, pages, added, (fuel - 1) as nat)
            },
            ActionView::Finish(_) => seq![a],
        }
    }
}

/// All actions of a synchronization of `candidates` against the collection `pages`.
pub open spec fn run(candidates: Set<Seq<char>>, pages: Pages, added: bool) -> Seq<ActionView> {
    drive(initial(candidates), first_request(), pages, added, pages.len() + 3)
}

/// The outcome a synchronization must end with.
pub open spec fn expected_outcome(c: Set<Seq<char>>, d: Set<Seq<char>>, added: bool) -> SyncOutcome {
    if c.subset_of(d) {
        SyncOutcome::Failed(FailReason::NothingToAdd)
    } else {
        add_outcome(!c.disjoint(d), added)
    }
}

/// A page read requested while some candidate has not been seen in the pages before it.
pub open spec fn read_is_needed(c: Set<Seq<char>>, pages: Pages, a: ActionView) -> bool {
    match a {
        ActionView::ListPage { offset, .. } => !c.subset_of(
            ids_before(pages, offset / (PAGE_SIZE as nat)),
        ),
        _ => true,
    }
}

/// An add call, if `a` is one, submits exactly the candidates outside the collection.
pub open spec fn submits_new_only(c: Set<Seq<char>>, d: Set<Seq<char>>, a: ActionView) -> bool {
    match a {
        ActionView::AddItems(x) => x == c.difference(d),
        _ => true,
    }
}

proof fn lemma_ids_before_mono(pages: Pages, k: nat, m: nat)
    requires
        k <= m,
    ensures
        ids_before(pages, k).subset_of(ids_before(pages, m)),
    decreases m,
{
    if k < m {
        lemma_ids_before_mono(pages, k, (m - 1) as nat);
    }
}

proof fn lemma_ids_before_end(pages: Pages, k: nat)
    requires
        k >= pages.len(),
    ensures
        ids_before(pages, k) == collection_ids(pages),
    decreases k,
{
    if k > pages.len() {
        lemma_ids_before_end(pages, (k - 1) as nat);
        assert(page_ids(page_at(pages, (k - 1) as nat)) =~= Set::empty());
        assert(ids_before(pages, k) =~= ids_before(pages, (k - 1) as nat));
    }
}

/// The state of a scan that has read the pages before page `k`.
spec fn scan_state(c: Set<Seq<char>>, pages: Pages, k: nat) -> SyncView {
    SyncView {
        remaining: c.difference(ids_before(pages, k)),
        found_duplicate: !c.disjoint(ids_before(pages, k)),
        offset: page_offset(k),
        phase: Phase::Scanning,
    }
}

/// The request for page `k`.
spec fn scan_request(k: nat) -> ActionView {
    ActionView::ListPage { offset: page_offset(k), limit: PAGE_SIZE as nat }
}

/// What every trace of a synchronization of `c` against `pages` satisfies.
spec fn trace_ok(c: Set<Seq<char>>, pages: Pages, added: bool, t: Seq<ActionView>) -> bool {
    let d = collection_ids(pages);
    &&& t.len() > 0
    &&& t.last() == ActionView::Finish(expected_outcome(c, d, added))
    &&& (forall|i: int| 0 <= i < t.len() ==> read_is_needed(c, pages, #[trigger] t[i]))
    &&& (forall|i: int| 0 <= i < t.len() ==> submits_new_only(c, d, #[trigger] t[i]))
    &&& (c.subset_of(d) ==> (forall|i: int| 0 <= i < t.len() ==> !(#[trigger] t[i] is AddItems)))
}

/// What a scan that has reached page `k` requests from there on.
proof fn lemma_scan_from(c: Set<Seq<char>>, pages: Pages, added: bool, k: nat, fuel: nat)
    requires
        offsets_fit(pages),
        k == 0 || k < pages.len(),
        fuel >= pages.len() - k + 2,
        !c.subset_of(ids_before(pages, k)),
    ensures
        trace_ok(c, pages, added, drive(scan_state(c, pages, k), scan_request(k), pages, added, fuel)),
    decreases fuel,
{
    let s = scan_state(c, pages, k);
    let a = scan_request(k);
    let t = drive(s, a, pages, added, fuel);
    let d = collection_ids(pages);
    let before = ids_before(pages, k);
    let after = ids_before(pages, k + 1);
    let e = page_at(pages, k);
    let more = k + 1 < pages.len();
    assert(page_offset(k) / (PAGE_SIZE as nat) == k) by (nonlinear_arith);
    let next = after_page(s, e, more);
    let rest = drive(next.0, next.1, pages, added, (fuel - 1) as nat);
    assert(t == seq![a] + rest);
    assert(t[0] == a);
    assert(after == before.union(page_ids(e)));
    assert(next.0.remaining =~= c.difference(after));
    assert(next.0.found_duplicate == !c.disjoint(after)) by {
        if !c.disjoint(after) {
            let x = choose|x: Seq<char>| c.contains(x) && after.contains(x);
            if !before.contains(x) {
                assert(s.remaining.contains(x) && page_ids(e).contains(x));
            }
        }
    }
    if more {
        lemma_ids_before_mono(pages, k + 1, pages.len());
    } else {
        lemma_ids_before_end(pages, k + 1);
    }
    assert(after.subset_of(d));
    assert(read_is_needed(c, pages, a));
    if next.0.remaining.is_empty() {
        assert(c.subset_of(after)) by {
            assert forall|x: Seq<char>| c.contains(x) implies after.contains(x) by {
                assert(!next.0.remaining.contains(x));
            }
        }
        assert(c.subset_of(d));
        assert(rest == seq![next.1]);
        assert(t =~= seq![a, next.1]);
    } else {
        let x = choose|x: Seq<char>| next.0.remaining.contains(x);
        assert(!c.subset_of(after)) by {
            assert(c.contains(x) && !after.contains(x));
        }
        if more {
            assert(page_offset(k) + PAGE_SIZE == page_offset(k + 1)) by (nonlinear_arith);
            assert(page_offset(k + 1) <= pages.len() * PAGE_SIZE) by (nonlinear_arith)
                requires
                    k + 1 < pages.len(),
            ;
            lemma_scan_from(c, pages, added, k + 1, (fuel - 1) as nat);
            assert(next.0 == scan_state(c, pages, k + 1));
            assert(next.1 == scan_request(k + 1));
            assert(trace_ok(c, pages, added, rest));
            assert forall|i: int| 0 <= i < t.len() implies read_is_needed(
                c,
                pages,
                #[trigger] t[i],
            ) && submits_new_only(c, d, t[i]) && (c.subset_of(d) ==> !(t[i] is AddItems)) by {
                if i > 0 {
                    assert(t[i] == rest[i - 1]);
                }
            }
        } else {
            assert(after == d);
            let fin = after_add(next.0, added);
            assert(rest == seq![next.1] + drive(fin.0, fin.1, pages, added, (fuel - 2) as nat));
            assert(drive(fin.0, fin.1, pages, added, (fuel - 2) as nat) == seq![fin.1]);
            assert(next.1 == ActionView::AddItems(c.difference(d)));
            assert(t =~= seq![a, next.1, fin.1]);
        }
    }
}

/// The identifiers submitted to the add call are exactly the candidates that are not in
/// the collection.
pub proof fn lemma_submitted_are_new(candidates: Set<Seq<char>>, pages: Pages, added: bool)
    requires
        !candidates.is_empty(),
        offsets_fit(pages),
    ensures
        forall|i: int|
            0 <= i < run(candidates, pages, added).len() ==> submits_new_only(candidates, collection_ids(pages), #[trigger] run(
                candidates,
                pages,
                added,
            )[i]),
{
    lemma_start(candidates, pages, added);
}

/// When every candidate is already in the collection, the add call is never made and the
/// synchronization fails with nothing to add.
pub proof fn lemma_all_present(candidates: Set<Seq<char>>, pages: Pages, added: bool)
    requires
        !candidates.is_empty(),
        offsets_fit(pages),
        candidates.subset_of(collection_ids(pages)),
    ensures
        run(candidates, pages, added).last() == ActionView::Finish(
            SyncOutcome::Failed(FailReason::NothingToAdd),
        ),
        forall|i: int|
            0 <= i < run(candidates, pages, added).len() ==> !(#[trigger] run(
                candidates,
                pages,
                added,
            )[i] is AddItems),
{
    lemma_start(candidates, pages, added);
}

/// When no candidate is in the collection and the add call succeeds, all were added.
pub proof fn lemma_all_new(candidates: Set<Seq<char>>, pages: Pages)
    requires
        !candidates.is_empty(),
        offsets_fit(pages),
        candidates.disjoint(collection_ids(pages)),
    ensures
        run(candidates, pages, true).last() == ActionView::Finish(SyncOutcome::Added),
{
    lemma_start(candidates, pages, true);
    let x = choose|x: Seq<char>| candidates.contains(x);
    assert(!collection_ids(pages).contains(x));
}

/// When some but not all candidates are in the collection and the add call succeeds, the
/// outcome reports duplicates.
pub proof fn lemma_some_present(candidates: Set<Seq<char>>, pages: Pages)
    requires
        offsets_fit(pages),
        !candidates.disjoint(collection_ids(pages)),
        !candidates.subset_of(collection_ids(pages)),
    ensures
        run(candidates, pages, true).last() == ActionView::Finish(
            SyncOutcome::AddedWithDuplicates,
        ),
{
    assert(!candidates.is_empty()) by {
        if candidates.is_empty() {
            assert(candidates.subset_of(collection_ids(pages)));
        }
    }
    lemma_start(candidates, pages, true);
}

/// When the add call fails, the synchronization fails with a write failure, whatever
/// duplicates were found, unless nothing was left to add.
pub proof fn lemma_add_failure(candidates: Set<Seq<char>>, pages: Pages)
    requires
        offsets_fit(pages),
        !candidates.subset_of(collection_ids(pages)),
    ensures
        run(candidates, pages, false).last() == ActionView::Finish(
            SyncOutcome::Failed(FailReason::WriteFailure),
        ),
{
    assert(!candidates.is_empty()) by {
        if candidates.is_empty() {
            assert(candidates.subset_of(collection_ids(pages)));
        }
    }
    lemma_start(candidates, pages, false);
}

/// A page is only read while some candidate has not been seen in the pages before it: the
/// scan stops as soon as every candidate has been found.
pub proof fn lemma_scan_stops_early(candidates: Set<Seq<char>>, pages: Pages, added: bool)
    requires
        !candidates.is_empty(),
        offsets_fit(pages),
    ensures
        forall|i: int|
            0 <= i < run(candidates, pages, added).len() ==> read_is_needed(candidates, pages, #[trigger] run(
                candidates,
                pages,
                added,
            )[i]),
{
    lemma_start(candidates, pages, added);
}

proof fn lemma_start(c: Set<Seq<char>>, pages: Pages, added: bool)
    requires
        !c.is_empty(),
        offsets_fit(pages),
    ensures
        trace_ok(c, pages, added, run(c, pages, added)),
{
    assert(c.difference(ids_before(pages, 0)) =~= c);
    assert(c.disjoint(ids_before(pages, 0)));
    assert(!c.subset_of(ids_before(pages, 0))) by {
        let x = choose|x: Seq<char>| c.contains(x);
        assert(!c.subset_of(Set::empty())) by {
            if c.subset_of(Set::empty()) {
                assert(c =~= Set::empty());
            }
        }
    }
    assert(initial(c) == scan_state(c, pages, 0));
    assert(first_request() == scan_request(0));
    lemma_scan_from(c, pages, added, 0, pages.len() + 3);
}

} // verus!
