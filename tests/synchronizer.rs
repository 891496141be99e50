use std::collections::HashSet;

use playlist_sync::{Action, FailReason, Phase, SyncOutcome, Synchronizer, PAGE_SIZE};

struct Remote {
    pages: Vec<Vec<Option<String>>>,
    fail_read_at: Option<u32>,
    add_ok: bool,
    reads: Vec<u32>,
    adds: Vec<Vec<String>>,
}

impl Remote {
    fn new(pages: Vec<Vec<Option<String>>>) -> Remote {
        Remote { pages, fail_read_at: None, add_ok: true, reads: Vec::new(), adds: Vec::new() }
    }
}

fn page_of(ids: &[&str]) -> Vec<Option<String>> {
    ids.iter().map(|s| Some(s.to_string())).collect()
}

fn numbered(from: u32, to: u32) -> Vec<Option<String>> {
    (from..=to).map(|n| Some(n.to_string())).collect()
}

fn synchronize(candidates: &[&str], remote: &mut Remote) -> SyncOutcome {
    let c: Vec<String> = candidates.iter().map(|s| s.to_string()).collect();
    let mut sync = Synchronizer::new(&c);
    let mut action = sync.first_request();
    loop {
        action = match action {
            Action::ListPage { offset, limit } => {
                assert_eq!(limit, PAGE_SIZE);
                assert_eq!(sync.phase(), Phase::Scanning);
                remote.reads.push(offset);
                if remote.fail_read_at == Some(offset) {
                    sync.on_read_failure()
                } else {
                    let k = (offset / limit) as usize;
                    let page = remote.pages.get(k).cloned().unwrap_or_default();
                    let more = k + 1 < remote.pages.len();
                    sync.on_page(&page, more)
                }
            }
            Action::AddItems(items) => {
                assert_eq!(sync.phase(), Phase::Adding);
                remote.adds.push(items);
                sync.on_add_result(remote.add_ok)
            }
            Action::Finish(outcome) => {
                assert_eq!(sync.phase(), Phase::Done);
                return outcome;
            }
        };
    }
}

fn as_set(items: &[String]) -> HashSet<String> {
    items.iter().cloned().collect()
}

fn set_of(items: &[&str]) -> HashSet<String> {
    items.iter().map(|s| s.to_string()).collect()
}

#[test]
fn two_pages_one_duplicate() {
    let mut remote = Remote::new(vec![numbered(1, 100), numbered(101, 150)]);
    let outcome = synchronize(&["101", "999"], &mut remote);
    assert_eq!(outcome, SyncOutcome::AddedWithDuplicates);
    assert_eq!(remote.adds, vec![vec!["999".to_string()]]);
    assert_eq!(remote.reads, vec![0, 100]);
}

#[test]
fn empty_collection_adds_everything() {
    let mut remote = Remote::new(vec![]);
    let outcome = synchronize(&["a", "b"], &mut remote);
    assert_eq!(outcome, SyncOutcome::Added);
    assert_eq!(remote.adds.len(), 1);
    assert_eq!(as_set(&remote.adds[0]), set_of(&["a", "b"]));
    assert_eq!(remote.adds[0].len(), 2);
    assert_eq!(remote.reads, vec![0]);
}

#[test]
fn single_candidate_already_present() {
    let mut remote = Remote::new(vec![page_of(&["x"])]);
    let outcome = synchronize(&["x"], &mut remote);
    assert_eq!(outcome, SyncOutcome::Failed(FailReason::NothingToAdd));
    assert!(remote.adds.is_empty());
}

#[test]
fn submitted_items_are_candidates_minus_collection() {
    let mut remote =
        Remote::new(vec![page_of(&["a", "b", "c"]), page_of(&["d", "e"]), page_of(&["f"])]);
    let outcome = synchronize(&["b", "f", "g", "h"], &mut remote);
    assert_eq!(outcome, SyncOutcome::AddedWithDuplicates);
    assert_eq!(remote.adds.len(), 1);
    assert_eq!(as_set(&remote.adds[0]), set_of(&["g", "h"]));
    assert_eq!(remote.adds[0].len(), 2);
    assert_eq!(remote.reads, vec![0, 100, 200]);
}

#[test]
fn all_candidates_present_across_pages() {
    let mut remote = Remote::new(vec![numbered(1, 100), numbered(101, 200), numbered(201, 250)]);
    let outcome = synchronize(&["5", "150"], &mut remote);
    assert_eq!(outcome, SyncOutcome::Failed(FailReason::NothingToAdd));
    assert!(remote.adds.is_empty());
    assert_eq!(remote.reads, vec![0, 100]);
}

#[test]
fn disjoint_candidates_are_all_added() {
    let mut remote = Remote::new(vec![numbered(1, 100), numbered(101, 120)]);
    let outcome = synchronize(&["500", "600", "700"], &mut remote);
    assert_eq!(outcome, SyncOutcome::Added);
    assert_eq!(as_set(&remote.adds[0]), set_of(&["500", "600", "700"]));
    assert_eq!(remote.reads, vec![0, 100]);
}

#[test]
fn scan_stops_once_every_candidate_is_found() {
    let pages: Vec<Vec<Option<String>>> =
        (0..50).map(|p| numbered(p * 100 + 1, p * 100 + 100)).collect();
    let mut remote = Remote::new(pages);
    let outcome = synchronize(&["7", "42"], &mut remote);
    assert_eq!(outcome, SyncOutcome::Failed(FailReason::NothingToAdd));
    assert_eq!(remote.reads, vec![0]);
    assert!(remote.adds.is_empty());
}

#[test]
fn scan_stops_on_the_page_that_completes_the_set() {
    let pages: Vec<Vec<Option<String>>> =
        (0..50).map(|p| numbered(p * 100 + 1, p * 100 + 100)).collect();
    let mut remote = Remote::new(pages);
    let outcome = synchronize(&["7", "342"], &mut remote);
    assert_eq!(outcome, SyncOutcome::Failed(FailReason::NothingToAdd));
    assert_eq!(remote.reads, vec![0, 100, 200, 300]);
}

#[test]
fn read_failure_on_first_page() {
    let mut remote = Remote::new(vec![numbered(1, 100)]);
    remote.fail_read_at = Some(0);
    let outcome = synchronize(&["1", "999"], &mut remote);
    assert_eq!(outcome, SyncOutcome::Failed(FailReason::ReadFailure));
    assert!(remote.adds.is_empty());
}

#[test]
fn read_failure_on_later_page() {
    let mut remote = Remote::new(vec![numbered(1, 100), numbered(101, 200), numbered(201, 210)]);
    remote.fail_read_at = Some(200);
    let outcome = synchronize(&["1", "999"], &mut remote);
    assert_eq!(outcome, SyncOutcome::Failed(FailReason::ReadFailure));
    assert!(remote.adds.is_empty());
    assert_eq!(remote.reads, vec![0, 100, 200]);
}

#[test]
fn add_failure_without_duplicates() {
    let mut remote = Remote::new(vec![page_of(&["a"])]);
    remote.add_ok = false;
    let outcome = synchronize(&["b"], &mut remote);
    assert_eq!(outcome, SyncOutcome::Failed(FailReason::WriteFailure));
    assert_eq!(remote.adds.len(), 1);
}

#[test]
fn add_failure_with_duplicates() {
    let mut remote = Remote::new(vec![page_of(&["a"])]);
    remote.add_ok = false;
    let outcome = synchronize(&["a", "b"], &mut remote);
    assert_eq!(outcome, SyncOutcome::Failed(FailReason::WriteFailure));
    assert_eq!(remote.adds, vec![vec!["b".to_string()]]);
}

#[test]
fn entries_without_identifier_match_nothing() {
    let mut remote = Remote::new(vec![vec![None, Some("a".to_string()), None]]);
    let outcome = synchronize(&["b"], &mut remote);
    assert_eq!(outcome, SyncOutcome::Added);
    assert_eq!(remote.adds, vec![vec!["b".to_string()]]);
}

#[test]
fn repeated_candidates_count_once() {
    let mut remote = Remote::new(vec![page_of(&["z"])]);
    let outcome = synchronize(&["q", "q", "q"], &mut remote);
    assert_eq!(outcome, SyncOutcome::Added);
    assert_eq!(remote.adds, vec![vec!["q".to_string()]]);
}

#[test]
fn repeated_entries_in_collection() {
    let mut remote = Remote::new(vec![page_of(&["a", "a"]), page_of(&["a"])]);
    let outcome = synchronize(&["a", "c"], &mut remote);
    assert_eq!(outcome, SyncOutcome::AddedWithDuplicates);
    assert_eq!(remote.adds, vec![vec!["c".to_string()]]);
}

#[test]
fn first_request_reads_offset_zero() {
    let c = vec!["a".to_string()];
    let sync = Synchronizer::new(&c);
    assert_eq!(sync.phase(), Phase::Scanning);
    match sync.first_request() {
        Action::ListPage { offset, limit } => {
            assert_eq!(offset, 0);
            assert_eq!(limit, 100);
        }
        other => panic!("unexpected first action {:?}", other),
    }
}

#[test]
fn outcome_descriptions_and_reactions() {
    assert_eq!(FailReason::NothingToAdd.description(), "empty after filtering");
    assert_eq!(FailReason::WriteFailure.description(), "remote add call failed");
    assert_eq!(FailReason::ReadFailure.description(), "remote read/auth failed");
    assert_eq!(SyncOutcome::Added.reaction(), "\u{1F50A}");
    assert_eq!(SyncOutcome::AddedWithDuplicates.reaction(), "\u{2049}\u{FE0F}");
    assert_eq!(SyncOutcome::Failed(FailReason::ReadFailure).reaction(), "\u{1F507}");
    assert_eq!(SyncOutcome::Failed(FailReason::NothingToAdd).reaction(), "\u{1F507}");
    assert!(SyncOutcome::Added.is_success());
    assert!(SyncOutcome::AddedWithDuplicates.is_success());
    assert!(!SyncOutcome::Failed(FailReason::WriteFailure).is_success());
}
