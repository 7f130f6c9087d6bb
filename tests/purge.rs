use s3_migrate::purge::{Purge, PurgeAction, PurgePhase};

fn keys(v: &[&str]) -> Vec<String> {
    v.iter().map(|k| k.to_string()).collect()
}

/// Runs a purge over the given pages and returns the deleted keys and how
/// many times the bucket was deleted.
fn run(pages: &[Vec<String>]) -> (Vec<String>, usize) {
    let mut purge = Purge::new();
    let mut deleted = Vec::new();
    let mut bucket_deletes = 0;
    let mut page = 0;
    let mut action = PurgeAction::ListPage(None);
    loop {
        action = match action {
            PurgeAction::ListPage(marker) => {
                assert_eq!(marker.is_some(), page > 0);
                let next = if page + 1 < pages.len() { Some(format!("m{}", page)) } else { None };
                let a = purge.on_page(&pages[page], next);
                page += 1;
                a
            }
            PurgeAction::DeleteObject(k) => {
                assert_eq!(bucket_deletes, 0);
                deleted.push(k);
                purge.on_deleted()
            }
            PurgeAction::DeleteBucket => {
                bucket_deletes += 1;
                purge.on_bucket_deleted()
            }
            PurgeAction::Done => break,
        };
    }
    assert_eq!(purge.current_phase(), PurgePhase::Done);
    (deleted, bucket_deletes)
}

#[test]
fn purge_empty_bucket_deletes_only_bucket() {
    let (deleted, bucket_deletes) = run(&[vec![]]);
    assert!(deleted.is_empty());
    assert_eq!(bucket_deletes, 1);
}

#[test]
fn purge_deletes_each_key_once_across_pages() {
    let pages = vec![keys(&["a", "b"]), keys(&["b", "c"]), keys(&["c", "a", "d"])];
    let (deleted, bucket_deletes) = run(&pages);
    assert_eq!(deleted, keys(&["a", "b", "c", "d"]));
    assert_eq!(bucket_deletes, 1);
}

#[test]
fn purge_count_does_not_depend_on_paging() {
    let one = run(&[keys(&["k1", "k2", "k3", "k4", "k5"])]).0;
    let many = run(&[keys(&["k1"]), keys(&["k2", "k3"]), vec![], keys(&["k4", "k5"])]).0;
    assert_eq!(one.len(), 5);
    assert_eq!(many.len(), 5);
    assert_eq!(one, many);
}

#[test]
fn purge_follows_marker() {
    let mut purge = Purge::new();
    match purge.on_page(&keys(&["x"]), Some("x".to_string())) {
        PurgeAction::ListPage(Some(m)) => assert_eq!(m, "x"),
        _ => panic!("expected next page"),
    }
    assert_eq!(purge.current_phase(), PurgePhase::Listing);
    match purge.on_page(&keys(&["y"]), None) {
        PurgeAction::DeleteObject(k) => assert_eq!(k, "x"),
        _ => panic!("expected deletion"),
    }
    match purge.on_deleted() {
        PurgeAction::DeleteObject(k) => assert_eq!(k, "y"),
        _ => panic!("expected deletion"),
    }
    assert!(matches!(purge.on_deleted(), PurgeAction::DeleteBucket));
    assert!(matches!(purge.on_bucket_deleted(), PurgeAction::Done));
}
