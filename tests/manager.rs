use blobcache::{CacheMgrState, StorageError};

#[test]
fn get_or_insert_deduplicates_by_blob_id() {
    let mut mgr: CacheMgrState<u32> = CacheMgrState::new();
    assert_eq!(mgr.get_or_insert("blob-a".to_string(), 1), Ok(0));
    assert_eq!(mgr.get_or_insert("blob-b".to_string(), 2), Ok(1));
    assert_eq!(mgr.get_or_insert("blob-a".to_string(), 3), Ok(0));
    assert_eq!(mgr.get("blob-a"), Some(&1));
    assert_eq!(mgr.get("blob-b"), Some(&2));
    assert_eq!(mgr.get("blob-c"), None);
    assert_eq!(mgr.entries.len(), 2);
}

#[test]
fn gc_by_id_and_by_sharing() {
    let mut mgr: CacheMgrState<u32> = CacheMgrState::new();
    mgr.get_or_insert("a".to_string(), 1).unwrap();
    mgr.get_or_insert("b".to_string(), 2).unwrap();
    mgr.get_or_insert("c".to_string(), 3).unwrap();
    assert!(!mgr.gc(Some("b"), &Vec::new()));
    assert_eq!(mgr.get("b"), None);
    assert_eq!(mgr.ids, vec!["a".to_string(), "c".to_string()]);
    assert!(!mgr.gc(None, &vec![true, false]));
    assert_eq!(mgr.ids, vec!["c".to_string()]);
    assert_eq!(mgr.entries, vec![3]);
    assert!(mgr.gc(None, &vec![true]));
    assert!(mgr.gc(Some("missing"), &Vec::new()));
}

#[test]
fn destroy_twice_is_same_as_once() {
    let mut mgr: CacheMgrState<u32> = CacheMgrState::new();
    mgr.get_or_insert("a".to_string(), 1).unwrap();
    assert!(mgr.destroy());
    let (ids, closed, stopped) = (mgr.ids.clone(), mgr.closed, mgr.workers_stopped);
    assert!(!mgr.destroy());
    assert_eq!(mgr.ids, ids);
    assert_eq!(mgr.closed, closed);
    assert_eq!(mgr.workers_stopped, stopped);
    assert!(mgr.closed);
    assert!(mgr.workers_stopped);
}

#[test]
fn closed_manager_creates_no_entry() {
    let mut mgr: CacheMgrState<u32> = CacheMgrState::new();
    mgr.get_or_insert("a".to_string(), 1).unwrap();
    mgr.destroy();
    assert_eq!(mgr.get_or_insert("a".to_string(), 9), Ok(0));
    assert_eq!(
        mgr.get_or_insert("b".to_string(), 2),
        Err(StorageError::Unsupported)
    );
    assert_eq!(mgr.entries, vec![1]);
}

#[test]
fn watchdog_needs_consecutive_ready_checks() {
    let mut mgr: CacheMgrState<u32> = CacheMgrState::new();
    assert!(!mgr.check_stat(true));
    assert_eq!(mgr.blobs_check_count, 1);
    assert!(!mgr.check_stat(false));
    assert_eq!(mgr.blobs_check_count, 0);
    assert!(!mgr.check_stat(true));
    assert!(mgr.check_stat(true));
    assert!(mgr.data_all_ready);
    assert!(mgr.workers_stopped);
}
