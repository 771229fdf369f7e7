use rand::random;
use s6_hcs::store::{FileManager, FileRecord};

#[test]
fn test_store_round_trip() {
    let mut fm = FileManager::new();
    let blocks: Vec<u128> = (0..65536u32).map(|_| random()).collect();
    let key: u128 = random();
    let id = fm.save_file("report.bin".to_string(), key, blocks.clone());

    let list = fm.get_file_list();
    let matching: Vec<_> = list.iter().filter(|e| e.0 == id).collect();
    assert_eq!(matching.len(), 1);
    assert_eq!(matching[0].1, 16 * blocks.len());
    assert_eq!(matching[0].2, "report.bin");

    let (back, back_key) = fm.get_file(id).unwrap();
    assert_eq!(back, blocks);
    assert_eq!(back_key, key);
}

#[test]
fn test_store_missing_file() {
    let mut fm = FileManager::new();
    let id = fm.save_file("a".to_string(), 1, vec![42]);
    assert!(fm.get_file(id.wrapping_add(1)).is_err());
}

#[test]
fn test_store_delete() {
    let mut fm = FileManager::new();
    let id = fm.save_file("a".to_string(), 1, vec![42]);
    let id2 = fm.save_file("b".to_string(), 2, vec![43]);
    assert!(fm.delete_file(id).is_ok());
    assert!(fm.get_file(id).is_err());
    let list = fm.get_file_list();
    assert_eq!(list.len(), 1);
    assert_eq!(list[0].0, id2);
}

#[test]
fn test_store_delete_locked_is_noop() {
    let mut fm = FileManager::new();
    fm.records.push(FileRecord {
        id: 7,
        name: "locked".to_string(),
        key: 9,
        blocks: vec![1, 2],
        has_metadata: true,
        locked: true,
    });
    assert!(fm.delete_file(7).is_ok());
    assert_eq!(fm.records.len(), 1);
}

#[test]
fn test_store_cleanup() {
    let mut fm = FileManager::new();
    fm.records.push(FileRecord {
        id: 1,
        name: "with_meta".to_string(),
        key: 0,
        blocks: vec![],
        has_metadata: true,
        locked: true,
    });
    fm.records.push(FileRecord {
        id: 2,
        name: "no_meta".to_string(),
        key: 0,
        blocks: vec![],
        has_metadata: false,
        locked: true,
    });
    fm.init_cleanup();
    assert!(!fm.records[0].locked);
    assert!(fm.records[1].locked);
    // a record without metadata is invisible to the listing
    let list = fm.get_file_list();
    assert_eq!(list.len(), 1);
    assert_eq!(list[0].0, 1);
}
