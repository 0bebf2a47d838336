use os_sim::directory_manager::{DirectoryManager, FileInfo};

fn info(d: usize, s: usize, l: usize) -> FileInfo {
    FileInfo { disk_number: d, starting_sector: s, file_length: l }
}

#[test]
fn lookup_in_empty_directory_gives_none() {
    let dm = DirectoryManager::new();
    assert_eq!(dm.lookup(&"a".to_string()), None);
}

#[test]
fn lookup_after_enter_gives_entry() {
    let mut dm = DirectoryManager::new();
    dm.enter("a".to_string(), info(1, 2, 3));
    assert_eq!(dm.lookup(&"a".to_string()), Some(info(1, 2, 3)));
    assert_eq!(dm.lookup(&"b".to_string()), None);
}

#[test]
fn enter_same_name_replaces_entry() {
    let mut dm = DirectoryManager::new();
    dm.enter("a".to_string(), info(1, 2, 3));
    dm.enter("b".to_string(), info(0, 0, 5));
    dm.enter("a".to_string(), info(4, 5, 6));
    assert_eq!(dm.lookup(&"a".to_string()), Some(info(4, 5, 6)));
    assert_eq!(dm.lookup(&"b".to_string()), Some(info(0, 0, 5)));
}
