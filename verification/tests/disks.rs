use os_sim::directory_manager::FileInfo;
use os_sim::disk::{Disk, NUM_SECTORS};
use os_sim::disk_manager::DiskManager;
use os_sim::gui_state::GuiState;

#[test]
fn new_disk_has_empty_sectors() {
    let d = Disk::new(3);
    assert_eq!(d.read(0), "");
    assert_eq!(d.read(NUM_SECTORS - 1), "");
}

#[test]
fn disk_read_gives_back_write() {
    let mut d = Disk::new(0);
    let mut g = GuiState::new(0, 1, 0);
    d.write(&mut g, 5, "hello".to_string());
    assert_eq!(g.disk_sector(0), 5);
    d.write(&mut g, 6, "world".to_string());
    assert_eq!(g.disk_sector(0), 6);
    assert_eq!(g.disk_action(0), "Not in use");
    assert_eq!(d.read(5), "hello");
    assert_eq!(d.read(6), "world");
    assert_eq!(d.read(4), "");
    d.write(&mut g, 5, "again".to_string());
    assert_eq!(d.read(5), "again");
}

#[test]
fn request_hands_out_lowest_free_disk() {
    let mut dm = DiskManager::new(2);
    assert_eq!(dm.request(), Some((0, 0)));
    assert_eq!(dm.request(), Some((1, 0)));
    assert_eq!(dm.request(), None);
    dm.release(0);
    dm.set_next_free_sector(0, 7);
    assert_eq!(dm.request(), Some((0, 7)));
    assert_eq!(dm.request(), None);
}

#[test]
fn request_with_no_disks_gives_none() {
    let mut dm = DiskManager::new(0);
    assert_eq!(dm.request(), None);
    assert!(dm.get_disk(0).is_none());
}

#[test]
fn get_disk_only_for_existing_disks() {
    let mut dm = DiskManager::new(2);
    let mut g = GuiState::new(0, 2, 0);
    dm.write_sector(&mut g, 1, 3, "x".to_string());
    assert_eq!(g.disk_sector(1), 3);
    assert_eq!(g.disk_sector(0), 0);
    assert_eq!(dm.get_disk(1).unwrap().read(3), "x");
    assert_eq!(dm.get_disk(0).unwrap().read(3), "");
    assert!(dm.get_disk(2).is_none());
}

#[test]
fn file_info_is_kept_by_name() {
    let mut dm = DiskManager::new(1);
    let info = FileInfo { disk_number: 0, starting_sector: 4, file_length: 2 };
    dm.enter_file_info("f".to_string(), info);
    assert_eq!(dm.get_file_info(&"f".to_string()), Some(info));
    assert_eq!(dm.get_file_info(&"g".to_string()), None);
}
