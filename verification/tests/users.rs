use os_sim::disk_manager::DiskManager;
use os_sim::gui_state::GuiState;
use os_sim::user::{print_job_lines, LineCommand, PrintJobError, User};

#[test]
fn lines_are_classified() {
    let mut dm = DiskManager::new(1);
    let mut u = User::new(0);
    assert_eq!(u.classify_line(".end"), LineCommand::End);
    assert_eq!(u.classify_line(".endless"), LineCommand::End);
    assert_eq!(u.classify_line(".save a.txt"), LineCommand::Save("a.txt".to_string()));
    assert_eq!(u.classify_line(".print b"), LineCommand::Print("b".to_string()));
    assert_eq!(u.classify_line(".save"), LineCommand::Unknown);
    assert_eq!(u.classify_line("hello"), LineCommand::Unknown);
    assert!(u.handle_save_command(&mut dm, "a".to_string()));
    assert_eq!(u.classify_line("hello"), LineCommand::Data("hello".to_string()));
    assert_eq!(u.classify_line(""), LineCommand::Data("".to_string()));
}

#[test]
fn saved_file_prints_back() {
    let mut dm = DiskManager::new(2);
    let mut g = GuiState::new(2, 2, 0);
    let mut u = User::new(0);
    assert!(u.handle_save_command(&mut dm, "f".to_string()));
    assert_eq!(u.cur_disk_id(), 0);
    assert!(u.save_line(&mut dm, &mut g, "one".to_string()));
    assert!(u.save_line(&mut dm, &mut g, "two".to_string()));
    assert!(u.handle_end_command(&mut dm));
    assert_eq!(u.cur_file(), None);
    assert!(!u.has_disk());
    assert_eq!(
        print_job_lines(&dm, &"f".to_string()),
        Ok(vec!["one".to_string(), "two".to_string()])
    );
    // the disk is free again, and the next file on it begins after this one
    assert_eq!(dm.request(), Some((0, 2)));
}

#[test]
fn second_file_does_not_overwrite_first() {
    let mut dm = DiskManager::new(1);
    let mut g = GuiState::new(2, 1, 0);
    let mut u = User::new(0);
    assert!(u.handle_save_command(&mut dm, "f".to_string()));
    assert!(u.save_line(&mut dm, &mut g, "a".to_string()));
    assert!(u.handle_end_command(&mut dm));
    assert!(u.handle_save_command(&mut dm, "g".to_string()));
    assert_eq!(u.cur_base_sector(), 1);
    assert!(u.save_line(&mut dm, &mut g, "b".to_string()));
    assert!(u.save_line(&mut dm, &mut g, "c".to_string()));
    assert_eq!(u.cur_file_length(), 2);
    assert!(u.handle_end_command(&mut dm));
    assert_eq!(print_job_lines(&dm, &"f".to_string()), Ok(vec!["a".to_string()]));
    assert_eq!(
        print_job_lines(&dm, &"g".to_string()),
        Ok(vec!["b".to_string(), "c".to_string()])
    );
}

#[test]
fn save_waits_when_no_disk_is_free() {
    let mut dm = DiskManager::new(1);
    let mut g = GuiState::new(2, 1, 0);
    let mut a = User::new(0);
    let mut b = User::new(1);
    assert!(a.handle_save_command(&mut dm, "x".to_string()));
    assert!(!b.handle_save_command(&mut dm, "y".to_string()));
    assert!(!b.has_disk());
    assert!(!b.save_line(&mut dm, &mut g, "lost".to_string()));
    assert!(a.handle_end_command(&mut dm));
    assert!(b.handle_save_command(&mut dm, "y".to_string()));
    assert_eq!(b.cur_disk_id(), 0);
    assert_eq!(b.cur_base_sector(), 0);
}

#[test]
fn end_without_save_does_nothing() {
    let mut dm = DiskManager::new(1);
    let mut u = User::new(0);
    assert!(!u.handle_end_command(&mut dm));
    assert_eq!(dm.request(), Some((0, 0)));
}

#[test]
fn printing_unknown_file_fails() {
    let dm = DiskManager::new(1);
    assert_eq!(print_job_lines(&dm, &"nope".to_string()), Err(PrintJobError::FileNotFound));
}

#[test]
fn printing_file_on_missing_disk_fails() {
    let mut dm = DiskManager::new(1);
    dm.enter_file_info(
        "f".to_string(),
        os_sim::directory_manager::FileInfo { disk_number: 5, starting_sector: 0, file_length: 1 },
    );
    assert_eq!(print_job_lines(&dm, &"f".to_string()), Err(PrintJobError::DiskNotFound));
}

#[test]
fn empty_file_prints_nothing() {
    let mut dm = DiskManager::new(1);
    let mut u = User::new(3);
    assert_eq!(u.id(), 3);
    assert!(u.handle_save_command(&mut dm, "e".to_string()));
    assert!(u.handle_end_command(&mut dm));
    assert_eq!(print_job_lines(&dm, &"e".to_string()), Ok(vec![]));
}
