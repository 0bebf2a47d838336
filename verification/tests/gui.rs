use os_sim::gui_state::GuiState;

#[test]
fn new_state_shows_nothing_in_use() {
    let g = GuiState::new(2, 3, 1);
    assert_eq!(g.num_users(), 2);
    assert_eq!(g.num_disks(), 3);
    assert_eq!(g.num_printers(), 1);
    assert_eq!(g.user_command(1), "");
    assert_eq!(g.disk_action(2), "Not in use");
    assert_eq!(g.disk_sector(2), 0);
    assert_eq!(g.printer_string(0), "");
    assert_eq!(g.num_printed_lines(0), 0);
    assert_eq!(g.prints_waiting(), 0);
    assert!(g.user_active(0) && g.disk_active(0) && g.printer_active(0));
}

#[test]
fn update_printer_counts_lines_and_names_file() {
    let mut g = GuiState::new(0, 0, 2);
    g.update_printer(1, Some("notes".to_string()));
    assert_eq!(g.printer_string(1), "Printing file: notes");
    assert_eq!(g.num_printed_lines(1), 1);
    g.update_printer(1, Some("notes".to_string()));
    assert_eq!(g.num_printed_lines(1), 2);
    g.update_printer(1, None);
    assert_eq!(g.printer_string(1), "Not in use");
    assert_eq!(g.num_printed_lines(1), 2);
    assert_eq!(g.num_printed_lines(0), 0);
}

#[test]
fn prints_waiting_goes_up_and_down() {
    let mut g = GuiState::default();
    g.increase_prints_waiting();
    g.increase_prints_waiting();
    g.decrease_prints_waiting();
    assert_eq!(g.prints_waiting(), 1);
}

#[test]
fn pause_and_resume() {
    let mut g = GuiState::new(1, 1, 1);
    g.set_user_inactive(0);
    g.set_disk_inactive(0);
    g.set_printer_inactive(0);
    assert!(!g.user_active(0) && !g.disk_active(0) && !g.printer_active(0));
    g.set_user_active(0);
    g.set_disk_active(0);
    g.set_printer_active(0);
    assert!(g.user_active(0) && g.disk_active(0) && g.printer_active(0));
}

#[test]
fn toggles_flip_activity() {
    let mut g = GuiState::new(1, 1, 1);
    g.toggle_user_active(0);
    g.toggle_disk_active(0);
    g.toggle_printer_active(0);
    assert!(!g.user_active(0) && !g.disk_active(0) && !g.printer_active(0));
    g.toggle_user_active(0);
    g.toggle_disk_active(0);
    g.toggle_printer_active(0);
    assert!(g.user_active(0) && g.disk_active(0) && g.printer_active(0));
}

#[test]
fn update_user_and_disk() {
    let mut g = GuiState::new(1, 1, 0);
    g.update_user(0, "Saving file: a".to_string());
    g.update_disk(0, "Writing file: a".to_string(), 12);
    assert_eq!(g.user_command(0), "Saving file: a");
    assert_eq!(g.disk_action(0), "Writing file: a");
    assert_eq!(g.disk_sector(0), 12);
}
