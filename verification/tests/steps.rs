use os_sim::disk_manager::DiskManager;
use os_sim::gui_state::GuiState;
use os_sim::print_job::{PrintJob, PrintStep};
use os_sim::printer_manager::PrinterManager;
use os_sim::user::{print_job_lines, LineOutcome, PrintJobError, User};

#[test]
fn unknown_command_is_shown() {
    let mut dm = DiskManager::new(1);
    let mut g = GuiState::new(1, 1, 1);
    let mut u = User::new(0);
    assert_eq!(u.handle_line(&mut dm, &mut g, "hello"), LineOutcome::Unknown);
    assert_eq!(g.user_command(0), "Unknown Command");
    assert_eq!(u.cur_file(), None);
    assert_eq!(dm.request(), Some((0, 0)));
}

#[test]
fn save_write_end_through_steps() {
    let mut dm = DiskManager::new(1);
    let mut g = GuiState::new(1, 1, 1);
    let mut u = User::new(0);
    assert_eq!(u.handle_line(&mut dm, &mut g, ".save f"), LineOutcome::SaveStarted);
    assert_eq!(g.user_command(0), "Saving file: f");
    assert_eq!(g.disk_action(0), "Writing file: f");
    assert_eq!(u.handle_line(&mut dm, &mut g, "first"), LineOutcome::Written);
    assert_eq!(g.disk_sector(0), 0);
    assert_eq!(u.handle_line(&mut dm, &mut g, "second"), LineOutcome::Written);
    assert_eq!(g.disk_sector(0), 1);
    assert_eq!(u.handle_line(&mut dm, &mut g, ".end"), LineOutcome::Ended);
    assert_eq!(g.disk_action(0), "Not in use");
    assert_eq!(g.disk_sector(0), 1);
    assert_eq!(
        print_job_lines(&dm, &"f".to_string()),
        Ok(vec!["first".to_string(), "second".to_string()])
    );
    assert_eq!(u.handle_line(&mut dm, &mut g, ".end"), LineOutcome::NoFileToEnd);
}

#[test]
fn print_line_shows_and_asks_for_job() {
    let mut dm = DiskManager::new(1);
    let mut g = GuiState::new(1, 1, 1);
    let mut u = User::new(0);
    assert_eq!(u.handle_line(&mut dm, &mut g, ".print x"), LineOutcome::Print("x".to_string()));
    assert_eq!(g.user_command(0), "Printing file: x");
}

#[test]
fn paused_disk_and_busy_disk_ask_to_retry() {
    let mut dm = DiskManager::new(1);
    let mut g = GuiState::new(2, 1, 1);
    let mut a = User::new(0);
    let mut b = User::new(1);
    assert_eq!(a.handle_line(&mut dm, &mut g, ".save f"), LineOutcome::SaveStarted);
    assert_eq!(b.handle_line(&mut dm, &mut g, ".save g"), LineOutcome::NoDiskFree);
    assert_eq!(g.user_command(1), "");
    g.set_disk_inactive(0);
    assert_eq!(a.handle_line(&mut dm, &mut g, "line"), LineOutcome::DiskPaused);
    assert_eq!(a.cur_file_length(), 0);
    g.set_disk_active(0);
    assert_eq!(a.handle_line(&mut dm, &mut g, "line"), LineOutcome::Written);
    assert_eq!(a.handle_line(&mut dm, &mut g, ".end"), LineOutcome::Ended);
    assert_eq!(b.handle_line(&mut dm, &mut g, ".save g"), LineOutcome::SaveStarted);
    assert_eq!(b.cur_base_sector(), 1);
}

#[test]
fn user_finished_is_shown() {
    let mut g = GuiState::new(1, 0, 0);
    let u = User::new(0);
    u.finish(&mut g);
    assert_eq!(g.user_command(0), "User Finished");
}

#[test]
fn print_job_runs_through_its_steps() {
    let mut dm = DiskManager::new(1);
    let mut g = GuiState::new(1, 1, 2);
    let mut pm = PrinterManager::new(2);
    let mut u = User::new(0);
    u.handle_line(&mut dm, &mut g, ".save f");
    u.handle_line(&mut dm, &mut g, "a");
    u.handle_line(&mut dm, &mut g, "b");
    u.handle_line(&mut dm, &mut g, ".end");

    let mut job = PrintJob::start(&dm, &mut g, "f".to_string()).ok().unwrap();
    assert_eq!(g.prints_waiting(), 1);
    assert_eq!(job.num_lines(), 2);
    assert_eq!(pm.request(), Some(0));
    assert!(job.take_printer(&mut pm));
    assert_eq!(job.printer(), Some(1));
    job.printing_started(&mut g);
    assert_eq!(g.prints_waiting(), 0);
    assert_eq!(g.printer_string(1), "Printing file: f");
    assert_eq!(g.num_printed_lines(1), 1);
    g.set_printer_inactive(1);
    assert_eq!(job.next_step(&g), PrintStep::Paused);
    g.set_printer_active(1);
    assert_eq!(job.next_step(&g), PrintStep::Line("a".to_string()));
    job.line_printed(&mut g);
    assert_eq!(job.next_step(&g), PrintStep::Line("b".to_string()));
    job.line_printed(&mut g);
    assert_eq!(job.next_step(&g), PrintStep::Done);
    assert_eq!(g.num_printed_lines(1), 3);
    job.finish(&mut pm, &mut g);
    assert_eq!(g.printer_string(1), "Not in use");
    assert_eq!(pm.request(), Some(1));
}

#[test]
fn print_job_of_missing_file_still_counts_as_waiting() {
    let dm = DiskManager::new(1);
    let mut g = GuiState::new(0, 1, 1);
    assert!(matches!(PrintJob::start(&dm, &mut g, "nope".to_string()), Err(PrintJobError::FileNotFound)));
    assert_eq!(g.prints_waiting(), 1);
}

#[test]
fn no_printer_free_asks_again() {
    let dm = {
        let mut dm = DiskManager::new(1);
        let mut g = GuiState::new(1, 1, 1);
        let mut u = User::new(0);
        u.handle_line(&mut dm, &mut g, ".save f");
        u.handle_line(&mut dm, &mut g, ".end");
        dm
    };
    let mut g = GuiState::new(0, 1, 1);
    let mut pm = PrinterManager::new(1);
    let mut job = PrintJob::start(&dm, &mut g, "f".to_string()).ok().unwrap();
    assert_eq!(pm.request(), Some(0));
    assert!(!job.take_printer(&mut pm));
    assert_eq!(job.printer(), None);
    pm.release(0);
    assert!(job.take_printer(&mut pm));
    assert_eq!(job.printer(), Some(0));
}
