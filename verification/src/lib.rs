//! An operating-system simulation in the style of a classic course project:
//! users save files line by line onto shared disks and print them on shared
//! printers. This crate holds the bookkeeping of that simulation, verified:
//! the disks and their sectors, the directory of saved files, the managers
//! that hand out disks and printers, the per-user command step (which runs a
//! command and sets the display text), the print-job steps, the display
//! state, and the parsing of the command line, of command files and of user
//! commands. Threads, delays, files and the window stay with the program.

pub mod text;
pub mod directory_manager;
pub mod disk;
pub mod disk_manager;
pub mod printer_manager;
pub mod gui_state;
pub mod user;
pub mod command_line;
pub mod print_job;
