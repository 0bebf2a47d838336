# os_sim

A small operating-system simulation: users read command files (`.save NAME`,
lines of the file, `.end`, `.print NAME`), save files onto shared disks one
line per sector, and print them on shared printers, while a window shows what
every user, disk and printer does and lets each be paused.

- `src/` is the verified library (Verus): disks, the directory of files, the
  disk and printer managers, the user's command step (what each line does to
  the user, the disks and the display, and when to wait or retry), the steps
  of a print job, the display state, and the parsing of the command line and
  of command files.
- `app/` is the program around it: threads for users and print jobs, the
  waiting and retrying the library's steps ask for, the delays of disks and
  printers, files, and the window (eframe).
- `tests/` run the library on concrete inputs.
