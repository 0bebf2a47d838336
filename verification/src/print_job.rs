//! A print job: counted as waiting, its file read from disk, then a printer
//! taken, its lines printed one by one while the printer runs, and the
//! printer given back.

use vstd::prelude::*;
use crate::disk_manager::{DiskManager, lowest_free};
use crate::gui_state::{GuiState, GuiStateView, gui_wf, with_printer_file, with_printer_idle};
use crate::printer_manager::PrinterManager;
use crate::user::{PrintJobError, print_fits, print_job_lines, print_lines_spec};

verus! {

/// A print job as mathematical values.
pub struct PrintJobView {
    pub file_name: Seq<char>,
    pub lines: Seq<Seq<char>>,
    pub printer: Option<usize>,
    pub printed: nat,
}

/// A print job: the file, its lines, the printer it holds, if any, and how
/// many lines were handed out to print.
pub struct PrintJob {
    file_name: String,
    lines: Vec<String>,
    printer: Option<usize>,
    printed: usize,
}

/// What a print job does next.
#[derive(PartialEq, Eq, Debug)]
pub enum PrintStep {
    /// The printer is paused: ask again once it runs.
    Paused,
    /// Print this line, then report it printed.
    Line(String),
    /// Every line was handed out.
    Done,
}

impl View for PrintJob {
    type V = PrintJobView;

    closed spec fn view(&self) -> PrintJobView {
        PrintJobView {
            file_name: self.file_name@,
            lines: self.lines@.map_values(|s: String| s@),
            printer: self.printer,
            printed: self.printed as nat,
        }
    }
}

impl PrintJob {
    /// No more lines were handed out than there are.
    pub closed spec fn wf(&self) -> bool {
        self.printed <= self.lines@.len()
    }

    /// Counts one more job waiting for a printer, then reads the lines of the
    /// file `file_name` from its disk.
    pub fn start(dm: &DiskManager, gui: &mut GuiState, file_name: String) -> (r: Result<PrintJob, PrintJobError>)
        requires
            dm.wf(),
            print_fits(dm@, file_name@),
            old(gui)@.prints_waiting < usize::MAX,
        ensures
            final(gui)@ == (GuiStateView { prints_waiting: (old(gui)@.prints_waiting + 1) as usize, ..old(gui)@ }),
            match r {
                Ok(job) => {
                    &&& job.wf()
                    &&& print_lines_spec(dm@, file_name@) == Ok::<Seq<Seq<char>>, PrintJobError>(job@.lines)
                    &&& job@.file_name == file_name@
                    &&& job@.printer is None
                    &&& job@.printed == 0
                },
                Err(e) => print_lines_spec(dm@, file_name@) == Err::<Seq<Seq<char>>, PrintJobError>(e),
            },
    {
        gui.increase_prints_waiting();
        match print_job_lines(dm, &file_name) {
            Ok(lines) => Ok(PrintJob { file_name, lines, printer: None, printed: 0 }),
            Err(e) => Err(e),
        }
    }

    /// One attempt to take a printer: the lowest-numbered free one, if any.
    /// Returns whether the job got one; when it did not, it is to ask again.
    pub fn take_printer(&mut self, pm: &mut PrinterManager) -> (r: bool)
        requires
            old(pm).wf(),
            old(self)@.printer is None,
        ensures
            final(pm).wf(),
            final(pm).num_printers() == old(pm).num_printers(),
            match lowest_free(old(pm)@) {
                Some(id) => {
                    &&& r
                    &&& final(pm)@ == old(pm)@.update(id, false)
                    &&& final(self)@ == (PrintJobView { printer: Some(id as usize), ..old(self)@ })
                },
                None => !r && final(pm)@ == old(pm)@ && final(self)@ == old(self)@,
            },
    {
        match pm.request() {
            Some(id) => {
                self.printer = Some(id);
                true
            },
            None => false,
        }
    }

    /// Shows the job's printer printing its file, and counts the job as no
    /// longer waiting.
    pub fn printing_started(&self, gui: &mut GuiState)
        requires
            gui_wf(old(gui)@),
            self@.printer is Some,
            self@.printer->0 < old(gui)@.printer_strings.len(),
            old(gui)@.num_printed_lines[self@.printer->0 as int] < usize::MAX,
            old(gui)@.prints_waiting > 0,
        ensures
            final(gui)@ == (GuiStateView {
                prints_waiting: (old(gui)@.prints_waiting - 1) as usize,
                ..with_printer_file(old(gui)@, self@.printer->0 as int, self@.file_name)
            }),
    {
        let id = match self.printer {
            Some(id) => id,
            None => 0,
        };
        gui.update_printer(id, Some(self.file_name.clone()));
        gui.decrease_prints_waiting();
    }

    /// What the job does next: nothing more once every line was handed out;
    /// wait while its printer is paused; or print the next line.
    pub fn next_step(&mut self, gui: &GuiState) -> (r: PrintStep)
        requires
            old(self).wf(),
            gui_wf(gui@),
            old(self)@.printer is Some,
            old(self)@.printer->0 < gui@.printer_strings.len(),
        ensures
            final(self).wf(),
            if old(self)@.printed == old(self)@.lines.len() {
                r == PrintStep::Done && final(self)@ == old(self)@
            } else if !gui@.printers_active[old(self)@.printer->0 as int] {
                r == PrintStep::Paused && final(self)@ == old(self)@
            } else {
                &&& r matches PrintStep::Line(line) && line@ == old(self)@.lines[old(self)@.printed as int]
                &&& final(self)@ == (PrintJobView { printed: old(self)@.printed + 1, ..old(self)@ })
            },
    {
        if self.printed == self.lines.len() {
            return PrintStep::Done;
        }
        let id = match self.printer {
            Some(id) => id,
            None => 0,
        };
        if !gui.printer_active(id) {
            return PrintStep::Paused;
        }
        let line = self.lines[self.printed].clone();
        self.printed = self.printed + 1;
        PrintStep::Line(line)
    }

    /// Shows one more line printed by the job's printer.
    pub fn line_printed(&self, gui: &mut GuiState)
        requires
            gui_wf(old(gui)@),
            self@.printer is Some,
            self@.printer->0 < old(gui)@.printer_strings.len(),
            old(gui)@.num_printed_lines[self@.printer->0 as int] < usize::MAX,
        ensures
            final(gui)@ == with_printer_file(old(gui)@, self@.printer->0 as int, self@.file_name),
    {
        let id = match self.printer {
            Some(id) => id,
            None => 0,
        };
        gui.update_printer(id, Some(self.file_name.clone()));
    }

    /// Gives the job's printer back and shows it "Not in use".
    pub fn finish(&self, pm: &mut PrinterManager, gui: &mut GuiState)
        requires
            old(pm).wf(),
            gui_wf(old(gui)@),
            self@.printer is Some,
            self@.printer->0 < old(pm).num_printers(),
            self@.printer->0 < old(gui)@.printer_strings.len(),
        ensures
            final(pm).wf(),
            final(pm).num_printers() == old(pm).num_printers(),
            final(pm)@ == old(pm)@.update(self@.printer->0 as int, true),
            final(gui)@ == with_printer_idle(old(gui)@, self@.printer->0 as int),
    {
        let id = match self.printer {
            Some(id) => id,
            None => 0,
        };
        pm.release(id);
        gui.update_printer(id, None);
    }

    /// The printer the job holds, if any.
    pub fn printer(&self) -> (r: Option<usize>)
        ensures
            r == self@.printer,
    {
        self.printer
    }

    /// How many lines the file has.
    pub fn num_lines(&self) -> (r: usize)
        ensures
            r == self@.lines.len(),
    {
        self.lines.len()
    }
}

} // verus!
