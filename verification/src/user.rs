//! A user of the simulated system: reads commands line by line, saves files
//! onto a disk it holds for the time of the save, and sends files to print.
//!
//! The commands are `.save NAME` (begin a file), `.end` (finish it), and
//! `.print NAME` (print a saved file); any other line, while a file is being
//! saved, is the file's next line.

use vstd::prelude::*;
use crate::text::{has_prefix, starts_with, strip_prefix};
use crate::directory_manager::{FileInfo, lookup_spec};
use crate::disk::NUM_SECTORS;
use crate::gui_state::{GuiState, GuiStateView, gui_wf, not_in_use, not_in_use_string, printing_file, with_disk_fill, with_disk_text, with_user_text};
use crate::disk_manager::{
    DiskManager, DiskManagerView, request_spec, release_spec, set_next_free_spec, enter_spec,
    write_sector_spec, view_wf, lowest_free, lemma_lowest_free,
};

verus! {

/// The command tag that finishes a file.
pub open spec fn end_tag() -> Seq<char> {
    seq!['.', 'e', 'n', 'd']
}

/// The command tag, with its space, that begins a file.
pub open spec fn save_tag() -> Seq<char> {
    seq!['.', 's', 'a', 'v', 'e', ' ']
}

/// The command tag, with its space, that prints a file.
pub open spec fn print_tag() -> Seq<char> {
    seq!['.', 'p', 'r', 'i', 'n', 't', ' ']
}

/// What a line of a user's input asks for.
#[derive(PartialEq, Eq, Debug)]
pub enum LineCommand {
    /// Finish the file being saved.
    End,
    /// Begin saving the file of this name.
    Save(String),
    /// Print the file of this name.
    Print(String),
    /// Store this line as the next line of the file being saved.
    Data(String),
    /// Neither a command nor, since no file is being saved, a line of a file.
    Unknown,
}

/// The state of a user as mathematical values.
pub struct UserView {
    pub id: usize,
    pub cur_file: Option<Seq<char>>,
    pub cur_disk_id: usize,
    pub has_disk: bool,
    pub cur_base_sector: usize,
    pub cur_file_length: usize,
}

/// A user: which file it saves, on which disk it holds, from which sector,
/// and how many lines it has written so far.
pub struct User {
    id: usize,
    cur_file: Option<String>,
    cur_disk_id: usize,
    has_disk: bool,
    cur_base_sector: usize,
    cur_file_length: usize,
}

impl View for User {
    type V = UserView;

    closed spec fn view(&self) -> UserView {
        UserView {
            id: self.id,
            cur_file: match self.cur_file {
                Some(f) => Some(f@),
                None => None,
            },
            cur_disk_id: self.cur_disk_id,
            has_disk: self.has_disk,
            cur_base_sector: self.cur_base_sector,
            cur_file_length: self.cur_file_length,
        }
    }
}

/// One attempt to begin saving the file `name`: the user now saves `name`,
/// with no line yet, on the disk that a request hands out, if one does.
pub open spec fn save_attempt_spec(u: UserView, dm: DiskManagerView, name: Seq<char>) -> (UserView, DiskManagerView) {
    let (r, dm2) = request_spec(dm);
    match r {
        Some((id, base)) => (
            UserView { cur_file: Some(name), cur_file_length: 0, cur_disk_id: id, has_disk: true, cur_base_sector: base, ..u },
            dm2,
        ),
        None => (
            UserView { cur_file: Some(name), cur_file_length: 0, cur_disk_id: 0, has_disk: false, cur_base_sector: 0, ..u },
            dm2,
        ),
    }
}

/// Storing `line` as the next line of the file: it goes to the sector after
/// the lines written so far, on the disk the user holds; without a disk
/// nothing happens.
pub open spec fn save_line_spec(u: UserView, dm: DiskManagerView, line: Seq<char>) -> (UserView, DiskManagerView) {
    if u.has_disk {
        (
            UserView { cur_file_length: (u.cur_file_length + 1) as usize, ..u },
            write_sector_spec(dm, u.cur_disk_id as int, u.cur_base_sector + u.cur_file_length, line),
        )
    } else {
        (u, dm)
    }
}

/// Finishing the file being saved: it enters the directory, the next file on
/// its disk begins after it, and the disk is given back; with no file being
/// saved nothing happens.
pub open spec fn end_spec(u: UserView, dm: DiskManagerView) -> (UserView, DiskManagerView) {
    match u.cur_file {
        Some(name) => {
            let info = FileInfo {
                disk_number: u.cur_disk_id,
                file_length: u.cur_file_length,
                starting_sector: u.cur_base_sector,
            };
            let dm1 = enter_spec(dm, name, info);
            let dm2 = set_next_free_spec(dm1, u.cur_disk_id as int, (u.cur_base_sector + u.cur_file_length) as usize);
            (UserView { cur_file: None, has_disk: false, ..u }, release_spec(dm2, u.cur_disk_id as int))
        },
        None => (u, dm),
    }
}

/// Storing `lines`, in order, as the next lines of the file.
pub open spec fn save_lines_spec(u: UserView, dm: DiskManagerView, lines: Seq<Seq<char>>) -> (UserView, DiskManagerView)
    decreases lines.len(),
{
    if lines.len() == 0 {
        (u, dm)
    } else {
        let (u1, dm1) = save_lines_spec(u, dm, lines.drop_last());
        save_line_spec(u1, dm1, lines.last())
    }
}

/// A whole save: `.save name` that gets a disk, then `lines`, then `.end`.
pub open spec fn session_spec(u: UserView, dm: DiskManagerView, name: Seq<char>, lines: Seq<Seq<char>>) -> (UserView, DiskManagerView) {
    let (u1, dm1) = save_attempt_spec(u, dm, name);
    let (u2, dm2) = save_lines_spec(u1, dm1, lines);
    end_spec(u2, dm2)
}

/// What a line asks for, as mathematical values.
pub enum LineKind {
    End,
    Save(Seq<char>),
    Print(Seq<char>),
    Data(Seq<char>),
    Unknown,
}

/// What the line `line` asks for, given whether a file is being saved: a
/// line that begins with `.end` finishes the file; otherwise `.save NAME`
/// and `.print NAME` name a file; otherwise the line is the next line of the
/// file being saved, or unknown when no file is being saved.
pub open spec fn line_kind(line: Seq<char>, has_file: bool) -> LineKind {
    if has_prefix(line, end_tag()) {
        LineKind::End
    } else if has_prefix(line, save_tag()) {
        LineKind::Save(line.subrange(save_tag().len() as int, line.len() as int))
    } else if has_prefix(line, print_tag()) {
        LineKind::Print(line.subrange(print_tag().len() as int, line.len() as int))
    } else if has_file {
        LineKind::Data(line)
    } else {
        LineKind::Unknown
    }
}

/// The text shown for a user who begins saving the file `name`.
pub open spec fn saving_text(name: Seq<char>) -> Seq<char> {
    "Saving file: "@ + name
}

/// The text shown for a disk being written with the file `name`.
pub open spec fn writing_text(name: Seq<char>) -> Seq<char> {
    "Writing file: "@ + name
}

/// The text shown for a user who sent an unknown command.
pub open spec fn unknown_text() -> Seq<char> {
    "Unknown Command"@
}

/// The text shown for a user who has run all its commands.
pub open spec fn finished_text() -> Seq<char> {
    "User Finished"@
}

/// What handling a line came to, for the caller to act on.
#[derive(PartialEq, Eq, Debug)]
pub enum LineOutcome {
    /// The file being saved was finished.
    Ended,
    /// `.end` came while no file was being saved.
    NoFileToEnd,
    /// A file was begun on a disk.
    SaveStarted,
    /// A file was begun but no disk is free: handle the same line again.
    NoDiskFree,
    /// The file of this name is to be printed.
    Print(String),
    /// The line was stored as the next line of the file.
    Written,
    /// A line of a file came while the user holds no disk.
    NoDisk,
    /// The disk is paused: handle the same line again once it runs.
    DiskPaused,
    /// The line was no command and no file is being saved.
    Unknown,
}

/// Why a file cannot be printed.
#[derive(PartialEq, Eq, Structural, Debug, Clone, Copy)]
pub enum PrintJobError {
    /// No file of that name was saved.
    FileNotFound,
    /// The directory places the file on a disk that does not exist.
    DiskNotFound,
}

/// What a print job reads for the file `name`: its lines, from its disk.
pub open spec fn print_lines_spec(dm: DiskManagerView, name: Seq<char>) -> Result<Seq<Seq<char>>, PrintJobError> {
    match lookup_spec(dm.files, name) {
        None => Err(PrintJobError::FileNotFound),
        Some(info) => if info.disk_number >= dm.num_disks {
            Err(PrintJobError::DiskNotFound)
        } else if info.file_length == 0 {
            Ok(Seq::empty())
        } else {
            Ok(dm.disks[info.disk_number as int].subrange(
                info.starting_sector as int,
                info.starting_sector + info.file_length,
            ))
        },
    }
}

/// Reading the lines of file `name` stays within its disk.
pub open spec fn print_fits(dm: DiskManagerView, name: Seq<char>) -> bool {
    match lookup_spec(dm.files, name) {
        Some(info) => info.disk_number < dm.num_disks ==> (info.file_length == 0
            || info.starting_sector + info.file_length <= NUM_SECTORS),
        None => true,
    }
}

/// The lines of the file `file_name`, read from its disk for printing.
pub fn print_job_lines(dm: &DiskManager, file_name: &String) -> (r: Result<Vec<String>, PrintJobError>)
    requires
        dm.wf(),
        print_fits(dm@, file_name@),
    ensures
        match r {
            Ok(lines) => print_lines_spec(dm@, file_name@) == Ok::<Seq<Seq<char>>, PrintJobError>(
                lines@.map_values(|s: String| s@),
            ),
            Err(e) => print_lines_spec(dm@, file_name@) == Err::<Seq<Seq<char>>, PrintJobError>(e),
        },
{
    let file_info = match dm.get_file_info(file_name) {
        Some(info) => info,
        None => {
            return Err(PrintJobError::FileNotFound);
        },
    };
    let disk = match dm.get_disk(file_info.disk_number) {
        Some(d) => d,
        None => {
            return Err(PrintJobError::DiskNotFound);
        },
    };
    let mut lines: Vec<String> = Vec::new();
    let mut i: usize = 0;
    while i < file_info.file_length
        invariant
            disk.wf(),
            file_info.file_length > 0 ==> file_info.starting_sector + file_info.file_length <= NUM_SECTORS,
            i <= file_info.file_length,
            lines@.len() == i,
            forall|j: int| 0 <= j < i ==> (#[trigger] lines@[j])@ == disk.sectors()[file_info.starting_sector + j],
        decreases file_info.file_length - i,
    {
        lines.push(disk.read(file_info.starting_sector + i));
        i = i + 1;
    }
    if file_info.file_length == 0 {
        assert(lines@.map_values(|s: String| s@) =~= Seq::<Seq<char>>::empty());
    } else {
        assert(lines@.map_values(|s: String| s@) =~= dm@.disks[file_info.disk_number as int].subrange(
            file_info.starting_sector as int,
            file_info.starting_sector + file_info.file_length,
        ));
    }
    Ok(lines)
}

/// `prefix` followed by `name`.
fn prefixed(prefix: &str, name: &String) -> (r: String)
    ensures
        r@ == prefix@ + name@,
{
    String::from_str(prefix).concat(name.as_str())
}

impl User {
    /// A user numbered `id` who saves no file and holds no disk.
    pub fn new(id: usize) -> (r: Self)
        ensures
            r@ == (UserView {
                id,
                cur_file: None,
                cur_disk_id: 0,
                has_disk: false,
                cur_base_sector: 0,
                cur_file_length: 0,
            }),
    {
        User { id, cur_file: None, cur_disk_id: 0, has_disk: false, cur_base_sector: 0, cur_file_length: 0 }
    }

    /// What the line `line` asks this user to do: `.end` finishes the file
    /// (any line that begins with `.end`), `.save NAME` and `.print NAME`
    /// name a file, and any other line is the next line of the file being
    /// saved, or unknown when no file is being saved.
    pub fn classify_line(&self, line: &str) -> (r: LineCommand)
        ensures
            match r {
                LineCommand::End => has_prefix(line@, end_tag()),
                LineCommand::Save(name) => !has_prefix(line@, end_tag()) && has_prefix(line@, save_tag())
                    && name@ == line@.subrange(save_tag().len() as int, line@.len() as int),
                LineCommand::Print(name) => !has_prefix(line@, end_tag()) && !has_prefix(line@, save_tag())
                    && has_prefix(line@, print_tag())
                    && name@ == line@.subrange(print_tag().len() as int, line@.len() as int),
                LineCommand::Data(data) => !has_prefix(line@, end_tag()) && !has_prefix(line@, save_tag())
                    && !has_prefix(line@, print_tag()) && self@.cur_file is Some && data@ == line@,
                LineCommand::Unknown => !has_prefix(line@, end_tag()) && !has_prefix(line@, save_tag())
                    && !has_prefix(line@, print_tag()) && self@.cur_file is None,
            },
    {
        proof {
            reveal_strlit(".end");
            reveal_strlit(".save ");
            reveal_strlit(".print ");
            assert(".end"@ =~= end_tag());
            assert(".save "@ =~= save_tag());
            assert(".print "@ =~= print_tag());
        }
        if starts_with(line, ".end") {
            LineCommand::End
        } else if let Some(rest) = strip_prefix(line, ".save ") {
            LineCommand::Save(rest)
        } else if let Some(rest) = strip_prefix(line, ".print ") {
            LineCommand::Print(rest)
        } else if self.cur_file.is_some() {
            LineCommand::Data(line.to_owned())
        } else {
            LineCommand::Unknown
        }
    }

    /// Acts on the line `line`: finishes, begins or prints a file, stores a
    /// line of the file being saved, or reports an unknown command, and shows
    /// on the display what the user and its disk now do. A line of a file
    /// waits while its disk is paused, and `.save` waits for a free disk:
    /// the outcome then says to handle the same line again.
    pub fn handle_line(&mut self, dm: &mut DiskManager, gui: &mut GuiState, line: &str) -> (r: LineOutcome)
        requires
            old(dm).wf(),
            gui_wf(old(gui)@),
            old(self)@.id < old(gui)@.user_commands.len(),
            old(gui)@.disk_actions.len() == old(dm)@.num_disks,
            old(self)@.has_disk ==> old(self)@.cur_disk_id < old(dm)@.num_disks,
            line_kind(line@, old(self)@.cur_file is Some) is End && old(self)@.cur_file is Some
                ==> old(self)@.has_disk && old(self)@.cur_disk_id < old(dm)@.num_disks
                && old(self)@.cur_base_sector + old(self)@.cur_file_length <= usize::MAX,
            line_kind(line@, old(self)@.cur_file is Some) is Data ==> old(self)@.cur_disk_id < old(dm)@.num_disks
                && (old(self)@.has_disk ==> old(self)@.cur_base_sector + old(self)@.cur_file_length < NUM_SECTORS),
        ensures
            final(dm).wf(),
            match line_kind(line@, old(self)@.cur_file is Some) {
                LineKind::End => {
                    &&& r == (if old(self)@.cur_file is Some { LineOutcome::Ended } else { LineOutcome::NoFileToEnd })
                    &&& (final(self)@, final(dm)@) == end_spec(old(self)@, old(dm)@)
                    &&& final(gui)@ == (if old(self)@.has_disk {
                        with_disk_text(
                            old(gui)@,
                            old(self)@.cur_disk_id as int,
                            not_in_use(),
                            old(gui)@.disk_sectors[old(self)@.cur_disk_id as int],
                        )
                    } else {
                        old(gui)@
                    })
                },
                LineKind::Save(name) => {
                    let (u2, dm2) = save_attempt_spec(old(self)@, old(dm)@, name);
                    &&& (final(self)@, final(dm)@) == (u2, dm2)
                    &&& r == (if u2.has_disk { LineOutcome::SaveStarted } else { LineOutcome::NoDiskFree })
                    &&& final(gui)@ == (if u2.has_disk {
                        with_disk_text(
                            with_user_text(old(gui)@, old(self)@.id as int, saving_text(name)),
                            u2.cur_disk_id as int,
                            writing_text(name),
                            old(gui)@.disk_sectors[u2.cur_disk_id as int],
                        )
                    } else {
                        old(gui)@
                    })
                },
                LineKind::Print(name) => {
                    &&& r matches LineOutcome::Print(n) && n@ == name
                    &&& final(self)@ == old(self)@
                    &&& final(dm)@ == old(dm)@
                    &&& final(gui)@ == with_user_text(old(gui)@, old(self)@.id as int, printing_file(name))
                },
                LineKind::Data(data) => if !old(gui)@.disks_active[old(self)@.cur_disk_id as int] {
                    &&& r == LineOutcome::DiskPaused
                    &&& final(self)@ == old(self)@
                    &&& final(dm)@ == old(dm)@
                    &&& final(gui)@ == old(gui)@
                } else {
                    &&& (final(self)@, final(dm)@) == save_line_spec(old(self)@, old(dm)@, data)
                    &&& r == (if old(self)@.has_disk { LineOutcome::Written } else { LineOutcome::NoDisk })
                    &&& final(gui)@ == (if old(self)@.has_disk {
                        with_disk_text(
                            old(gui)@,
                            old(self)@.cur_disk_id as int,
                            writing_text(old(self)@.cur_file->0),
                            (old(self)@.cur_base_sector + old(self)@.cur_file_length) as usize,
                        )
                    } else {
                        old(gui)@
                    })
                },
                LineKind::Unknown => {
                    &&& r == LineOutcome::Unknown
                    &&& final(self)@ == old(self)@
                    &&& final(dm)@ == old(dm)@
                    &&& final(gui)@ == with_user_text(old(gui)@, old(self)@.id as int, unknown_text())
                },
            },
    {
        match self.classify_line(line) {
            LineCommand::End => {
                if self.has_disk {
                    let sector = gui.disk_sector(self.cur_disk_id);
                    gui.update_disk(self.cur_disk_id, not_in_use_string(), sector);
                }
                if self.handle_end_command(dm) {
                    LineOutcome::Ended
                } else {
                    LineOutcome::NoFileToEnd
                }
            },
            LineCommand::Save(name) => {
                proof {
                    dm.lemma_wf_view();
                    lemma_lowest_free(dm@.free);
                }
                if self.handle_save_command(dm, name.clone()) {
                    gui.update_user(self.id, prefixed("Saving file: ", &name));
                    let sector = gui.disk_sector(self.cur_disk_id);
                    gui.update_disk(self.cur_disk_id, prefixed("Writing file: ", &name), sector);
                    LineOutcome::SaveStarted
                } else {
                    LineOutcome::NoDiskFree
                }
            },
            LineCommand::Print(name) => {
                let text = prefixed("Printing file: ", &name);
                proof {
                    reveal_strlit("Printing file: ");
                    assert(text@ =~= printing_file(name@));
                }
                gui.update_user(self.id, text);
                LineOutcome::Print(name)
            },
            LineCommand::Data(data) => {
                if !gui.disk_active(self.cur_disk_id) {
                    return LineOutcome::DiskPaused;
                }
                if !self.has_disk {
                    return LineOutcome::NoDisk;
                }
                let sector = self.cur_base_sector + self.cur_file_length;
                self.save_line(dm, gui, data);
                let name = match &self.cur_file {
                    Some(f) => f.clone(),
                    None => String::new(),
                };
                gui.update_disk(self.cur_disk_id, prefixed("Writing file: ", &name), sector);
                assert(gui@.disk_sectors =~= old(gui)@.disk_sectors.update(old(self)@.cur_disk_id as int, sector));
                LineOutcome::Written
            },
            LineCommand::Unknown => {
                gui.update_user(self.id, String::from_str("Unknown Command"));
                LineOutcome::Unknown
            },
        }
    }

    /// Shows on the display that the user has run all its commands.
    pub fn finish(&self, gui: &mut GuiState)
        requires
            self@.id < old(gui)@.user_commands.len(),
        ensures
            final(gui)@ == with_user_text(old(gui)@, self@.id as int, finished_text()),
    {
        gui.update_user(self.id, String::from_str("User Finished"));
    }

    /// Finishes the file being saved: records it in the directory, lets the
    /// next file on its disk begin after it, and gives the disk back.
    /// Returns `false`, changing nothing, when no file is being saved.
    pub fn handle_end_command(&mut self, dm: &mut DiskManager) -> (r: bool)
        requires
            old(dm).wf(),
            old(self)@.cur_file is Some ==> old(self)@.has_disk && old(self)@.cur_disk_id < old(dm)@.num_disks
                && old(self)@.cur_base_sector + old(self)@.cur_file_length <= usize::MAX,
        ensures
            final(dm).wf(),
            r == old(self)@.cur_file is Some,
            (final(self)@, final(dm)@) == end_spec(old(self)@, old(dm)@),
    {
        let file_name = match &self.cur_file {
            Some(f) => f.clone(),
            None => {
                return false;
            },
        };
        dm.enter_file_info(
            file_name,
            FileInfo {
                disk_number: self.cur_disk_id,
                file_length: self.cur_file_length,
                starting_sector: self.cur_base_sector,
            },
        );
        dm.set_next_free_sector(self.cur_disk_id, self.cur_base_sector + self.cur_file_length);
        dm.release(self.cur_disk_id);
        self.has_disk = false;
        self.cur_file = None;
        true
    }

    /// One attempt to begin saving the file `file_name`: the user now saves
    /// that file, with no line yet, and asks for a disk. Returns whether it
    /// got one; when it did not, it is to ask again.
    pub fn handle_save_command(&mut self, dm: &mut DiskManager, file_name: String) -> (r: bool)
        requires
            old(dm).wf(),
        ensures
            final(dm).wf(),
            r == final(self)@.has_disk,
            (final(self)@, final(dm)@) == save_attempt_spec(old(self)@, old(dm)@, file_name@),
    {
        self.cur_file = Some(file_name);
        self.cur_file_length = 0;
        match dm.request() {
            Some((id, base)) => {
                self.has_disk = true;
                self.cur_disk_id = id;
                self.cur_base_sector = base;
                true
            },
            None => {
                self.has_disk = false;
                self.cur_disk_id = 0;
                self.cur_base_sector = 0;
                false
            },
        }
    }

    /// Stores `line` as the next line of the file being saved, in the sector
    /// after the lines written so far, which the display then shows as the
    /// sector last written to the disk. Returns `false`, changing nothing,
    /// when the user holds no disk.
    pub fn save_line(&mut self, dm: &mut DiskManager, gui: &mut GuiState, line: String) -> (r: bool)
        requires
            old(dm).wf(),
            gui_wf(old(gui)@),
            old(self)@.has_disk ==> old(self)@.cur_disk_id < old(dm)@.num_disks
                && old(self)@.cur_disk_id < old(gui)@.disk_actions.len()
                && old(self)@.cur_base_sector + old(self)@.cur_file_length < NUM_SECTORS,
        ensures
            final(dm).wf(),
            r == old(self)@.has_disk,
            (final(self)@, final(dm)@) == save_line_spec(old(self)@, old(dm)@, line@),
            final(gui)@ == (if old(self)@.has_disk {
                with_disk_fill(
                    old(gui)@,
                    old(self)@.cur_disk_id as int,
                    (old(self)@.cur_base_sector + old(self)@.cur_file_length) as usize,
                )
            } else {
                old(gui)@
            }),
    {
        if self.has_disk {
            dm.write_sector(gui, self.cur_disk_id, self.cur_base_sector + self.cur_file_length, line);
            self.cur_file_length = self.cur_file_length + 1;
            true
        } else {
            false
        }
    }

    /// The number of the user.
    pub fn id(&self) -> (r: usize)
        ensures
            r == self@.id,
    {
        self.id
    }

    /// The name of the file being saved, if any.
    pub fn cur_file(&self) -> (r: Option<String>)
        ensures
            match r {
                Some(f) => self@.cur_file == Some(f@),
                None => self@.cur_file is None,
            },
    {
        match &self.cur_file {
            Some(f) => Some(f.clone()),
            None => None,
        }
    }

    /// Whether the user holds a disk.
    pub fn has_disk(&self) -> (r: bool)
        ensures
            r == self@.has_disk,
    {
        self.has_disk
    }

    /// The disk the user holds or last held.
    pub fn cur_disk_id(&self) -> (r: usize)
        ensures
            r == self@.cur_disk_id,
    {
        self.cur_disk_id
    }

    /// The sector at which the file being saved begins.
    pub fn cur_base_sector(&self) -> (r: usize)
        ensures
            r == self@.cur_base_sector,
    {
        self.cur_base_sector
    }

    /// How many lines of the file being saved were written.
    pub fn cur_file_length(&self) -> (r: usize)
        ensures
            r == self@.cur_file_length,
    {
        self.cur_file_length
    }
}

/// Every file in the directory lies on an existing disk, wholly before the
/// sector at which the next file on that disk begins, and prints back the
/// lines that `saved` records for it.
pub open spec fn store_consistent(dm: DiskManagerView, saved: Map<Seq<char>, Seq<Seq<char>>>) -> bool {
    &&& view_wf(dm)
    &&& dm.files.dom() == saved.dom()
    &&& forall|g: Seq<char>| #[trigger] dm.files.contains_key(g) ==> {
        let info = dm.files[g];
        &&& info.disk_number < dm.num_disks
        &&& info.starting_sector + info.file_length <= dm.next_free[info.disk_number as int]
        &&& info.starting_sector + info.file_length <= NUM_SECTORS
        &&& print_lines_spec(dm, g) == Ok::<Seq<Seq<char>>, PrintJobError>(saved[g])
    }
}

/// Writing `lines` as the next lines of a file puts them, in order, in the
/// sectors after those written so far on the user's disk, and touches
/// nothing else.
proof fn lemma_save_lines(u: UserView, dm: DiskManagerView, lines: Seq<Seq<char>>)
    requires
        view_wf(dm),
        u.has_disk,
        u.cur_disk_id < dm.num_disks,
        u.cur_base_sector + u.cur_file_length + lines.len() <= NUM_SECTORS,
    ensures
        ({
            let (u2, dm2) = save_lines_spec(u, dm, lines);
            let id = u.cur_disk_id as int;
            let start = u.cur_base_sector + u.cur_file_length;
            &&& u2 == UserView { cur_file_length: (u.cur_file_length + lines.len()) as usize, ..u }
            &&& view_wf(dm2)
            &&& dm2.num_disks == dm.num_disks
            &&& dm2.free == dm.free
            &&& dm2.next_free == dm.next_free
            &&& dm2.files == dm.files
            &&& forall|j: int| 0 <= j < dm.num_disks && j != id ==> #[trigger] dm2.disks[j] == dm.disks[j]
            &&& forall|k: int| 0 <= k < NUM_SECTORS ==> #[trigger] dm2.disks[id][k] == if start <= k < start + lines.len() {
                lines[k - start]
            } else {
                dm.disks[id][k]
            }
        }),
    decreases lines.len(),
{
    if lines.len() > 0 {
        let prev = lines.drop_last();
        lemma_save_lines(u, dm, prev);
        let (u1, dm1) = save_lines_spec(u, dm, prev);
        let id = u.cur_disk_id as int;
        let start = u.cur_base_sector + u.cur_file_length;
        let (u2, dm2) = save_line_spec(u1, dm1, lines.last());
        assert(save_lines_spec(u, dm, lines) == (u2, dm2));
        assert forall|k: int| 0 <= k < NUM_SECTORS implies #[trigger] dm2.disks[id][k] == if start <= k < start + lines.len() {
            lines[k - start]
        } else {
            dm.disks[id][k]
        } by {
            if k == start + prev.len() {
                assert(dm2.disks[id][k] == lines.last());
            } else {
                assert(dm2.disks[id][k] == dm1.disks[id][k]);
                if start <= k < start + prev.len() {
                    assert(prev[k - start] == lines[k - start]);
                }
            }
        }
        assert forall|j: int| 0 <= j < dm2.num_disks implies (#[trigger] dm2.disks[j]).len() == NUM_SECTORS by {
            if j != id {
                assert(dm2.disks[j] == dm1.disks[j]);
            }
        }
    }
}

/// A file saved in one go — `.save name` that gets a disk, its lines, then
/// `.end` — prints back exactly those lines; every file saved before keeps
/// printing what it printed before (unless it had the same name, which the
/// new file replaces); the disk is free again; and the user saves nothing.
pub proof fn law_saved_file_prints_back(
    u: UserView,
    dm: DiskManagerView,
    saved: Map<Seq<char>, Seq<Seq<char>>>,
    name: Seq<char>,
    lines: Seq<Seq<char>>,
)
    requires
        store_consistent(dm, saved),
        lowest_free(dm.free) is Some,
        dm.next_free[lowest_free(dm.free)->0] + lines.len() <= NUM_SECTORS,
    ensures
        ({
            let (u2, dm2) = session_spec(u, dm, name, lines);
            &&& store_consistent(dm2, saved.insert(name, lines))
            &&& print_lines_spec(dm2, name) == Ok::<Seq<Seq<char>>, PrintJobError>(lines)
            &&& dm2.free == dm.free
            &&& u2.cur_file is None
            &&& !u2.has_disk
        }),
{
    lemma_lowest_free(dm.free);
    let id = lowest_free(dm.free)->0;
    let base = dm.next_free[id];
    let (u1, dm1) = save_attempt_spec(u, dm, name);
    assert(u1.has_disk && u1.cur_disk_id == id && u1.cur_base_sector == base && u1.cur_file_length == 0);
    assert(view_wf(dm1));
    lemma_save_lines(u1, dm1, lines);
    let (u2, dm2) = save_lines_spec(u1, dm1, lines);
    let (u3, dm3) = end_spec(u2, dm2);
    assert(session_spec(u, dm, name, lines) == (u3, dm3));
    let n = lines.len();
    let new_info = FileInfo { disk_number: id as usize, file_length: n as usize, starting_sector: base };
    assert(dm3.files == dm.files.insert(name, new_info));
    assert(dm3.free =~= dm.free);
    assert(dm3.next_free == dm.next_free.update(id, (base + n) as usize));
    assert(dm3.disks == dm2.disks);
    let saved2 = saved.insert(name, lines);
    assert(dm3.disks[id].subrange(base as int, base + n) =~= lines);
    if n == 0 {
        assert(lines =~= Seq::<Seq<char>>::empty());
    }
    assert(print_lines_spec(dm3, name) == Ok::<Seq<Seq<char>>, PrintJobError>(lines));
    assert(dm3.files.dom() =~= saved2.dom());
    assert forall|g: Seq<char>| #[trigger] dm3.files.contains_key(g) implies {
        let info = dm3.files[g];
        &&& info.disk_number < dm3.num_disks
        &&& info.starting_sector + info.file_length <= dm3.next_free[info.disk_number as int]
        &&& info.starting_sector + info.file_length <= NUM_SECTORS
        &&& print_lines_spec(dm3, g) == Ok::<Seq<Seq<char>>, PrintJobError>(saved2[g])
    } by {
        if g != name {
            assert(dm.files.contains_key(g));
            let info = dm.files[g];
            assert(dm3.files[g] == info);
            let d = info.disk_number as int;
            let s0 = info.starting_sector as int;
            let e0 = info.starting_sector + info.file_length;
            assert(print_lines_spec(dm, g) == Ok::<Seq<Seq<char>>, PrintJobError>(saved[g]));
            if d == id {
                assert(e0 <= base);
                assert(dm3.disks[d].subrange(s0, e0) =~= dm.disks[d].subrange(s0, e0));
            } else {
                assert(dm3.disks[d] == dm.disks[d]);
            }
        }
    }
}

/// Two files do not share a sector: they lie on different disks, one of
/// them is empty, or one ends where or before the other begins.
pub open spec fn regions_disjoint(a: FileInfo, b: FileInfo) -> bool {
    ||| a.disk_number != b.disk_number
    ||| a.file_length == 0
    ||| b.file_length == 0
    ||| a.starting_sector + a.file_length <= b.starting_sector
    ||| b.starting_sector + b.file_length <= a.starting_sector
}

/// User `u` holds a disk that is busy, and saves its file from the sector at
/// which the next file on that disk begins, within the disk.
pub open spec fn holds_disk(dm: DiskManagerView, u: UserView) -> bool {
    &&& u.cur_disk_id < dm.num_disks
    &&& !dm.free[u.cur_disk_id as int]
    &&& u.cur_base_sector == dm.next_free[u.cur_disk_id as int]
    &&& u.cur_base_sector + u.cur_file_length <= NUM_SECTORS
}

/// What holds of a disk manager shared by `users` at every moment: each file
/// in the directory lies on an existing disk, before the sector at which the
/// next file on that disk begins, shares no sector with any other file, and
/// prints back what `saved` records for it; each user that holds a disk
/// holds a busy one, which no other user holds.
pub open spec fn system_inv(dm: DiskManagerView, users: Seq<UserView>, saved: Map<Seq<char>, Seq<Seq<char>>>) -> bool {
    &&& view_wf(dm)
    &&& forall|d: int| 0 <= d < dm.num_disks ==> #[trigger] dm.next_free[d] <= NUM_SECTORS
    &&& dm.files.dom() == saved.dom()
    &&& forall|f: Seq<char>| #[trigger] dm.files.contains_key(f) ==> {
        &&& dm.files[f].disk_number < dm.num_disks
        &&& dm.files[f].starting_sector + dm.files[f].file_length <= dm.next_free[dm.files[f].disk_number as int]
        &&& print_lines_spec(dm, f) == Ok::<Seq<Seq<char>>, PrintJobError>(saved[f])
    }
    &&& forall|f: Seq<char>, g: Seq<char>|
        #[trigger] dm.files.contains_key(f) && #[trigger] dm.files.contains_key(g) && f != g
            ==> regions_disjoint(dm.files[f], dm.files[g])
    &&& forall|i: int| 0 <= i < users.len() && (#[trigger] users[i]).has_disk ==> holds_disk(dm, users[i])
    &&& forall|i: int, j: int|
        0 <= i < users.len() && 0 <= j < users.len() && i != j && (#[trigger] users[i]).has_disk
            && (#[trigger] users[j]).has_disk ==> users[i].cur_disk_id != users[j].cur_disk_id
}

/// A manager fresh from `DiskManager::new`, with users that hold no disk and
/// no file saved, meets the invariant.
pub proof fn law_initial_state_consistent(dm: DiskManagerView, users: Seq<UserView>)
    requires
        view_wf(dm),
        dm.free == Seq::new(dm.num_disks, |i: int| true),
        dm.next_free == Seq::new(dm.num_disks, |i: int| 0usize),
        dm.files == Map::<Seq<char>, FileInfo>::empty(),
        forall|i: int| 0 <= i < users.len() ==> !(#[trigger] users[i]).has_disk,
    ensures
        system_inv(dm, users, Map::<Seq<char>, Seq<Seq<char>>>::empty()),
{
    assert(dm.files.dom() =~= Map::<Seq<char>, Seq<Seq<char>>>::empty().dom());
}

/// A file that is not on disk `d`, or ends at or before `k`, prints the same
/// after sector `k` of disk `d` is written.
proof fn lemma_write_keeps_file(dm: DiskManagerView, d: int, k: int, data: Seq<char>, f: Seq<char>)
    requires
        view_wf(dm),
        0 <= d < dm.num_disks,
        0 <= k < NUM_SECTORS,
        dm.files.contains_key(f),
        dm.files[f].disk_number < dm.num_disks,
        dm.files[f].disk_number == d ==> dm.files[f].starting_sector + dm.files[f].file_length <= k,
    ensures
        print_lines_spec(write_sector_spec(dm, d, k, data), f) == print_lines_spec(dm, f),
{
    let info = dm.files[f];
    let dm2 = write_sector_spec(dm, d, k, data);
    let e = info.starting_sector + info.file_length;
    if info.disk_number == d && info.file_length > 0 {
        assert(dm2.disks[d].subrange(info.starting_sector as int, e) =~= dm.disks[d].subrange(
            info.starting_sector as int,
            e,
        ));
    }
}

/// Any attempt of user `i` to begin a file keeps the invariant; a disk it
/// gets is one that no other user holds.
pub proof fn law_save_attempt_keeps_invariant(
    dm: DiskManagerView,
    users: Seq<UserView>,
    saved: Map<Seq<char>, Seq<Seq<char>>>,
    i: int,
    name: Seq<char>,
)
    requires
        system_inv(dm, users, saved),
        0 <= i < users.len(),
    ensures
        ({
            let (u2, dm2) = save_attempt_spec(users[i], dm, name);
            &&& system_inv(dm2, users.update(i, u2), saved)
            &&& u2.has_disk ==> forall|j: int|
                0 <= j < users.len() && j != i && (#[trigger] users[j]).has_disk ==> users[j].cur_disk_id != u2.cur_disk_id
        }),
{
    lemma_lowest_free(dm.free);
    let (u2, dm2) = save_attempt_spec(users[i], dm, name);
    let us = users.update(i, u2);
    assert(dm2.files == dm.files && dm2.disks == dm.disks && dm2.next_free == dm.next_free);
    assert forall|f: Seq<char>| #[trigger] dm2.files.contains_key(f) implies print_lines_spec(dm2, f)
        == print_lines_spec(dm, f) by {}
    if u2.has_disk {
        let d = u2.cur_disk_id as int;
        assert forall|j: int| 0 <= j < users.len() && j != i && (#[trigger] users[j]).has_disk
            implies users[j].cur_disk_id != u2.cur_disk_id by {
            assert(holds_disk(dm, users[j]));
        }
        assert forall|j: int| 0 <= j < us.len() && (#[trigger] us[j]).has_disk implies holds_disk(dm2, us[j]) by {
            if j != i {
                assert(holds_disk(dm, users[j]));
                assert(users[j].cur_disk_id != u2.cur_disk_id);
            }
        }
    } else {
        assert(dm2 == dm);
        assert forall|j: int| 0 <= j < us.len() && (#[trigger] us[j]).has_disk implies holds_disk(dm2, us[j]) by {
            assert(j != i);
        }
    }
    assert forall|a: int, b: int|
        0 <= a < us.len() && 0 <= b < us.len() && a != b && (#[trigger] us[a]).has_disk
            && (#[trigger] us[b]).has_disk implies us[a].cur_disk_id != us[b].cur_disk_id by {
        if a != i && b != i {
            assert(users[a].has_disk && users[b].has_disk);
        } else if a == i {
            assert(holds_disk(dm, users[b]));
        } else {
            assert(holds_disk(dm, users[a]));
        }
    }
}

/// A line stored by user `i` keeps the invariant: it goes to a sector after
/// every file on the user's disk.
pub proof fn law_save_line_keeps_invariant(
    dm: DiskManagerView,
    users: Seq<UserView>,
    saved: Map<Seq<char>, Seq<Seq<char>>>,
    i: int,
    line: Seq<char>,
)
    requires
        system_inv(dm, users, saved),
        0 <= i < users.len(),
        users[i].has_disk ==> users[i].cur_base_sector + users[i].cur_file_length < NUM_SECTORS,
    ensures
        ({
            let (u2, dm2) = save_line_spec(users[i], dm, line);
            system_inv(dm2, users.update(i, u2), saved)
        }),
{
    let u = users[i];
    let (u2, dm2) = save_line_spec(u, dm, line);
    let us = users.update(i, u2);
    if u.has_disk {
        assert(holds_disk(dm, u));
        let d = u.cur_disk_id as int;
        let k = u.cur_base_sector + u.cur_file_length;
        assert forall|f: Seq<char>| #[trigger] dm2.files.contains_key(f) implies print_lines_spec(dm2, f)
            == print_lines_spec(dm, f) by {
            lemma_write_keeps_file(dm, d, k, line, f);
        }
        assert forall|e: int| 0 <= e < dm2.num_disks implies (#[trigger] dm2.disks[e]).len() == NUM_SECTORS by {
            if e != d {
                assert(dm2.disks[e] == dm.disks[e]);
            }
        }
        assert forall|j: int| 0 <= j < us.len() && (#[trigger] us[j]).has_disk implies holds_disk(dm2, us[j]) by {
            if j != i {
                assert(holds_disk(dm, users[j]));
            }
        }
        assert forall|a: int, b: int|
            0 <= a < us.len() && 0 <= b < us.len() && a != b && (#[trigger] us[a]).has_disk
                && (#[trigger] us[b]).has_disk implies us[a].cur_disk_id != us[b].cur_disk_id by {
            assert(users[a].has_disk && users[b].has_disk);
        }
    } else {
        assert(us =~= users);
    }
}

/// Finishing the file of user `i` keeps the invariant, with the directory
/// now recording that the file prints the lines the user wrote. The disk the
/// user gives back is busy for no one else.
pub proof fn law_end_keeps_invariant(
    dm: DiskManagerView,
    users: Seq<UserView>,
    saved: Map<Seq<char>, Seq<Seq<char>>>,
    i: int,
)
    requires
        system_inv(dm, users, saved),
        0 <= i < users.len(),
        users[i].cur_file is Some ==> users[i].has_disk,
    ensures
        ({
            let u = users[i];
            let (u2, dm2) = end_spec(u, dm);
            match u.cur_file {
                Some(name) => system_inv(
                    dm2,
                    users.update(i, u2),
                    saved.insert(
                        name,
                        dm.disks[u.cur_disk_id as int].subrange(
                            u.cur_base_sector as int,
                            u.cur_base_sector + u.cur_file_length,
                        ),
                    ),
                ),
                None => system_inv(dm2, users.update(i, u2), saved),
            }
        }),
{
    let u = users[i];
    let (u2, dm2) = end_spec(u, dm);
    let us = users.update(i, u2);
    match u.cur_file {
        None => {
            assert(us =~= users);
        },
        Some(name) => {
            assert(holds_disk(dm, u));
            let d = u.cur_disk_id as int;
            let base = u.cur_base_sector;
            let n = u.cur_file_length;
            let region = dm.disks[d].subrange(base as int, base + n);
            let saved2 = saved.insert(name, region);
            let new_info = FileInfo { disk_number: d as usize, file_length: n, starting_sector: base };
            assert(dm2.files == dm.files.insert(name, new_info));
            assert(dm2.disks == dm.disks);
            assert(dm2.next_free == dm.next_free.update(d, (base + n) as usize));
            assert(dm2.free == dm.free.update(d, true));
            assert(dm2.files.dom() =~= saved2.dom());
            assert forall|e: int| 0 <= e < dm2.num_disks implies #[trigger] dm2.next_free[e] <= NUM_SECTORS by {
                if e != d {
                    assert(dm2.next_free[e] == dm.next_free[e]);
                }
            }
            assert forall|f: Seq<char>| #[trigger] dm2.files.contains_key(f) implies {
                &&& dm2.files[f].disk_number < dm2.num_disks
                &&& dm2.files[f].starting_sector + dm2.files[f].file_length <= dm2.next_free[dm2.files[f].disk_number as int]
                &&& print_lines_spec(dm2, f) == Ok::<Seq<Seq<char>>, PrintJobError>(saved2[f])
            } by {
                if f == name {
                    if n == 0 {
                        assert(region =~= Seq::<Seq<char>>::empty());
                    }
                } else {
                    assert(dm.files.contains_key(f));
                    assert(print_lines_spec(dm, f) == Ok::<Seq<Seq<char>>, PrintJobError>(saved[f]));
                    let info = dm.files[f];
                    if info.file_length > 0 {
                        assert(dm2.disks[info.disk_number as int] == dm.disks[info.disk_number as int]);
                    }
                }
            }
            assert forall|f: Seq<char>, g: Seq<char>|
                #[trigger] dm2.files.contains_key(f) && #[trigger] dm2.files.contains_key(g) && f != g
                    implies regions_disjoint(dm2.files[f], dm2.files[g]) by {
                if f == name {
                    assert(dm.files.contains_key(g));
                } else if g == name {
                    assert(dm.files.contains_key(f));
                } else {
                    assert(dm.files.contains_key(f) && dm.files.contains_key(g));
                }
            }
            assert forall|j: int| 0 <= j < us.len() && (#[trigger] us[j]).has_disk implies holds_disk(dm2, us[j]) by {
                assert(j != i);
                assert(users[j].has_disk);
                assert(holds_disk(dm, users[j]));
                assert(users[j].cur_disk_id != u.cur_disk_id);
            }
            assert forall|a: int, b: int|
                0 <= a < us.len() && 0 <= b < us.len() && a != b && (#[trigger] us[a]).has_disk
                    && (#[trigger] us[b]).has_disk implies us[a].cur_disk_id != us[b].cur_disk_id by {
                assert(users[a].has_disk && users[b].has_disk);
            }
        },
    }
}

/// One step of one of the users sharing a disk manager.
pub enum UserOp {
    /// User `i` tries to begin the file of this name.
    Save(int, Seq<char>),
    /// User `i` stores this line in its file.
    Line(int, Seq<char>),
    /// User `i` finishes its file.
    End(int),
}

/// The shared state: the disk manager, the users, and what each saved file
/// is to print.
pub type SystemView = (DiskManagerView, Seq<UserView>, Map<Seq<char>, Seq<Seq<char>>>);

/// The shared state after `op`.
pub open spec fn apply_user_op(st: SystemView, op: UserOp) -> SystemView {
    let (dm, users, saved) = st;
    match op {
        UserOp::Save(i, name) => {
            let (u2, dm2) = save_attempt_spec(users[i], dm, name);
            (dm2, users.update(i, u2), saved)
        },
        UserOp::Line(i, line) => {
            let (u2, dm2) = save_line_spec(users[i], dm, line);
            (dm2, users.update(i, u2), saved)
        },
        UserOp::End(i) => {
            let u = users[i];
            let (u2, dm2) = end_spec(u, dm);
            let saved2 = match u.cur_file {
                Some(name) => saved.insert(
                    name,
                    dm.disks[u.cur_disk_id as int].subrange(
                        u.cur_base_sector as int,
                        u.cur_base_sector + u.cur_file_length,
                    ),
                ),
                None => saved,
            };
            (dm2, users.update(i, u2), saved2)
        },
    }
}

/// `op` may be taken in `st`, as the user steps require: it names an
/// existing user; a line fits on the disk; a file being finished is held on
/// a disk (a `.save` that found no disk is retried before anything else).
pub open spec fn user_op_allowed(st: SystemView, op: UserOp) -> bool {
    let (dm, users, saved) = st;
    match op {
        UserOp::Save(i, name) => 0 <= i < users.len(),
        UserOp::Line(i, line) => 0 <= i < users.len() && (users[i].has_disk
            ==> users[i].cur_base_sector + users[i].cur_file_length < NUM_SECTORS),
        UserOp::End(i) => 0 <= i < users.len() && (users[i].cur_file is Some ==> users[i].has_disk),
    }
}

/// The shared state after the steps `ops`, taken in order.
pub open spec fn run_user_ops(st: SystemView, ops: Seq<UserOp>) -> SystemView
    decreases ops.len(),
{
    if ops.len() == 0 {
        st
    } else {
        apply_user_op(run_user_ops(st, ops.drop_last()), ops.last())
    }
}

/// Each of the steps `ops` may be taken when its turn comes.
pub open spec fn user_ops_allowed(st: SystemView, ops: Seq<UserOp>) -> bool {
    forall|i: int| 0 <= i < ops.len() ==> user_op_allowed(#[trigger] run_user_ops(st, ops.take(i)), ops[i])
}

/// However the steps of users sharing a disk manager interleave, the
/// invariant holds after every step: no two saved files share a sector, each
/// lies before its disk's next free sector and prints back what its user
/// wrote, and no disk is held by two users.
pub proof fn law_user_steps_keep_invariant(st: SystemView, ops: Seq<UserOp>)
    requires
        system_inv(st.0, st.1, st.2),
        user_ops_allowed(st, ops),
    ensures
        ({
            let r = run_user_ops(st, ops);
            system_inv(r.0, r.1, r.2)
        }),
    decreases ops.len(),
{
    if ops.len() > 0 {
        let prev = ops.drop_last();
        assert forall|i: int| 0 <= i < prev.len() implies user_op_allowed(
            #[trigger] run_user_ops(st, prev.take(i)),
            prev[i],
        ) by {
            assert(prev.take(i) =~= ops.take(i));
            assert(prev[i] == ops[i]);
            assert(user_op_allowed(run_user_ops(st, ops.take(i)), ops[i]));
        }
        law_user_steps_keep_invariant(st, prev);
        let cur = run_user_ops(st, prev);
        let n = ops.len() - 1;
        assert(ops.take(n) =~= prev);
        assert(user_op_allowed(run_user_ops(st, ops.take(n)), ops[n]));
        assert(ops[n] == ops.last());
        let (dm, users, saved) = cur;
        match ops.last() {
            UserOp::Save(i, name) => {
                law_save_attempt_keeps_invariant(dm, users, saved, i, name);
            },
            UserOp::Line(i, line) => {
                law_save_line_keeps_invariant(dm, users, saved, i, line);
            },
            UserOp::End(i) => {
                law_end_keeps_invariant(dm, users, saved, i);
            },
        }
    }
}

/// A command is a command whether or not a file is being saved: a line that
/// begins with `.end`, `.save ` or `.print ` is read the same way in both
/// cases, and is never stored as a line of the file.
pub proof fn law_commands_ignore_open_file(line: Seq<char>)
    requires
        has_prefix(line, seq!['.', 'e', 'n', 'd']) || has_prefix(line, seq!['.', 's', 'a', 'v', 'e', ' '])
            || has_prefix(line, seq!['.', 'p', 'r', 'i', 'n', 't', ' ']),
    ensures
        line_kind(line, true) == line_kind(line, false),
        !(line_kind(line, true) is Data),
        !(line_kind(line, true) is Unknown),
{
    assert(end_tag() =~= seq!['.', 'e', 'n', 'd']);
    assert(save_tag() =~= seq!['.', 's', 'a', 'v', 'e', ' ']);
    assert(print_tag() =~= seq!['.', 'p', 'r', 'i', 'n', 't', ' ']);
}

/// While a file is being saved, every line that begins with none of `.end`,
/// `.save ` and `.print ` is stored as it stands, whatever it holds (an
/// empty line too); with no file being saved it is an unknown command.
pub proof fn law_other_lines_are_data(line: Seq<char>)
    requires
        !has_prefix(line, seq!['.', 'e', 'n', 'd']),
        !has_prefix(line, seq!['.', 's', 'a', 'v', 'e', ' ']),
        !has_prefix(line, seq!['.', 'p', 'r', 'i', 'n', 't', ' ']),
    ensures
        line_kind(line, true) == LineKind::Data(line),
        line_kind(line, false) == LineKind::Unknown,
{
    assert(end_tag() =~= seq!['.', 'e', 'n', 'd']);
    assert(save_tag() =~= seq!['.', 's', 'a', 'v', 'e', ' ']);
    assert(print_tag() =~= seq!['.', 'p', 'r', 'i', 'n', 't', ' ']);
}

/// The name a command gives is the rest of its line: the command's tag
/// followed by the name is the line; and a line that begins with `.end` is
/// always the end of a file.
pub proof fn law_command_names_are_rest_of_line(line: Seq<char>, has_file: bool)
    ensures
        has_prefix(line, seq!['.', 'e', 'n', 'd']) ==> line_kind(line, has_file) is End,
        line_kind(line, has_file) is End ==> has_prefix(line, seq!['.', 'e', 'n', 'd']),
        line_kind(line, has_file) matches LineKind::Save(name) ==> seq!['.', 's', 'a', 'v', 'e', ' '] + name == line,
        line_kind(line, has_file) matches LineKind::Print(name) ==> seq!['.', 'p', 'r', 'i', 'n', 't', ' '] + name
            == line,
        line_kind(line, has_file) matches LineKind::Data(data) ==> data == line && has_file,
{
    assert(end_tag() =~= seq!['.', 'e', 'n', 'd']);
    assert(save_tag() =~= seq!['.', 's', 'a', 'v', 'e', ' ']);
    assert(print_tag() =~= seq!['.', 'p', 'r', 'i', 'n', 't', ' ']);
    if let LineKind::Save(name) = line_kind(line, has_file) {
        assert(seq!['.', 's', 'a', 'v', 'e', ' '] + name =~= line);
    }
    if let LineKind::Print(name) = line_kind(line, has_file) {
        assert(seq!['.', 'p', 'r', 'i', 'n', 't', ' '] + name =~= line);
    }
}

/// A stored line lands in the sector right after the lines written so far
/// on the user's disk, the file grows by one line, and nothing else of the
/// user or the manager changes.
pub proof fn law_stored_line_lands_next(u: UserView, dm: DiskManagerView, line: Seq<char>)
    requires
        view_wf(dm),
        u.has_disk,
        u.cur_disk_id < dm.num_disks,
        u.cur_base_sector + u.cur_file_length < NUM_SECTORS,
    ensures
        ({
            let (u2, dm2) = save_line_spec(u, dm, line);
            let d = u.cur_disk_id as int;
            let k = u.cur_base_sector + u.cur_file_length;
            &&& dm2.disks[d][k] == line
            &&& forall|j: int| 0 <= j < NUM_SECTORS && j != k ==> #[trigger] dm2.disks[d][j] == dm.disks[d][j]
            &&& forall|e: int| 0 <= e < dm.num_disks && e != d ==> #[trigger] dm2.disks[e] == dm.disks[e]
            &&& dm2.disks.len() == dm.disks.len()
            &&& dm2.num_disks == dm.num_disks
            &&& dm2.free == dm.free
            &&& dm2.next_free == dm.next_free
            &&& dm2.files == dm.files
            &&& u2.cur_file_length == u.cur_file_length + 1
            &&& u2.cur_file == u.cur_file
            &&& u2.has_disk && u2.cur_disk_id == u.cur_disk_id && u2.cur_base_sector == u.cur_base_sector
            &&& u2.id == u.id
        }),
{
}

/// Finishing a file records where it lies (its disk, its first sector, its
/// number of lines), lets the next file on that disk begin right after it,
/// frees that disk and no other, and leaves the user saving nothing; no
/// sector changes.
pub proof fn law_end_records_file(u: UserView, dm: DiskManagerView)
    requires
        view_wf(dm),
        u.cur_file is Some,
        u.cur_disk_id < dm.num_disks,
        u.cur_base_sector + u.cur_file_length <= usize::MAX,
    ensures
        ({
            let (u2, dm2) = end_spec(u, dm);
            let d = u.cur_disk_id as int;
            let name = u.cur_file->0;
            &&& dm2.files.contains_key(name)
            &&& dm2.files[name].disk_number == u.cur_disk_id
            &&& dm2.files[name].starting_sector == u.cur_base_sector
            &&& dm2.files[name].file_length == u.cur_file_length
            &&& forall|g: Seq<char>| g != name ==> (#[trigger] dm2.files.contains_key(g) == dm.files.contains_key(g)
                && (dm.files.contains_key(g) ==> dm2.files[g] == dm.files[g]))
            &&& dm2.next_free[d] == u.cur_base_sector + u.cur_file_length
            &&& forall|e: int| 0 <= e < dm.num_disks && e != d ==> #[trigger] dm2.next_free[e] == dm.next_free[e]
            &&& dm2.free[d]
            &&& forall|e: int| 0 <= e < dm.num_disks && e != d ==> #[trigger] dm2.free[e] == dm.free[e]
            &&& dm2.free.len() == dm.free.len()
            &&& dm2.disks == dm.disks
            &&& dm2.num_disks == dm.num_disks
            &&& u2.cur_file is None
            &&& !u2.has_disk
        }),
{
}

/// A `.save` that finds a free disk takes the lowest-numbered one, begins
/// the file at that disk's next free sector with no line yet, and makes that
/// disk busy and no other; one that finds none leaves the manager as it was.
pub proof fn law_save_takes_lowest_free_disk(u: UserView, dm: DiskManagerView, name: Seq<char>)
    requires
        view_wf(dm),
    ensures
        ({
            let (u2, dm2) = save_attempt_spec(u, dm, name);
            &&& u2.cur_file == Some(name)
            &&& u2.cur_file_length == 0
            &&& u2.id == u.id
            &&& if exists|j: int| 0 <= j < dm.num_disks && #[trigger] dm.free[j] {
                &&& u2.has_disk
                &&& u2.cur_disk_id < dm.num_disks
                &&& dm.free[u2.cur_disk_id as int]
                &&& forall|j: int| 0 <= j < u2.cur_disk_id ==> !#[trigger] dm.free[j]
                &&& u2.cur_base_sector == dm.next_free[u2.cur_disk_id as int]
                &&& !dm2.free[u2.cur_disk_id as int]
                &&& forall|j: int| 0 <= j < dm.num_disks && j != u2.cur_disk_id ==> #[trigger] dm2.free[j] == dm.free[j]
                &&& dm2.free.len() == dm.free.len()
                &&& dm2.disks == dm.disks && dm2.next_free == dm.next_free && dm2.files == dm.files
            } else {
                !u2.has_disk && dm2 == dm
            }
        }),
{
    lemma_lowest_free(dm.free);
}

/// A print job reads, in order, the file's sectors from its first one on:
/// as many lines as the file has, the i-th from the i-th sector; a name not
/// in the directory gives no lines but the error that the file is missing.
pub proof fn law_print_reads_file_sectors_in_order(dm: DiskManagerView, name: Seq<char>)
    requires
        view_wf(dm),
        print_fits(dm, name),
    ensures
        !dm.files.contains_key(name) ==> print_lines_spec(dm, name) == Err::<Seq<Seq<char>>, PrintJobError>(
            PrintJobError::FileNotFound,
        ),
        dm.files.contains_key(name) && dm.files[name].disk_number >= dm.num_disks ==> print_lines_spec(dm, name)
            == Err::<Seq<Seq<char>>, PrintJobError>(PrintJobError::DiskNotFound),
        dm.files.contains_key(name) && dm.files[name].disk_number < dm.num_disks ==> {
            let info = dm.files[name];
            &&& print_lines_spec(dm, name) is Ok
            &&& print_lines_spec(dm, name)->Ok_0.len() == info.file_length
            &&& forall|i: int| 0 <= i < info.file_length ==> #[trigger] print_lines_spec(dm, name)->Ok_0[i]
                == dm.disks[info.disk_number as int][info.starting_sector + i]
        },
{
}

} // verus!
