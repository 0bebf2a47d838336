//! What the display shows: the last command of each user, the activity and
//! fill of each disk, what each printer does, and which of them run.

use vstd::prelude::*;

verus! {

/// The display state as mathematical values.
pub struct GuiStateView {
    pub user_commands: Seq<Seq<char>>,
    pub users_active: Seq<bool>,
    pub disk_actions: Seq<Seq<char>>,
    pub disk_sectors: Seq<usize>,
    pub disks_active: Seq<bool>,
    pub printer_strings: Seq<Seq<char>>,
    pub num_printed_lines: Seq<usize>,
    pub prints_waiting: usize,
    pub printers_active: Seq<bool>,
}

/// The display state shared by users, disks and printers. A disk's fill is
/// kept as the sector last written to it, out of `NUM_SECTORS`.
#[derive(Clone)]
pub struct GuiState {
    user_commands: Vec<String>,
    users_active: Vec<bool>,
    disk_actions: Vec<String>,
    disk_sectors: Vec<usize>,
    disks_active: Vec<bool>,
    printer_strings: Vec<String>,
    num_printed_lines: Vec<usize>,
    prints_waiting: usize,
    printers_active: Vec<bool>,
}

spec fn views(v: Seq<String>) -> Seq<Seq<char>> {
    v.map_values(|s: String| s@)
}

impl View for GuiState {
    type V = GuiStateView;

    closed spec fn view(&self) -> GuiStateView {
        GuiStateView {
            user_commands: views(self.user_commands@),
            users_active: self.users_active@,
            disk_actions: views(self.disk_actions@),
            disk_sectors: self.disk_sectors@,
            disks_active: self.disks_active@,
            printer_strings: views(self.printer_strings@),
            num_printed_lines: self.num_printed_lines@,
            prints_waiting: self.prints_waiting,
            printers_active: self.printers_active@,
        }
    }
}

/// The text shown for a disk or printer that nobody uses.
pub open spec fn not_in_use() -> Seq<char> {
    seq!['N', 'o', 't', ' ', 'i', 'n', ' ', 'u', 's', 'e']
}

/// The text shown for a printer that prints the file `name`.
pub open spec fn printing_file(name: Seq<char>) -> Seq<char> {
    seq!['P', 'r', 'i', 'n', 't', 'i', 'n', 'g', ' ', 'f', 'i', 'l', 'e', ':', ' '] + name
}

/// The display state with `text` shown as what user `id` does.
pub open spec fn with_user_text(v: GuiStateView, id: int, text: Seq<char>) -> GuiStateView {
    GuiStateView { user_commands: v.user_commands.update(id, text), ..v }
}

/// The display state with `text` shown as what disk `id` does and `sector`
/// as the sector last written to it.
pub open spec fn with_disk_text(v: GuiStateView, id: int, text: Seq<char>, sector: usize) -> GuiStateView {
    GuiStateView { disk_actions: v.disk_actions.update(id, text), disk_sectors: v.disk_sectors.update(id, sector), ..v }
}

/// The display state with `sector` shown as the sector last written to disk
/// `id`.
pub open spec fn with_disk_fill(v: GuiStateView, id: int, sector: usize) -> GuiStateView {
    GuiStateView { disk_sectors: v.disk_sectors.update(id, sector), ..v }
}

/// The display state with printer `id` shown printing the file `name`, one
/// more line counted for it.
pub open spec fn with_printer_file(v: GuiStateView, id: int, name: Seq<char>) -> GuiStateView {
    GuiStateView {
        printer_strings: v.printer_strings.update(id, printing_file(name)),
        num_printed_lines: v.num_printed_lines.update(id, (v.num_printed_lines[id] + 1) as usize),
        ..v
    }
}

/// The display state with printer `id` shown "Not in use".
pub open spec fn with_printer_idle(v: GuiStateView, id: int) -> GuiStateView {
    GuiStateView { printer_strings: v.printer_strings.update(id, not_in_use()), ..v }
}

/// The per-user entries have one length, the per-disk ones another, and the
/// per-printer ones a third.
pub open spec fn gui_wf(v: GuiStateView) -> bool {
    &&& v.users_active.len() == v.user_commands.len()
    &&& v.disk_sectors.len() == v.disk_actions.len()
    &&& v.disks_active.len() == v.disk_actions.len()
    &&& v.num_printed_lines.len() == v.printer_strings.len()
    &&& v.printers_active.len() == v.printer_strings.len()
}

pub(crate) fn not_in_use_string() -> (r: String)
    ensures
        r@ == not_in_use(),
{
    let r = String::from_str("Not in use");
    proof {
        reveal_strlit("Not in use");
    }
    assert(r@ =~= not_in_use());
    r
}

impl GuiState {
    /// The state for `num_users` users, `num_disks` disks and `num_printers`
    /// printers: no commands yet, every disk "Not in use" and empty, no
    /// printer text, nothing printed, no print job waiting, everything
    /// running.
    pub fn new(num_users: usize, num_disks: usize, num_printers: usize) -> (r: Self)
        ensures
            gui_wf(r@),
            r@.user_commands == Seq::new(num_users as nat, |i: int| Seq::<char>::empty()),
            r@.users_active == Seq::new(num_users as nat, |i: int| true),
            r@.disk_actions == Seq::new(num_disks as nat, |i: int| not_in_use()),
            r@.disk_sectors == Seq::new(num_disks as nat, |i: int| 0usize),
            r@.disks_active == Seq::new(num_disks as nat, |i: int| true),
            r@.printer_strings == Seq::new(num_printers as nat, |i: int| Seq::<char>::empty()),
            r@.num_printed_lines == Seq::new(num_printers as nat, |i: int| 0usize),
            r@.prints_waiting == 0,
            r@.printers_active == Seq::new(num_printers as nat, |i: int| true),
    {
        let mut user_commands: Vec<String> = Vec::new();
        let mut users_active: Vec<bool> = Vec::new();
        let mut i: usize = 0;
        while i < num_users
            invariant
                i <= num_users,
                user_commands@.len() == i,
                users_active@.len() == i,
                forall|j: int| 0 <= j < i ==> (#[trigger] user_commands@[j])@ == Seq::<char>::empty(),
                forall|j: int| 0 <= j < i ==> #[trigger] users_active@[j],
            decreases num_users - i,
        {
            user_commands.push(String::new());
            users_active.push(true);
            i = i + 1;
        }
        let mut disk_actions: Vec<String> = Vec::new();
        let mut disk_sectors: Vec<usize> = Vec::new();
        let mut disks_active: Vec<bool> = Vec::new();
        let mut i: usize = 0;
        while i < num_disks
            invariant
                i <= num_disks,
                disk_actions@.len() == i,
                disk_sectors@.len() == i,
                disks_active@.len() == i,
                forall|j: int| 0 <= j < i ==> (#[trigger] disk_actions@[j])@ == not_in_use(),
                forall|j: int| 0 <= j < i ==> #[trigger] disk_sectors@[j] == 0,
                forall|j: int| 0 <= j < i ==> #[trigger] disks_active@[j],
            decreases num_disks - i,
        {
            disk_actions.push(not_in_use_string());
            disk_sectors.push(0);
            disks_active.push(true);
            i = i + 1;
        }
        let mut printer_strings: Vec<String> = Vec::new();
        let mut num_printed_lines: Vec<usize> = Vec::new();
        let mut printers_active: Vec<bool> = Vec::new();
        let mut i: usize = 0;
        while i < num_printers
            invariant
                i <= num_printers,
                printer_strings@.len() == i,
                num_printed_lines@.len() == i,
                printers_active@.len() == i,
                forall|j: int| 0 <= j < i ==> (#[trigger] printer_strings@[j])@ == Seq::<char>::empty(),
                forall|j: int| 0 <= j < i ==> #[trigger] num_printed_lines@[j] == 0,
                forall|j: int| 0 <= j < i ==> #[trigger] printers_active@[j],
            decreases num_printers - i,
        {
            printer_strings.push(String::new());
            num_printed_lines.push(0);
            printers_active.push(true);
            i = i + 1;
        }
        let r = GuiState {
            user_commands,
            users_active,
            disk_actions,
            disk_sectors,
            disks_active,
            printer_strings,
            num_printed_lines,
            prints_waiting: 0,
            printers_active,
        };
        assert(r@.user_commands =~= Seq::new(num_users as nat, |i: int| Seq::<char>::empty()));
        assert(r@.users_active =~= Seq::new(num_users as nat, |i: int| true));
        assert(r@.disk_actions =~= Seq::new(num_disks as nat, |i: int| not_in_use()));
        assert(r@.disk_sectors =~= Seq::new(num_disks as nat, |i: int| 0usize));
        assert(r@.disks_active =~= Seq::new(num_disks as nat, |i: int| true));
        assert(r@.printer_strings =~= Seq::new(num_printers as nat, |i: int| Seq::<char>::empty()));
        assert(r@.num_printed_lines =~= Seq::new(num_printers as nat, |i: int| 0usize));
        assert(r@.printers_active =~= Seq::new(num_printers as nat, |i: int| true));
        r
    }

    /// Shows `command` as what user `id` does.
    pub fn update_user(&mut self, id: usize, command: String)
        requires
            id < old(self)@.user_commands.len(),
        ensures
            final(self)@ == (GuiStateView {
                user_commands: old(self)@.user_commands.update(id as int, command@),
                ..old(self)@
            }),
    {
        let ghost c = command@;
        self.user_commands.set(id, command);
        assert(self@.user_commands =~= old(self)@.user_commands.update(id as int, c));
    }

    /// Shows `action` as what disk `id` does, and `sector` as the sector last
    /// written to it.
    pub fn update_disk(&mut self, id: usize, action: String, sector: usize)
        requires
            gui_wf(old(self)@),
            id < old(self)@.disk_actions.len(),
        ensures
            final(self)@ == (GuiStateView {
                disk_actions: old(self)@.disk_actions.update(id as int, action@),
                disk_sectors: old(self)@.disk_sectors.update(id as int, sector),
                ..old(self)@
            }),
    {
        let ghost a = action@;
        self.disk_actions.set(id, action);
        self.disk_sectors.set(id, sector);
        assert(self@.disk_actions =~= old(self)@.disk_actions.update(id as int, a));
    }

    /// Shows printer `id` printing the file `file`, counting one more printed
    /// line, or shows it "Not in use" where `file` is `None`.
    pub fn update_printer(&mut self, id: usize, file: Option<String>)
        requires
            gui_wf(old(self)@),
            id < old(self)@.printer_strings.len(),
            file is Some ==> old(self)@.num_printed_lines[id as int] < usize::MAX,
        ensures
            final(self)@ == (match file {
                Some(name) => with_printer_file(old(self)@, id as int, name@),
                None => with_printer_idle(old(self)@, id as int),
            }),
    {
        match file {
            Some(file_name) => {
                let count = self.num_printed_lines[id] + 1;
                self.num_printed_lines.set(id, count);
                let text = String::from_str("Printing file: ").concat(file_name.as_str());
                proof {
                    reveal_strlit("Printing file: ");
                    assert(text@ =~= printing_file(file_name@));
                }
                self.printer_strings.set(id, text);
                assert(self@.printer_strings =~= old(self)@.printer_strings.update(id as int, printing_file(file_name@)));
            },
            None => {
                self.printer_strings.set(id, not_in_use_string());
                assert(self@.printer_strings =~= old(self)@.printer_strings.update(id as int, not_in_use()));
            },
        }
    }

    /// Counts one more print job waiting for a printer.
    pub fn increase_prints_waiting(&mut self)
        requires
            old(self)@.prints_waiting < usize::MAX,
        ensures
            final(self)@ == (GuiStateView { prints_waiting: (old(self)@.prints_waiting + 1) as usize, ..old(self)@ }),
    {
        self.prints_waiting = self.prints_waiting + 1;
    }

    /// Counts one print job fewer waiting for a printer.
    pub fn decrease_prints_waiting(&mut self)
        requires
            old(self)@.prints_waiting > 0,
        ensures
            final(self)@ == (GuiStateView { prints_waiting: (old(self)@.prints_waiting - 1) as usize, ..old(self)@ }),
    {
        self.prints_waiting = self.prints_waiting - 1;
    }

    /// Whether user `user_id` runs.
    pub fn user_active(&self, user_id: usize) -> (r: bool)
        requires
            gui_wf(self@),
            user_id < self@.user_commands.len(),
        ensures
            r == self@.users_active[user_id as int],
    {
        self.users_active[user_id]
    }

    /// Lets user `user_id` run.
    pub fn set_user_active(&mut self, user_id: usize)
        requires
            gui_wf(old(self)@),
            user_id < old(self)@.user_commands.len(),
        ensures
            final(self)@ == (GuiStateView { users_active: old(self)@.users_active.update(user_id as int, true), ..old(self)@ }),
    {
        self.users_active.set(user_id, true);
    }

    /// Pauses user `user_id`.
    pub fn set_user_inactive(&mut self, user_id: usize)
        requires
            gui_wf(old(self)@),
            user_id < old(self)@.user_commands.len(),
        ensures
            final(self)@ == (GuiStateView { users_active: old(self)@.users_active.update(user_id as int, false), ..old(self)@ }),
    {
        self.users_active.set(user_id, false);
    }

    /// Whether disk `disk_id` runs.
    pub fn disk_active(&self, disk_id: usize) -> (r: bool)
        requires
            gui_wf(self@),
            disk_id < self@.disk_actions.len(),
        ensures
            r == self@.disks_active[disk_id as int],
    {
        self.disks_active[disk_id]
    }

    /// Lets disk `disk_id` run.
    pub fn set_disk_active(&mut self, disk_id: usize)
        requires
            gui_wf(old(self)@),
            disk_id < old(self)@.disk_actions.len(),
        ensures
            final(self)@ == (GuiStateView { disks_active: old(self)@.disks_active.update(disk_id as int, true), ..old(self)@ }),
    {
        self.disks_active.set(disk_id, true);
    }

    /// Pauses disk `disk_id`.
    pub fn set_disk_inactive(&mut self, disk_id: usize)
        requires
            gui_wf(old(self)@),
            disk_id < old(self)@.disk_actions.len(),
        ensures
            final(self)@ == (GuiStateView { disks_active: old(self)@.disks_active.update(disk_id as int, false), ..old(self)@ }),
    {
        self.disks_active.set(disk_id, false);
    }

    /// Whether printer `printer_id` runs.
    pub fn printer_active(&self, printer_id: usize) -> (r: bool)
        requires
            gui_wf(self@),
            printer_id < self@.printer_strings.len(),
        ensures
            r == self@.printers_active[printer_id as int],
    {
        self.printers_active[printer_id]
    }

    /// Lets printer `printer_id` run.
    pub fn set_printer_active(&mut self, printer_id: usize)
        requires
            gui_wf(old(self)@),
            printer_id < old(self)@.printer_strings.len(),
        ensures
            final(self)@ == (GuiStateView { printers_active: old(self)@.printers_active.update(printer_id as int, true), ..old(self)@ }),
    {
        self.printers_active.set(printer_id, true);
    }

    /// Pauses printer `printer_id`.
    pub fn set_printer_inactive(&mut self, printer_id: usize)
        requires
            gui_wf(old(self)@),
            printer_id < old(self)@.printer_strings.len(),
        ensures
            final(self)@ == (GuiStateView { printers_active: old(self)@.printers_active.update(printer_id as int, false), ..old(self)@ }),
    {
        self.printers_active.set(printer_id, false);
    }
}

impl GuiState {
    /// The number of users shown.
    pub fn num_users(&self) -> (r: usize)
        ensures
            r == self@.user_commands.len(),
    {
        self.user_commands.len()
    }

    /// The number of disks shown.
    pub fn num_disks(&self) -> (r: usize)
        ensures
            r == self@.disk_actions.len(),
    {
        self.disk_actions.len()
    }

    /// The number of printers shown.
    pub fn num_printers(&self) -> (r: usize)
        ensures
            r == self@.printer_strings.len(),
    {
        self.printer_strings.len()
    }

    /// What user `id` does.
    pub fn user_command(&self, id: usize) -> (r: String)
        requires
            id < self@.user_commands.len(),
        ensures
            r@ == self@.user_commands[id as int],
    {
        self.user_commands[id].clone()
    }

    /// What disk `id` does.
    pub fn disk_action(&self, id: usize) -> (r: String)
        requires
            id < self@.disk_actions.len(),
        ensures
            r@ == self@.disk_actions[id as int],
    {
        self.disk_actions[id].clone()
    }

    /// The sector last written to disk `id`.
    pub fn disk_sector(&self, id: usize) -> (r: usize)
        requires
            gui_wf(self@),
            id < self@.disk_actions.len(),
        ensures
            r == self@.disk_sectors[id as int],
    {
        self.disk_sectors[id]
    }

    /// What printer `id` does.
    pub fn printer_string(&self, id: usize) -> (r: String)
        requires
            id < self@.printer_strings.len(),
        ensures
            r@ == self@.printer_strings[id as int],
    {
        self.printer_strings[id].clone()
    }

    /// The count of lines shown as printed by printer `id`.
    pub fn num_printed_lines(&self, id: usize) -> (r: usize)
        requires
            gui_wf(self@),
            id < self@.printer_strings.len(),
        ensures
            r == self@.num_printed_lines[id as int],
    {
        self.num_printed_lines[id]
    }

    /// How many print jobs wait for a printer.
    pub fn prints_waiting(&self) -> (r: usize)
        ensures
            r == self@.prints_waiting,
    {
        self.prints_waiting
    }
}

impl GuiState {
    /// Pauses user `id` if it runs, or lets it run if it is paused: what its
    /// Pause or Resume button does.
    pub fn toggle_user_active(&mut self, id: usize)
        requires
            gui_wf(old(self)@),
            id < old(self)@.user_commands.len(),
        ensures
            final(self)@ == (GuiStateView {
                users_active: old(self)@.users_active.update(id as int, !old(self)@.users_active[id as int]),
                ..old(self)@
            }),
    {
        if self.user_active(id) {
            self.set_user_inactive(id);
        } else {
            self.set_user_active(id);
        }
    }

    /// Pauses disk `id` if it runs, or lets it run if it is paused: what its
    /// Pause or Resume button does.
    pub fn toggle_disk_active(&mut self, id: usize)
        requires
            gui_wf(old(self)@),
            id < old(self)@.disk_actions.len(),
        ensures
            final(self)@ == (GuiStateView {
                disks_active: old(self)@.disks_active.update(id as int, !old(self)@.disks_active[id as int]),
                ..old(self)@
            }),
    {
        if self.disk_active(id) {
            self.set_disk_inactive(id);
        } else {
            self.set_disk_active(id);
        }
    }

    /// Pauses printer `id` if it runs, or lets it run if it is paused: what
    /// its Pause or Resume button does.
    pub fn toggle_printer_active(&mut self, id: usize)
        requires
            gui_wf(old(self)@),
            id < old(self)@.printer_strings.len(),
        ensures
            final(self)@ == (GuiStateView {
                printers_active: old(self)@.printers_active.update(id as int, !old(self)@.printers_active[id as int]),
                ..old(self)@
            }),
    {
        if self.printer_active(id) {
            self.set_printer_inactive(id);
        } else {
            self.set_printer_active(id);
        }
    }
}

impl Default for GuiState {
    /// The state for no user, no disk and no printer.
    fn default() -> (r: Self)
        ensures
            gui_wf(r@),
            r@.user_commands.len() == 0,
            r@.disk_actions.len() == 0,
            r@.printer_strings.len() == 0,
            r@.prints_waiting == 0,
    {
        GuiState::new(0, 0, 0)
    }
}

/// Pausing a running user, disk or printer and resuming it gives back the
/// display state as it was.
pub proof fn law_pause_resume_roundtrip(v: GuiStateView, id: int)
    requires
        0 <= id < v.users_active.len() ==> v.users_active[id],
        0 <= id < v.disks_active.len() ==> v.disks_active[id],
        0 <= id < v.printers_active.len() ==> v.printers_active[id],
    ensures
        0 <= id < v.users_active.len() ==> v.users_active.update(id, false).update(id, true) == v.users_active,
        0 <= id < v.disks_active.len() ==> v.disks_active.update(id, false).update(id, true) == v.disks_active,
        0 <= id < v.printers_active.len() ==> v.printers_active.update(id, false).update(id, true)
            == v.printers_active,
{
    assert(0 <= id < v.users_active.len() ==> v.users_active.update(id, false).update(id, true) =~= v.users_active);
    assert(0 <= id < v.disks_active.len() ==> v.disks_active.update(id, false).update(id, true) =~= v.disks_active);
    assert(0 <= id < v.printers_active.len() ==> v.printers_active.update(id, false).update(id, true)
        =~= v.printers_active);
}

/// Each display change shows its text or number for its own user, disk or
/// printer, and leaves everything else as it was.
pub proof fn law_display_changes_are_local(v: GuiStateView, id: int, text: Seq<char>, sector: usize, other: int)
    requires
        gui_wf(v),
        other != id,
    ensures
        0 <= id < v.user_commands.len() ==> with_user_text(v, id, text).user_commands[id] == text,
        0 <= id < v.user_commands.len() && 0 <= other < v.user_commands.len() ==> with_user_text(v, id, text).user_commands[other] == v.user_commands[other],
        with_user_text(v, id, text).disk_actions == v.disk_actions,
        with_user_text(v, id, text).printer_strings == v.printer_strings,
        0 <= id < v.disk_actions.len() ==> with_disk_text(v, id, text, sector).disk_actions[id] == text
            && with_disk_text(v, id, text, sector).disk_sectors[id] == sector,
        0 <= id < v.disk_actions.len() && 0 <= other < v.disk_actions.len() ==> with_disk_text(v, id, text, sector).disk_actions[other]
            == v.disk_actions[other] && with_disk_text(v, id, text, sector).disk_sectors[other] == v.disk_sectors[other],
        with_disk_text(v, id, text, sector).user_commands == v.user_commands,
        0 <= id < v.disk_actions.len() ==> with_disk_fill(v, id, sector).disk_sectors[id] == sector,
        with_disk_fill(v, id, sector).disk_actions == v.disk_actions,
        0 <= id < v.disk_actions.len() && 0 <= other < v.disk_actions.len() ==> with_disk_fill(v, id, sector).disk_sectors[other] == v.disk_sectors[other],
        0 <= id < v.printer_strings.len() && v.num_printed_lines[id] < usize::MAX ==> with_printer_file(
            v,
            id,
            text,
        ).printer_strings[id] == printing_file(text) && with_printer_file(v, id, text).num_printed_lines[id]
            == v.num_printed_lines[id] + 1,
        0 <= id < v.printer_strings.len() && 0 <= other < v.printer_strings.len() ==> with_printer_file(v, id, text).printer_strings[other]
            == v.printer_strings[other] && with_printer_file(v, id, text).num_printed_lines[other]
            == v.num_printed_lines[other],
        0 <= id < v.printer_strings.len() ==> with_printer_idle(v, id).printer_strings[id] == not_in_use()
            && with_printer_idle(v, id).num_printed_lines == v.num_printed_lines,
        0 <= id < v.printer_strings.len() && 0 <= other < v.printer_strings.len() ==> with_printer_idle(v, id).printer_strings[other]
            == v.printer_strings[other],
        printing_file(text).len() == 15 + text.len(),
        printing_file(text).subrange(15, 15 + text.len() as int) == text,
{
    assert(printing_file(text).subrange(15, 15 + text.len() as int) =~= text);
}

} // verus!
