//! The disk manager: hands disks out to one user at a time, remembers where
//! the next file on each disk may begin, and keeps the directory.

use vstd::prelude::*;
use crate::directory_manager::{DirectoryManager, FileInfo, lookup_spec};
use crate::disk::{Disk, NUM_SECTORS};
use crate::gui_state::{GuiState, gui_wf, with_disk_fill};

verus! {

/// What a disk manager holds, as mathematical values.
pub struct DiskManagerView {
    /// How many disks there are.
    pub num_disks: nat,
    /// The contents of each disk, sector by sector.
    pub disks: Seq<Seq<Seq<char>>>,
    /// Which disks are free to be handed out.
    pub free: Seq<bool>,
    /// For each disk, the sector at which the next file on it begins.
    pub next_free: Seq<usize>,
    /// The directory of saved files.
    pub files: Map<Seq<char>, FileInfo>,
}

/// The lowest index at or after `i` of a free disk, if there is one.
pub open spec fn lowest_free_from(free: Seq<bool>, i: int) -> Option<int>
    decreases free.len() - i,
{
    if i < 0 || i >= free.len() {
        None
    } else if free[i] {
        Some(i)
    } else {
        lowest_free_from(free, i + 1)
    }
}

/// The lowest index of a free disk, if there is one.
pub open spec fn lowest_free(free: Seq<bool>) -> Option<int> {
    lowest_free_from(free, 0)
}

/// What a request for a disk answers and leaves behind: the lowest free disk
/// with the sector at which its next file begins, now marked busy; or
/// nothing, with the state unchanged, when every disk is busy.
pub open spec fn request_spec(s: DiskManagerView) -> (Option<(usize, usize)>, DiskManagerView) {
    match lowest_free(s.free) {
        Some(id) => (
            Some((id as usize, s.next_free[id])),
            DiskManagerView { free: s.free.update(id, false), ..s },
        ),
        None => (None, s),
    }
}

/// The state after disk `id` is given back.
pub open spec fn release_spec(s: DiskManagerView, id: int) -> DiskManagerView {
    DiskManagerView { free: s.free.update(id, true), ..s }
}

/// The state after the next file on disk `id` is set to begin at `next`.
pub open spec fn set_next_free_spec(s: DiskManagerView, id: int, next: usize) -> DiskManagerView {
    DiskManagerView { next_free: s.next_free.update(id, next), ..s }
}

/// The state after `data` is written to sector `sector` of disk `id`.
pub open spec fn write_sector_spec(s: DiskManagerView, id: int, sector: int, data: Seq<char>) -> DiskManagerView {
    DiskManagerView { disks: s.disks.update(id, s.disks[id].update(sector, data)), ..s }
}

/// The state after the file `name` is recorded as lying where `info` says.
pub open spec fn enter_spec(s: DiskManagerView, name: Seq<char>, info: FileInfo) -> DiskManagerView {
    DiskManagerView { files: s.files.insert(name, info), ..s }
}

proof fn lemma_lowest_free_from(free: Seq<bool>, i: int)
    requires
        0 <= i <= free.len(),
    ensures
        match lowest_free_from(free, i) {
            Some(k) => i <= k < free.len() && free[k] && forall|j: int| i <= j < k ==> !free[j],
            None => forall|j: int| i <= j < free.len() ==> !free[j],
        },
    decreases free.len() - i,
{
    if i < free.len() {
        lemma_lowest_free_from(free, i + 1);
    }
}

/// `lowest_free` is the least index of a free disk.
pub proof fn lemma_lowest_free(free: Seq<bool>)
    ensures
        match lowest_free(free) {
            Some(k) => 0 <= k < free.len() && free[k] && forall|j: int| 0 <= j < k ==> !free[j],
            None => forall|j: int| 0 <= j < free.len() ==> !free[j],
        },
{
    lemma_lowest_free_from(free, 0);
}

/// A request followed by giving back the disk it handed out restores the
/// state: nothing else changes while a disk is held.
pub proof fn law_request_release_roundtrip(dm: DiskManagerView)
    requires
        view_wf(dm),
    ensures
        match request_spec(dm).0 {
            Some((id, base)) => {
                &&& id < dm.num_disks
                &&& dm.free[id as int]
                &&& !request_spec(dm).1.free[id as int]
                &&& base == dm.next_free[id as int]
                &&& release_spec(request_spec(dm).1, id as int) == dm
            },
            None => request_spec(dm).1 == dm && forall|j: int| 0 <= j < dm.num_disks ==> !dm.free[j],
        },
{
    lemma_lowest_free(dm.free);
    if let Some(id) = lowest_free(dm.free) {
        assert(release_spec(request_spec(dm).1, id).free =~= dm.free);
    }
}

/// Giving back disk `id` makes it free, in every state, whoever held it and
/// whatever other disks are free; no other flag and nothing else changes.
pub proof fn law_release_frees_exactly_that_disk(s: DiskManagerView, id: int)
    requires
        view_wf(s),
        0 <= id < s.num_disks,
    ensures
        release_spec(s, id).free[id],
        release_spec(s, id).free.len() == s.free.len(),
        forall|j: int| 0 <= j < s.num_disks && j != id ==> #[trigger] release_spec(s, id).free[j] == s.free[j],
        release_spec(s, id).num_disks == s.num_disks,
        release_spec(s, id).disks == s.disks,
        release_spec(s, id).next_free == s.next_free,
        release_spec(s, id).files == s.files,
{
}

/// A request hands out a free disk, the lowest-numbered one, with the
/// sector where the next file on it begins, and makes that disk busy and no
/// other; it hands out nothing only when every disk is busy, and then
/// changes nothing.
pub proof fn law_request_hands_out_lowest_free(s: DiskManagerView)
    requires
        view_wf(s),
    ensures
        match request_spec(s).0 {
            Some((id, base)) => {
                &&& id < s.num_disks
                &&& s.free[id as int]
                &&& forall|j: int| 0 <= j < id ==> !#[trigger] s.free[j]
                &&& base == s.next_free[id as int]
                &&& !request_spec(s).1.free[id as int]
                &&& request_spec(s).1.free.len() == s.free.len()
                &&& forall|j: int| 0 <= j < s.num_disks && j != id ==> #[trigger] request_spec(s).1.free[j] == s.free[j]
                &&& request_spec(s).1.disks == s.disks
                &&& request_spec(s).1.next_free == s.next_free
                &&& request_spec(s).1.files == s.files
                &&& request_spec(s).1.num_disks == s.num_disks
            },
            None => {
                &&& forall|j: int| 0 <= j < s.num_disks ==> !#[trigger] s.free[j]
                &&& request_spec(s).1 == s
            },
        },
{
    lemma_lowest_free(s.free);
}

/// Setting where the next file on disk `id` begins changes that and nothing
/// else.
pub proof fn law_set_next_free_changes_only_that_disk(s: DiskManagerView, id: int, next: usize)
    requires
        view_wf(s),
        0 <= id < s.num_disks,
    ensures
        set_next_free_spec(s, id, next).next_free[id] == next,
        set_next_free_spec(s, id, next).next_free.len() == s.next_free.len(),
        forall|j: int| 0 <= j < s.num_disks && j != id ==> #[trigger] set_next_free_spec(s, id, next).next_free[j]
            == s.next_free[j],
        set_next_free_spec(s, id, next).free == s.free,
        set_next_free_spec(s, id, next).disks == s.disks,
        set_next_free_spec(s, id, next).files == s.files,
        set_next_free_spec(s, id, next).num_disks == s.num_disks,
{
}

/// Writing a sector changes that sector of that disk, to the data written,
/// and nothing else.
pub proof fn law_write_changes_only_that_sector(s: DiskManagerView, id: int, sector: int, data: Seq<char>)
    requires
        view_wf(s),
        0 <= id < s.num_disks,
        0 <= sector < NUM_SECTORS,
    ensures
        write_sector_spec(s, id, sector, data).disks[id][sector] == data,
        write_sector_spec(s, id, sector, data).disks[id].len() == NUM_SECTORS,
        forall|k: int| 0 <= k < NUM_SECTORS && k != sector ==> #[trigger] write_sector_spec(s, id, sector, data).disks[id][k]
            == s.disks[id][k],
        forall|e: int| 0 <= e < s.num_disks && e != id ==> #[trigger] write_sector_spec(s, id, sector, data).disks[e]
            == s.disks[e],
        write_sector_spec(s, id, sector, data).disks.len() == s.disks.len(),
        write_sector_spec(s, id, sector, data).free == s.free,
        write_sector_spec(s, id, sector, data).next_free == s.next_free,
        write_sector_spec(s, id, sector, data).files == s.files,
{
}

/// Entering a file records it under its name, replacing an earlier entry of
/// that name, and changes nothing else.
pub proof fn law_enter_records_only_that_name(s: DiskManagerView, name: Seq<char>, info: FileInfo, other: Seq<char>)
    ensures
        lookup_spec(enter_spec(s, name, info).files, name) == Some(info),
        other != name ==> lookup_spec(enter_spec(s, name, info).files, other) == lookup_spec(s.files, other),
        enter_spec(s, name, info).disks == s.disks,
        enter_spec(s, name, info).free == s.free,
        enter_spec(s, name, info).next_free == s.next_free,
        enter_spec(s, name, info).num_disks == s.num_disks,
{
}

/// One operation of a disk manager, as its spec functions state it.
pub enum DiskOp {
    Request,
    Release(int),
    SetNextFree(int, usize),
    WriteSector(int, int, Seq<char>),
    Enter(Seq<char>, FileInfo),
}

/// The state after `op`.
pub open spec fn apply_disk_op(s: DiskManagerView, op: DiskOp) -> DiskManagerView {
    match op {
        DiskOp::Request => request_spec(s).1,
        DiskOp::Release(id) => release_spec(s, id),
        DiskOp::SetNextFree(id, next) => set_next_free_spec(s, id, next),
        DiskOp::WriteSector(id, sector, data) => write_sector_spec(s, id, sector, data),
        DiskOp::Enter(name, info) => enter_spec(s, name, info),
    }
}

/// The state after the operations `ops`, done in order.
pub open spec fn run_disk_ops(s: DiskManagerView, ops: Seq<DiskOp>) -> DiskManagerView
    decreases ops.len(),
{
    if ops.len() == 0 {
        s
    } else {
        apply_disk_op(run_disk_ops(s, ops.drop_last()), ops.last())
    }
}

/// `op` names an existing disk and sector, as the operations require, and
/// does not give back disk `k`.
pub open spec fn op_keeps_held(num_disks: nat, op: DiskOp, k: int) -> bool {
    match op {
        DiskOp::Request => true,
        DiskOp::Release(id) => 0 <= id < num_disks && id != k,
        DiskOp::SetNextFree(id, next) => 0 <= id < num_disks,
        DiskOp::WriteSector(id, sector, data) => 0 <= id < num_disks && 0 <= sector < NUM_SECTORS,
        DiskOp::Enter(name, info) => true,
    }
}

proof fn lemma_disk_ops_keep_busy(s: DiskManagerView, k: int, ops: Seq<DiskOp>)
    requires
        view_wf(s),
        0 <= k < s.num_disks,
        !s.free[k],
        forall|i: int| 0 <= i < ops.len() ==> op_keeps_held(s.num_disks, #[trigger] ops[i], k),
    ensures
        view_wf(run_disk_ops(s, ops)),
        run_disk_ops(s, ops).num_disks == s.num_disks,
        !run_disk_ops(s, ops).free[k],
    decreases ops.len(),
{
    if ops.len() > 0 {
        let prev = ops.drop_last();
        assert forall|i: int| 0 <= i < prev.len() implies op_keeps_held(s.num_disks, #[trigger] prev[i], k) by {
            assert(prev[i] == ops[i]);
        }
        lemma_disk_ops_keep_busy(s, k, prev);
        let cur = run_disk_ops(s, prev);
        lemma_lowest_free(cur.free);
        assert(ops[ops.len() - 1] == ops.last());
        let next = apply_disk_op(cur, ops.last());
        if let DiskOp::WriteSector(id, sector, data) = ops.last() {
            assert forall|e: int| 0 <= e < next.num_disks implies (#[trigger] next.disks[e]).len() == NUM_SECTORS by {
                if e != id {
                    assert(next.disks[e] == cur.disks[e]);
                }
            }
        }
    }
}

/// A disk handed out stays busy, and is never handed out again, until it is
/// given back: over any other operations of the manager, every request
/// answers another disk or none.
pub proof fn law_held_disk_never_handed_out(s: DiskManagerView, k: int, ops: Seq<DiskOp>)
    requires
        view_wf(s),
        0 <= k < s.num_disks,
        !s.free[k],
        forall|i: int| 0 <= i < ops.len() ==> op_keeps_held(s.num_disks, #[trigger] ops[i], k),
    ensures
        !run_disk_ops(s, ops).free[k],
        forall|i: int| 0 <= i <= ops.len() ==> match request_spec(#[trigger] run_disk_ops(s, ops.take(i))).0 {
            Some((id, base)) => id != k,
            None => true,
        },
{
    lemma_disk_ops_keep_busy(s, k, ops);
    assert forall|i: int| 0 <= i <= ops.len() implies match request_spec(#[trigger] run_disk_ops(s, ops.take(i))).0 {
        Some((id, base)) => id != k,
        None => true,
    } by {
        let pre = ops.take(i);
        assert forall|j: int| 0 <= j < pre.len() implies op_keeps_held(s.num_disks, #[trigger] pre[j], k) by {
            assert(pre[j] == ops[j]);
        }
        lemma_disk_ops_keep_busy(s, k, pre);
        lemma_lowest_free(run_disk_ops(s, pre).free);
    }
}

/// Hands out disks and keeps track of them and of the saved files.
pub struct DiskManager {
    num_disks: usize,
    disks: Vec<Disk>,
    disks_free: Vec<bool>,
    next_free_sectors: Vec<usize>,
    directory_manager: DirectoryManager,
}

impl View for DiskManager {
    type V = DiskManagerView;

    closed spec fn view(&self) -> DiskManagerView {
        DiskManagerView {
            num_disks: self.num_disks as nat,
            disks: self.disks@.map_values(|d: Disk| d.sectors()),
            free: self.disks_free@,
            next_free: self.next_free_sectors@,
            files: self.directory_manager@,
        }
    }
}

/// Every disk has its full number of sectors, and there is one flag and one
/// next sector per disk.
pub open spec fn view_wf(s: DiskManagerView) -> bool {
    &&& s.num_disks <= usize::MAX
    &&& s.disks.len() == s.num_disks
    &&& s.free.len() == s.num_disks
    &&& s.next_free.len() == s.num_disks
    &&& forall|i: int| 0 <= i < s.num_disks ==> (#[trigger] s.disks[i]).len() == NUM_SECTORS
}

impl DiskManager {
    /// The disk manager's internal invariant.
    pub closed spec fn wf(&self) -> bool {
        &&& self.disks@.len() == self.num_disks
        &&& self.disks_free@.len() == self.num_disks
        &&& self.next_free_sectors@.len() == self.num_disks
        &&& forall|i: int|
            0 <= i < self.num_disks ==> (#[trigger] self.disks@[i]).wf() && self.disks@[i].id() == i
        &&& self.directory_manager.wf()
    }

    /// A well-formed manager has a well-formed view.
    pub proof fn lemma_wf_view(&self)
        requires
            self.wf(),
        ensures
            view_wf(self@),
    {
        assert forall|i: int| 0 <= i < self@.num_disks implies (#[trigger] self@.disks[i]).len() == NUM_SECTORS by {
            assert(self.disks@[i].wf());
        }
    }

    /// A manager of `num_disks` empty disks, all free, with every next file
    /// beginning at sector 0 and no file in the directory.
    pub fn new(num_disks: usize) -> (r: Self)
        ensures
            r.wf(),
            r@.num_disks == num_disks,
            r@.disks.len() == num_disks,
            forall|i: int, k: int| 0 <= i < num_disks && 0 <= k < NUM_SECTORS ==> #[trigger] r@.disks[i][k] == Seq::<char>::empty(),
            forall|i: int| 0 <= i < num_disks ==> (#[trigger] r@.disks[i]).len() == NUM_SECTORS,
            r@.free == Seq::new(num_disks as nat, |i: int| true),
            r@.next_free == Seq::new(num_disks as nat, |i: int| 0usize),
            r@.files == Map::<Seq<char>, FileInfo>::empty(),
    {
        let mut disks: Vec<Disk> = Vec::new();
        let mut disks_free: Vec<bool> = Vec::new();
        let mut next_free_sectors: Vec<usize> = Vec::new();
        let mut i: usize = 0;
        while i < num_disks
            invariant
                i <= num_disks,
                disks@.len() == i,
                disks_free@.len() == i,
                next_free_sectors@.len() == i,
                forall|j: int| 0 <= j < i ==> (#[trigger] disks@[j]).wf() && disks@[j].id() == j,
                forall|j: int| 0 <= j < i ==> (#[trigger] disks@[j]).sectors().len() == NUM_SECTORS,
                forall|j: int, k: int| 0 <= j < i && 0 <= k < NUM_SECTORS ==> #[trigger] disks@[j].sectors()[k] == Seq::<char>::empty(),
                forall|j: int| 0 <= j < i ==> #[trigger] disks_free@[j],
                forall|j: int| 0 <= j < i ==> #[trigger] next_free_sectors@[j] == 0,
            decreases num_disks - i,
        {
            disks.push(Disk::new(i));
            disks_free.push(true);
            next_free_sectors.push(0);
            i = i + 1;
        }
        let r = DiskManager {
            num_disks,
            disks,
            disks_free,
            next_free_sectors,
            directory_manager: DirectoryManager::new(),
        };
        assert(r@.free =~= Seq::new(num_disks as nat, |i: int| true));
        assert(r@.next_free =~= Seq::new(num_disks as nat, |i: int| 0usize));
        r
    }

    /// Hands out the lowest-numbered free disk, marked busy from now on,
    /// together with the sector at which the next file on it begins; `None`
    /// when every disk is busy.
    pub fn request(&mut self) -> (r: Option<(usize, usize)>)
        requires
            old(self).wf(),
        ensures
            final(self).wf(),
            (r, final(self)@) == request_spec(old(self)@),
    {
        proof {
            lemma_lowest_free(self.disks_free@);
        }
        let n = self.num_disks;
        let mut id: usize = 0;
        while id < n
            invariant
                self.wf(),
                self@ == old(self)@,
                n == self.num_disks,
                id <= n,
                lowest_free(self.disks_free@) == lowest_free_from(self.disks_free@, id as int),
            decreases n - id,
        {
            if self.disks_free[id] {
                self.disks_free.set(id, false);
                let base = self.get_next_free_sector(id);
                proof {
                    assert(self@ =~= request_spec(old(self)@).1);
                }
                return Some((id, base));
            }
            id = id + 1;
        }
        None
    }

    /// Gives disk `id` back, to be handed out again.
    pub fn release(&mut self, id: usize)
        requires
            old(self).wf(),
            id < old(self)@.num_disks,
        ensures
            final(self).wf(),
            final(self)@ == release_spec(old(self)@, id as int),
    {
        self.disks_free.set(id, true);
        assert(self@ =~= release_spec(old(self)@, id as int));
    }

    /// The sector at which the next file on disk `disk_id` begins.
    fn get_next_free_sector(&self, disk_id: usize) -> (r: usize)
        requires
            self.wf(),
            disk_id < self@.num_disks,
        ensures
            r == self@.next_free[disk_id as int],
    {
        self.next_free_sectors[disk_id]
    }

    /// Sets the sector at which the next file on disk `disk_id` begins.
    pub fn set_next_free_sector(&mut self, disk_id: usize, next: usize)
        requires
            old(self).wf(),
            disk_id < old(self)@.num_disks,
        ensures
            final(self).wf(),
            final(self)@ == set_next_free_spec(old(self)@, disk_id as int, next),
    {
        self.next_free_sectors.set(disk_id, next);
        assert(self@ =~= set_next_free_spec(old(self)@, disk_id as int, next));
    }

    /// Records in the directory that the file `file_name` lies where
    /// `file_info` says.
    pub fn enter_file_info(&mut self, file_name: String, file_info: FileInfo)
        requires
            old(self).wf(),
        ensures
            final(self).wf(),
            final(self)@ == enter_spec(old(self)@, file_name@, file_info),
    {
        let ghost name = file_name@;
        self.directory_manager.enter(file_name, file_info);
        assert(self@ =~= enter_spec(old(self)@, name, file_info));
    }

    /// Where the file `file_name` lies, if it was saved.
    pub fn get_file_info(&self, file_name: &String) -> (r: Option<FileInfo>)
        requires
            self.wf(),
        ensures
            r == lookup_spec(self@.files, file_name@),
    {
        self.directory_manager.lookup(file_name)
    }

    /// Disk number `disk_id`, if there is such a disk.
    pub fn get_disk(&self, disk_id: usize) -> (r: Option<&Disk>)
        requires
            self.wf(),
        ensures
            match r {
                Some(d) => disk_id < self@.num_disks && d.wf() && d.id() == disk_id
                    && d.sectors() == self@.disks[disk_id as int],
                None => disk_id >= self@.num_disks,
            },
    {
        if disk_id < self.num_disks {
            return Some(&self.disks[disk_id]);
        }
        None
    }

    /// Writes `data` to sector `sector` of disk `disk_id`, which the display
    /// then shows as the sector last written to that disk.
    pub fn write_sector(&mut self, gui: &mut GuiState, disk_id: usize, sector: usize, data: String)
        requires
            old(self).wf(),
            disk_id < old(self)@.num_disks,
            sector < NUM_SECTORS,
            gui_wf(old(gui)@),
            disk_id < old(gui)@.disk_actions.len(),
        ensures
            final(self).wf(),
            final(self)@ == write_sector_spec(old(self)@, disk_id as int, sector as int, data@),
            final(gui)@ == with_disk_fill(old(gui)@, disk_id as int, sector),
    {
        let ghost d = data@;
        self.disks[disk_id].write(gui, sector, data);
        assert(self@.disks =~= write_sector_spec(old(self)@, disk_id as int, sector as int, d).disks);
        assert(self@ =~= write_sector_spec(old(self)@, disk_id as int, sector as int, d));
    }
}

} // verus!
