//! A disk: a fixed number of sectors, each holding one line of text.

use vstd::prelude::*;
use crate::gui_state::{GuiState, gui_wf, with_disk_fill};

verus! {

/// How many sectors a disk has.
pub const NUM_SECTORS: usize = 2048;

/// A disk of `NUM_SECTORS` sectors, each holding a string.
pub struct Disk {
    sectors: Vec<String>,
    id: usize,
}

impl Disk {
    /// The disk has its full number of sectors.
    pub open spec fn wf(&self) -> bool {
        self.sectors().len() == NUM_SECTORS
    }

    /// The number of the disk.
    pub closed spec fn id(&self) -> usize {
        self.id
    }

    /// The contents of the sectors, in order.
    pub closed spec fn sectors(&self) -> Seq<Seq<char>> {
        self.sectors@.map_values(|s: String| s@)
    }

    /// A disk numbered `id` whose sectors are all empty.
    pub fn new(id: usize) -> (r: Self)
        ensures
            r.wf(),
            r.id() == id,
            r.sectors().len() == NUM_SECTORS,
            forall|i: int| 0 <= i < NUM_SECTORS ==> #[trigger] r.sectors()[i] == Seq::<char>::empty(),
    {
        let mut sectors: Vec<String> = Vec::new();
        let mut i: usize = 0;
        while i < NUM_SECTORS
            invariant
                i <= NUM_SECTORS,
                sectors@.len() == i,
                forall|j: int| 0 <= j < i ==> #[trigger] sectors@[j]@ == Seq::<char>::empty(),
            decreases NUM_SECTORS - i,
        {
            sectors.push(String::new());
            i = i + 1;
        }
        Disk { sectors, id }
    }

    /// Stores `data` in sector `sector`, and shows on the display that this
    /// sector was the last written to the disk.
    pub fn write(&mut self, gui: &mut GuiState, sector: usize, data: String)
        requires
            old(self).wf(),
            sector < NUM_SECTORS,
            gui_wf(old(gui)@),
            old(self).id() < old(gui)@.disk_actions.len(),
        ensures
            final(self).wf(),
            final(self).id() == old(self).id(),
            final(self).sectors() == old(self).sectors().update(sector as int, data@),
            final(gui)@ == with_disk_fill(old(gui)@, old(self).id() as int, sector),
    {
        let ghost d = data@;
        self.sectors.set(sector, data);
        assert(self.sectors() =~= old(self).sectors().update(sector as int, d));
        let action = gui.disk_action(self.id);
        gui.update_disk(self.id, action, sector);
        assert(gui@.disk_actions =~= old(gui)@.disk_actions);
    }

    /// The contents of sector `sector`.
    pub fn read(&self, sector: usize) -> (r: String)
        requires
            self.wf(),
            sector < NUM_SECTORS,
        ensures
            r@ == self.sectors()[sector as int],
    {
        self.sectors[sector].clone()
    }
}

/// A sector holds what was last written to it: reading it back gives the
/// data written, and every other sector keeps its contents.
pub proof fn law_read_after_write(sectors: Seq<Seq<char>>, sector: int, data: Seq<char>, other: int)
    requires
        sectors.len() == NUM_SECTORS,
        0 <= sector < NUM_SECTORS,
        0 <= other < NUM_SECTORS,
    ensures
        sectors.update(sector, data)[sector] == data,
        other != sector ==> sectors.update(sector, data)[other] == sectors[other],
        sectors.update(sector, data).len() == NUM_SECTORS,
{
}

/// The sector contents after the writes `writes`, each a sector and the data
/// written to it, done in order.
pub open spec fn apply_writes(sectors: Seq<Seq<char>>, writes: Seq<(int, Seq<char>)>) -> Seq<Seq<char>>
    decreases writes.len(),
{
    if writes.len() == 0 {
        sectors
    } else {
        apply_writes(sectors, writes.drop_last()).update(writes.last().0, writes.last().1)
    }
}

/// A sector reads back its last write, however many writes to other sectors
/// come after it.
pub proof fn law_read_after_last_write(
    sectors: Seq<Seq<char>>,
    sector: int,
    data: Seq<char>,
    writes: Seq<(int, Seq<char>)>,
)
    requires
        sectors.len() == NUM_SECTORS,
        0 <= sector < NUM_SECTORS,
        forall|i: int| 0 <= i < writes.len() ==> 0 <= (#[trigger] writes[i]).0 < NUM_SECTORS && writes[i].0 != sector,
    ensures
        apply_writes(sectors.update(sector, data), writes).len() == NUM_SECTORS,
        apply_writes(sectors.update(sector, data), writes)[sector] == data,
    decreases writes.len(),
{
    if writes.len() > 0 {
        let prev = writes.drop_last();
        assert forall|i: int| 0 <= i < prev.len() implies 0 <= (#[trigger] prev[i]).0 < NUM_SECTORS && prev[i].0 != sector by {
            assert(prev[i] == writes[i]);
        }
        law_read_after_last_write(sectors, sector, data, prev);
        assert(writes[writes.len() - 1] == writes.last());
    }
}

} // verus!
