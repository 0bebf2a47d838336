//! The printer manager: hands printers out to one print job at a time.

use vstd::prelude::*;
use crate::disk_manager::{lowest_free, lowest_free_from, lemma_lowest_free};

verus! {

/// Which printers are free, by printer number.
pub struct PrinterManager {
    num_printers: usize,
    printers_free: Vec<bool>,
}

impl View for PrinterManager {
    type V = Seq<bool>;

    closed spec fn view(&self) -> Seq<bool> {
        self.printers_free@
    }
}

impl PrinterManager {
    /// There is one flag per printer, and the number of printers fits in a
    /// `usize`.
    pub open spec fn wf(&self) -> bool {
        &&& self@.len() == self.num_printers()
        &&& self.num_printers() <= usize::MAX
    }

    /// The number of printers.
    pub closed spec fn num_printers(&self) -> nat {
        self.num_printers as nat
    }

    /// A manager of `num_printers` printers, all free.
    pub fn new(num_printers: usize) -> (r: Self)
        ensures
            r.wf(),
            r.num_printers() == num_printers,
            r@ == Seq::new(num_printers as nat, |i: int| true),
    {
        let mut printers_free: Vec<bool> = Vec::new();
        let mut i: usize = 0;
        while i < num_printers
            invariant
                i <= num_printers,
                printers_free@.len() == i,
                forall|j: int| 0 <= j < i ==> #[trigger] printers_free@[j],
            decreases num_printers - i,
        {
            printers_free.push(true);
            i = i + 1;
        }
        let r = PrinterManager { num_printers, printers_free };
        assert(r@ =~= Seq::new(num_printers as nat, |i: int| true));
        r
    }

    /// Hands out the lowest-numbered free printer, marked busy from now on;
    /// `None`, with nothing changed, when every printer is busy.
    pub fn request(&mut self) -> (r: Option<usize>)
        requires
            old(self).wf(),
        ensures
            final(self).wf(),
            final(self).num_printers() == old(self).num_printers(),
            match lowest_free(old(self)@) {
                Some(id) => r == Some(id as usize) && final(self)@ == old(self)@.update(id, false),
                None => r is None && final(self)@ == old(self)@,
            },
    {
        proof {
            lemma_lowest_free(self.printers_free@);
        }
        let n = self.num_printers;
        let mut id: usize = 0;
        while id < n
            invariant
                self.wf(),
                self.num_printers == old(self).num_printers,
                self@ == old(self)@,
                n == self.num_printers,
                id <= n,
                lowest_free(self@) == lowest_free_from(self@, id as int),
            decreases n - id,
        {
            if self.printers_free[id] {
                self.printers_free.set(id, false);
                return Some(id);
            }
            id = id + 1;
        }
        None
    }

    /// Gives printer `id` back, to be handed out again.
    pub fn release(&mut self, id: usize)
        requires
            old(self).wf(),
            id < old(self).num_printers(),
        ensures
            final(self).wf(),
            final(self).num_printers() == old(self).num_printers(),
            final(self)@ == old(self)@.update(id as int, true),
    {
        self.printers_free.set(id, true);
    }
}

/// Handing out a printer and taking it back restores which printers are
/// free; a request never hands out a busy printer.
pub proof fn law_printer_request_release_roundtrip(free: Seq<bool>)
    ensures
        match lowest_free(free) {
            Some(id) => free[id] && free.update(id, false).update(id, true) == free,
            None => forall|j: int| 0 <= j < free.len() ==> !free[j],
        },
{
    lemma_lowest_free(free);
    if let Some(id) = lowest_free(free) {
        assert(free.update(id, false).update(id, true) =~= free);
    }
}

/// A request for a printer, or the return of printer `id`.
pub enum PrinterOp {
    Request,
    Release(int),
}

/// The free flags after `op`.
pub open spec fn apply_printer_op(free: Seq<bool>, op: PrinterOp) -> Seq<bool> {
    match op {
        PrinterOp::Request => match lowest_free(free) {
            Some(id) => free.update(id, false),
            None => free,
        },
        PrinterOp::Release(id) => free.update(id, true),
    }
}

/// The free flags after the operations `ops`, done in order.
pub open spec fn run_printer_ops(free: Seq<bool>, ops: Seq<PrinterOp>) -> Seq<bool>
    decreases ops.len(),
{
    if ops.len() == 0 {
        free
    } else {
        apply_printer_op(run_printer_ops(free, ops.drop_last()), ops.last())
    }
}

proof fn lemma_printer_ops_keep_busy(free: Seq<bool>, k: int, ops: Seq<PrinterOp>)
    requires
        0 <= k < free.len(),
        !free[k],
        forall|i: int| 0 <= i < ops.len() ==> match #[trigger] ops[i] {
            PrinterOp::Release(id) => 0 <= id < free.len() && id != k,
            PrinterOp::Request => true,
        },
    ensures
        run_printer_ops(free, ops).len() == free.len(),
        !run_printer_ops(free, ops)[k],
    decreases ops.len(),
{
    if ops.len() > 0 {
        let prev = ops.drop_last();
        assert forall|i: int| 0 <= i < prev.len() implies match #[trigger] prev[i] {
            PrinterOp::Release(id) => 0 <= id < free.len() && id != k,
            PrinterOp::Request => true,
        } by {
            assert(prev[i] == ops[i]);
        }
        lemma_printer_ops_keep_busy(free, k, prev);
        let cur = run_printer_ops(free, prev);
        lemma_lowest_free(cur);
        assert(ops[ops.len() - 1] == ops.last());
    }
}

/// A printer handed out stays busy, and is never handed out again, until it
/// is given back: over any requests and returns of other printers, every
/// request answers another printer or none.
pub proof fn law_held_printer_never_handed_out(free: Seq<bool>, k: int, ops: Seq<PrinterOp>)
    requires
        0 <= k < free.len(),
        !free[k],
        forall|i: int| 0 <= i < ops.len() ==> match #[trigger] ops[i] {
            PrinterOp::Release(id) => 0 <= id < free.len() && id != k,
            PrinterOp::Request => true,
        },
    ensures
        !run_printer_ops(free, ops)[k],
        forall|i: int| 0 <= i <= ops.len() ==> lowest_free(#[trigger] run_printer_ops(free, ops.take(i))) != Some(k),
{
    lemma_printer_ops_keep_busy(free, k, ops);
    assert forall|i: int| 0 <= i <= ops.len() implies lowest_free(#[trigger] run_printer_ops(free, ops.take(i))) != Some(k) by {
        let pre = ops.take(i);
        assert forall|j: int| 0 <= j < pre.len() implies match #[trigger] pre[j] {
            PrinterOp::Release(id) => 0 <= id < free.len() && id != k,
            PrinterOp::Request => true,
        } by {
            assert(pre[j] == ops[j]);
        }
        lemma_printer_ops_keep_busy(free, k, pre);
        lemma_lowest_free(run_printer_ops(free, pre));
    }
}

} // verus!
