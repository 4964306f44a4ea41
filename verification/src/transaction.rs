//! A transaction as the rules see it: the hashes of the cells it consumes and
//! of the cells it creates, held in memory.

use crate::utils::{find_cells_by_hash, positions_with_hash, LoadHashTarget};
use ckb_std::error::SysError;
use vstd::prelude::*;

verus! {

/// The three hashes by which the rules know a cell.
#[derive(Debug, Clone, Copy, PartialEq, Eq)]
pub struct Cell {
    /// Hash of the lock script.
    pub lock_hash: [u8; 32],
    /// Hash of the type script, if the cell has one.
    pub type_hash: Option<[u8; 32]>,
    /// Hash of the cell's data.
    pub data_hash: [u8; 32],
}

/// A cell as a mathematical value.
pub struct CellView {
    pub lock_hash: Seq<u8>,
    pub type_hash: Option<Seq<u8>>,
    pub data_hash: Seq<u8>,
}

/// The bytes of an optional hash.
pub open spec fn option_hash_view(hash: Option<[u8; 32]>) -> Option<Seq<u8>> {
    match hash {
        Some(h) => Some(h@),
        None => None,
    }
}

impl CellView {
    /// The hash of the cell that `target` names; `None` for the type hash of a
    /// cell without type script.
    pub open spec fn hash(self, target: LoadHashTarget) -> Option<Seq<u8>> {
        match target {
            LoadHashTarget::Type => self.type_hash,
            LoadHashTarget::Lock => Some(self.lock_hash),
            LoadHashTarget::Data => Some(self.data_hash),
        }
    }
}

impl View for Cell {
    type V = CellView;

    open spec fn view(&self) -> CellView {
        CellView {
            lock_hash: self.lock_hash@,
            type_hash: option_hash_view(self.type_hash),
            data_hash: self.data_hash@,
        }
    }
}

/// The cells of a list as mathematical values, in the same order.
pub open spec fn cells_view(cells: Seq<Cell>) -> Seq<CellView> {
    Seq::new(cells.len(), |i: int| cells[i]@)
}

/// Positions as mathematical integers, in the same order.
pub open spec fn positions_view(positions: Seq<usize>) -> Seq<int> {
    Seq::new(positions.len(), |i: int| positions[i] as int)
}

/// Which side of the transaction a position counts in.
#[derive(Debug, Clone, Copy, PartialEq, Eq, Structural)]
pub enum Source {
    /// The cells that the transaction consumes.
    Input,
    /// The cells that the transaction creates.
    Output,
}

/// What a lock script can read of the transaction it runs in.
#[derive(Debug, PartialEq, Eq)]
pub struct Transaction {
    /// Hash of the running lock script: the lock hash of the cells it guards.
    pub script_hash: [u8; 32],
    /// Arguments of the running script: the packed policy.
    pub args: Vec<u8>,
    /// Positions, among the inputs, of the cells that the running script guards.
    pub group_inputs: Vec<usize>,
    /// The cells that the transaction consumes.
    pub inputs: Vec<Cell>,
    /// The cells that the transaction creates.
    pub outputs: Vec<Cell>,
}

/// A transaction as a mathematical value.
pub struct TransactionView {
    pub script_hash: Seq<u8>,
    pub args: Seq<u8>,
    pub group_inputs: Seq<int>,
    pub inputs: Seq<CellView>,
    pub outputs: Seq<CellView>,
}

impl TransactionView {
    /// The cells on one side of the transaction.
    pub open spec fn cells(self, source: Source) -> Seq<CellView> {
        match source {
            Source::Input => self.inputs,
            Source::Output => self.outputs,
        }
    }
}

impl View for Transaction {
    type V = TransactionView;

    open spec fn view(&self) -> TransactionView {
        TransactionView {
            script_hash: self.script_hash@,
            args: self.args@,
            group_inputs: positions_view(self.group_inputs@),
            inputs: cells_view(self.inputs@),
            outputs: cells_view(self.outputs@),
        }
    }
}

/// Whether two hashes hold the same bytes.
pub fn hash_eq(a: &[u8; 32], b: &[u8; 32]) -> (eq: bool)
    ensures
        eq == (a@ == b@),
{
    let mut i: usize = 0;
    while i < 32
        invariant
            i <= 32,
            forall|j: int| 0 <= j < i ==> a@[j] == b@[j],
        decreases 32 - i,
    {
        if a[i] != b[i] {
            return false;
        }
        i += 1;
    }
    assert(a@ =~= b@);
    true
}

/// Whether two optional hashes are both absent or hold the same bytes.
pub fn option_hash_eq(a: &Option<[u8; 32]>, b: &Option<[u8; 32]>) -> (eq: bool)
    ensures
        eq == (option_hash_view(*a) == option_hash_view(*b)),
{
    match (a, b) {
        (Some(x), Some(y)) => hash_eq(x, y),
        (None, None) => true,
        _ => false,
    }
}

impl Cell {
    /// The hash of the cell that `target` names; `None` for the type hash of a
    /// cell without type script.
    pub fn hash(&self, target: LoadHashTarget) -> (hash: Option<[u8; 32]>)
        ensures
            option_hash_view(hash) == self@.hash(target),
    {
        match target {
            LoadHashTarget::Type => self.type_hash,
            LoadHashTarget::Lock => Some(self.lock_hash),
            LoadHashTarget::Data => Some(self.data_hash),
        }
    }
}

impl Transaction {
    /// The transaction as the lock with the hash `script_hash` sees it: the
    /// cells it guards are the inputs that have this lock, in their order.
    pub fn new(script_hash: [u8; 32], args: Vec<u8>, inputs: Vec<Cell>, outputs: Vec<Cell>) -> (tx:
        Transaction)
        ensures
            tx.script_hash == script_hash,
            tx.args == args,
            tx.inputs == inputs,
            tx.outputs == outputs,
            tx@.group_inputs == positions_with_hash(
                tx@.inputs,
                LoadHashTarget::Lock,
                Some(script_hash@),
            ),
            forall|position: int|
                tx@.group_inputs.contains(position) <==> 0 <= position < tx@.inputs.len()
                    && tx@.inputs[position].lock_hash == script_hash@,
            tx@.group_in_range(),
    {
        let group_inputs = find_cells_by_hash(&inputs, LoadHashTarget::Lock, &Some(script_hash));
        let tx = Transaction { script_hash, args, group_inputs, inputs, outputs };
        proof {
            assert forall|i: int| 0 <= i < tx@.group_inputs.len() implies 0
                <= #[trigger] tx@.group_inputs[i] < tx@.inputs.len() by {
                assert(tx@.group_inputs.contains(tx@.group_inputs[i]));
            }
        }
        tx
    }

    /// The cells on one side of the transaction.
    pub fn cells(&self, source: Source) -> (cells: &Vec<Cell>)
        ensures
            cells_view(cells@) == self@.cells(source),
    {
        match source {
            Source::Input => &self.inputs,
            Source::Output => &self.outputs,
        }
    }

    /// The cell at `index` on one side of the transaction;
    /// `SysError::IndexOutOfBound` where that side has no such cell.
    pub fn cell(&self, index: usize, source: Source) -> (res: Result<Cell, SysError>)
        ensures
            match res {
                Ok(cell) => index < self@.cells(source).len() && cell@ == self@.cells(
                    source,
                )[index as int],
                Err(err) => index >= self@.cells(source).len() && err
                    == SysError::IndexOutOfBound,
            },
    {
        let cells = self.cells(source);
        if index < cells.len() {
            Ok(cells[index])
        } else {
            Err(SysError::IndexOutOfBound)
        }
    }

    /// Lock hash of the cell at `index`; `SysError::IndexOutOfBound` where
    /// that side has no such cell.
    pub fn lock_hash(&self, index: usize, source: Source) -> (res: Result<[u8; 32], SysError>)
        ensures
            match res {
                Ok(hash) => index < self@.cells(source).len() && hash@ == self@.cells(
                    source,
                )[index as int].lock_hash,
                Err(err) => index >= self@.cells(source).len() && err
                    == SysError::IndexOutOfBound,
            },
    {
        match self.cell(index, source) {
            Ok(cell) => Ok(cell.lock_hash),
            Err(err) => Err(err),
        }
    }

    /// Type hash of the cell at `index`, `None` for a cell without type
    /// script; `SysError::IndexOutOfBound` where that side has no such cell.
    pub fn type_hash(&self, index: usize, source: Source) -> (res: Result<
        Option<[u8; 32]>,
        SysError,
    >)
        ensures
            match res {
                Ok(hash) => index < self@.cells(source).len() && option_hash_view(hash)
                    == self@.cells(source)[index as int].type_hash,
                Err(err) => index >= self@.cells(source).len() && err
                    == SysError::IndexOutOfBound,
            },
    {
        match self.cell(index, source) {
            Ok(cell) => Ok(cell.type_hash),
            Err(err) => Err(err),
        }
    }

    /// Data hash of the cell at `index`; `SysError::IndexOutOfBound` where
    /// that side has no such cell.
    pub fn data_hash(&self, index: usize, source: Source) -> (res: Result<[u8; 32], SysError>)
        ensures
            match res {
                Ok(hash) => index < self@.cells(source).len() && hash@ == self@.cells(
                    source,
                )[index as int].data_hash,
                Err(err) => index >= self@.cells(source).len() && err
                    == SysError::IndexOutOfBound,
            },
    {
        match self.cell(index, source) {
            Ok(cell) => Ok(cell.data_hash),
            Err(err) => Err(err),
        }
    }
}

} // verus!
