//! The packed policy of a shadow lock, and the search for the cells that
//! carry a consumed cell forward.

use crate::errors::ShadowLockError;
use crate::transaction::{
    cells_view, hash_eq, option_hash_eq, option_hash_view, positions_view, Cell, CellView, Source,
    Transaction,
};
use ckb_std::error::SysError;
use vstd::prelude::*;

verus! {

/// The four switches of a policy, one bit each in the first byte of the
/// script's arguments.
#[derive(Debug, Clone, Copy, PartialEq, Eq, Structural)]
pub struct FeatureFlags {
    /// Bit 0: the delegate is known by its type hash, not by its lock hash.
    pub delegate_script_type: bool,
    /// Bit 1: a guarded cell may only pass to its own lock or to the delegate.
    pub forbid_trade: bool,
    /// Bit 2: a guarded cell must not come back among the outputs.
    pub self_destruction: bool,
    /// Bit 3: the delegate must hold the data whose hash the policy names.
    pub restrict_delegate_data: bool,
}

/// Which hash of a cell a comparison reads.
#[derive(Debug, Clone, Copy, PartialEq, Eq, Structural)]
pub enum LoadHashTarget {
    Type,
    Lock,
    Data,
}

/// Whether bit `k` of `byte` is set, bit 0 being the lowest.
pub open spec fn bit_is_set(byte: u8, k: nat) -> bool
    recommends
        k < 8,
{
    (byte as nat / vstd::arithmetic::power2::pow2(k)) % 2 == 1
}

impl FeatureFlags {
    /// The flags that a byte packs: flag `k` is bit `k`, the four high bits
    /// count for nothing.
    pub open spec fn spec_unpack(flag_bits: u8) -> FeatureFlags {
        FeatureFlags {
            delegate_script_type: bit_is_set(flag_bits, 0),
            forbid_trade: bit_is_set(flag_bits, 1),
            self_destruction: bit_is_set(flag_bits, 2),
            restrict_delegate_data: bit_is_set(flag_bits, 3),
        }
    }

    /// The hash by which the delegate is known.
    pub open spec fn spec_delegate_target(self) -> LoadHashTarget {
        if self.delegate_script_type {
            LoadHashTarget::Type
        } else {
            LoadHashTarget::Lock
        }
    }

    /// Reads the four flags from the low bits of `flag_bits`.
    pub fn unpack(flag_bits: u8) -> (flags: FeatureFlags)
        ensures
            flags == FeatureFlags::spec_unpack(flag_bits),
    {
        proof {
            lemma_bits_of_byte(flag_bits);
        }
        FeatureFlags {
            delegate_script_type: (flag_bits & 0b00000001) != 0,
            forbid_trade: (flag_bits & 0b00000010) != 0,
            self_destruction: (flag_bits & 0b00000100) != 0,
            restrict_delegate_data: (flag_bits & 0b00001000) != 0,
        }
    }

    /// The hash by which the delegate is known: its type hash if
    /// `delegate_script_type` is set, its lock hash if not.
    pub fn get_delegate_target(&self) -> (target: LoadHashTarget)
        ensures
            target == self.spec_delegate_target(),
            target != LoadHashTarget::Data,
    {
        if self.delegate_script_type {
            LoadHashTarget::Type
        } else {
            LoadHashTarget::Lock
        }
    }
}

/// A mask with one bit tests that bit.
pub proof fn lemma_bits_of_byte(byte: u8)
    ensures
        bit_is_set(byte, 0) == (byte & 0b00000001 != 0),
        bit_is_set(byte, 1) == (byte & 0b00000010 != 0),
        bit_is_set(byte, 2) == (byte & 0b00000100 != 0),
        bit_is_set(byte, 3) == (byte & 0b00001000 != 0),
{
    vstd::arithmetic::power2::lemma2_to64();
    assert((byte & 0b00000001 != 0) == ((byte / 1) % 2 == 1)) by (bit_vector);
    assert((byte & 0b00000010 != 0) == ((byte / 2) % 2 == 1)) by (bit_vector);
    assert((byte & 0b00000100 != 0) == ((byte / 4) % 2 == 1)) by (bit_vector);
    assert((byte & 0b00001000 != 0) == ((byte / 8) % 2 == 1)) by (bit_vector);
}

/// Length of a hash in bytes.
pub const HASH_LEN: usize = 32;

/// Length of the shortest arguments that hold a policy: the flag byte and the
/// reference hash.
pub const ARGS_LEN: usize = 33;

/// Length of the shortest arguments that hold a policy with a data hash.
pub const ARGS_LEN_WITH_DATA_HASH: usize = 65;

/// The policy of a shadow lock, as its script's arguments pack it.
#[derive(Debug, Clone, Copy, PartialEq, Eq)]
pub struct UnpackedShadowlockArgs {
    pub flags: FeatureFlags,
    /// Hash of the delegate: of its type script or of its lock script, as
    /// `flags.delegate_script_type` says.
    pub ref_hash: [u8; 32],
    /// Hash of the data that the delegate must hold, if the policy names one.
    pub data_hash: Option<[u8; 32]>,
}

/// A policy as a mathematical value.
pub struct ShadowlockArgsView {
    pub flags: FeatureFlags,
    pub ref_hash: Seq<u8>,
    pub data_hash: Option<Seq<u8>>,
}

impl View for UnpackedShadowlockArgs {
    type V = ShadowlockArgsView;

    open spec fn view(&self) -> ShadowlockArgsView {
        ShadowlockArgsView {
            flags: self.flags,
            ref_hash: self.ref_hash@,
            data_hash: option_hash_view(self.data_hash),
        }
    }
}

impl ShadowlockArgsView {
    /// A policy names a data hash exactly if `restrict_delegate_data` is set.
    pub open spec fn wf(self) -> bool {
        &&& self.ref_hash.len() == HASH_LEN
        &&& self.flags.restrict_delegate_data <==> self.data_hash is Some
        &&& self.data_hash matches Some(hash) ==> hash.len() == HASH_LEN
    }
}

/// The policy that `args` pack, `None` where they are too short for it.
///
/// Byte 0 holds the flags, bytes 1 to 32 the reference hash, and, only if
/// `restrict_delegate_data` is set, bytes 33 to 64 the data hash. What
/// follows is ignored.
pub open spec fn spec_unpack_script_args(args: Seq<u8>) -> Option<ShadowlockArgsView> {
    if args.len() < ARGS_LEN {
        None
    } else if !FeatureFlags::spec_unpack(args[0]).restrict_delegate_data {
        Some(
            ShadowlockArgsView {
                flags: FeatureFlags::spec_unpack(args[0]),
                ref_hash: args.subrange(1, ARGS_LEN as int),
                data_hash: None,
            },
        )
    } else if args.len() < ARGS_LEN_WITH_DATA_HASH {
        None
    } else {
        Some(
            ShadowlockArgsView {
                flags: FeatureFlags::spec_unpack(args[0]),
                ref_hash: args.subrange(1, ARGS_LEN as int),
                data_hash: Some(args.subrange(ARGS_LEN as int, ARGS_LEN_WITH_DATA_HASH as int)),
            },
        )
    }
}

/// The 32 bytes of `bytes` from `start` on.
fn read_hash(bytes: &[u8], start: usize) -> (hash: [u8; 32])
    requires
        start + HASH_LEN <= bytes.len(),
    ensures
        hash@ == bytes@.subrange(start as int, start + HASH_LEN),
{
    let mut hash = [0u8; 32];
    let mut i: usize = 0;
    while i < HASH_LEN
        invariant
            i <= HASH_LEN,
            start + HASH_LEN <= bytes.len(),
            forall|j: int| 0 <= j < i ==> hash@[j] == bytes@[start + j],
        decreases HASH_LEN - i,
    {
        hash[i] = bytes[start + i];
        i += 1;
    }
    assert(hash@ =~= bytes@.subrange(start as int, start + HASH_LEN));
    hash
}

/// Unpacks the policy from the arguments of the script.
///
/// Fails with `LengthNotEnough`, and with nothing else, where `args` has
/// fewer than 33 bytes, or fewer than 65 while bit 3 of the first byte asks
/// for a data hash.
pub fn unpack_script_args(args: &[u8]) -> (res: Result<UnpackedShadowlockArgs, ShadowLockError>)
    ensures
        match res {
            Ok(unpacked) => spec_unpack_script_args(args@) == Some(unpacked@) && unpacked@.wf(),
            Err(err) => spec_unpack_script_args(args@) is None && err
                == ShadowLockError::LengthNotEnough,
        },
        args.len() < 33 ==> res is Err,
        args.len() >= 33 && !bit_is_set(args[0], 3) ==> res is Ok && res->Ok_0.data_hash is None,
        args.len() >= 33 && bit_is_set(args[0], 3) && args.len() < 65 ==> res is Err,
        args.len() >= 65 && bit_is_set(args[0], 3) ==> res is Ok && res->Ok_0.data_hash is Some
            && res->Ok_0.data_hash->Some_0@ == args@.subrange(33, 65),
{
    if args.len() < ARGS_LEN {
        return Err(ShadowLockError::LengthNotEnough);
    }
    let flags = FeatureFlags::unpack(args[0]);
    let ref_hash = read_hash(args, 1);
    let data_hash = if flags.restrict_delegate_data {
        if args.len() < ARGS_LEN_WITH_DATA_HASH {
            return Err(ShadowLockError::LengthNotEnough);
        }
        Some(read_hash(args, ARGS_LEN))
    } else {
        None
    };
    Ok(UnpackedShadowlockArgs { flags, ref_hash, data_hash })
}

/// How the length of the arguments and bit 3 of their first byte decide
/// whether they unpack, and whether the policy then names a data hash.
pub proof fn lemma_unpack_by_length(args: Seq<u8>)
    ensures
        args.len() < 33 ==> spec_unpack_script_args(args) is None,
        args.len() >= 33 && !bit_is_set(args[0], 3) ==> spec_unpack_script_args(args) is Some
            && spec_unpack_script_args(args)->Some_0.data_hash is None,
        args.len() >= 33 && bit_is_set(args[0], 3) && args.len() < 65 ==> spec_unpack_script_args(
            args,
        ) is None,
        args.len() >= 65 && bit_is_set(args[0], 3) ==> spec_unpack_script_args(args) is Some
            && spec_unpack_script_args(args)->Some_0.data_hash == Some(args.subrange(33, 65)),
        spec_unpack_script_args(args) matches Some(policy) ==> policy.wf() && policy.flags
            == FeatureFlags::spec_unpack(args[0]) && policy.ref_hash == args.subrange(1, 33),
{
}

/// The positions `0` to `n - 1`, in ascending order.
pub open spec fn first_positions(n: nat) -> Seq<int> {
    Seq::new(n, |q: int| q)
}

/// The positions below `n` that meet `pred`, in ascending order.
pub open spec fn positions_where(n: nat, pred: spec_fn(int) -> bool) -> Seq<int> {
    first_positions(n).filter(pred)
}

/// How the positions below `n + 1` that meet `pred` come from those below `n`.
pub proof fn lemma_positions_where_next(n: nat, pred: spec_fn(int) -> bool)
    ensures
        positions_where(0, pred) == Seq::<int>::empty(),
        positions_where(n + 1, pred) == if pred(n as int) {
            positions_where(n, pred).push(n as int)
        } else {
            positions_where(n, pred)
        },
{
    reveal(Seq::filter);
    assert(first_positions(n + 1).drop_last() =~= first_positions(n));
}

/// `positions_where(n, pred)` holds exactly the positions below `n` that meet
/// `pred`, each once and in ascending order.
pub proof fn lemma_positions_where(n: nat, pred: spec_fn(int) -> bool)
    ensures
        forall|q: int| #[trigger]
            positions_where(n, pred).contains(q) <==> 0 <= q < n && pred(q),
        forall|i: int, j: int|
            0 <= i < j < positions_where(n, pred).len() ==> positions_where(n, pred)[i]
                < positions_where(n, pred)[j],
        positions_where(n, pred).len() <= n,
    decreases n,
{
    if n == 0 {
        lemma_positions_where_next(0, pred);
    } else {
        let m = (n - 1) as nat;
        lemma_positions_where_next(m, pred);
        lemma_positions_where(m, pred);
        let before = positions_where(m, pred);
        let all = positions_where(n, pred);
        if pred(m as int) {
            assert(all == before.push(m as int));
            assert forall|q: int| #[trigger] all.contains(q) <==> 0 <= q < n && pred(q) by {
                if all.contains(q) {
                    let i = choose|i: int| 0 <= i < all.len() && all[i] == q;
                    if i < before.len() {
                        assert(before.contains(q));
                    }
                }
                if 0 <= q < n && pred(q) {
                    if q == m {
                        assert(all[before.len() as int] == q);
                    } else {
                        assert(before.contains(q));
                        let i = choose|i: int| 0 <= i < before.len() && before[i] == q;
                        assert(all[i] == q);
                    }
                }
            }
            assert forall|i: int, j: int| 0 <= i < j < all.len() implies all[i] < all[j] by {
                assert(before.contains(all[i]));
            }
        }
    }
}

/// The test that the cell at a position of `cells` has `hash` as the hash
/// that `target` names.
pub open spec fn has_hash(cells: Seq<CellView>, target: LoadHashTarget, hash: Option<Seq<u8>>)
    -> spec_fn(int) -> bool {
    |q: int| cells[q].hash(target) == hash
}

/// The positions of the cells of `cells` that have `hash` as the hash that
/// `target` names, in ascending order.
pub open spec fn positions_with_hash(
    cells: Seq<CellView>,
    target: LoadHashTarget,
    hash: Option<Seq<u8>>,
) -> Seq<int> {
    positions_where(cells.len(), has_hash(cells, target, hash))
}

/// A list of positions holds a position exactly if its view holds it.
pub proof fn lemma_positions_view_contains(positions: Seq<usize>, position: usize)
    ensures
        positions.contains(position) <==> positions_view(positions).contains(position as int),
{
    if positions.contains(position) {
        let i = choose|i: int| 0 <= i < positions.len() && positions[i] == position;
        assert(positions_view(positions)[i] == position as int);
    }
    if positions_view(positions).contains(position as int) {
        let i = choose|i: int|
            0 <= i < positions_view(positions).len() && positions_view(positions)[i]
                == position as int;
        assert(positions[i] == position);
    }
}

/// Scans `cells` once and collects, in ascending order, the positions of the
/// cells that have `hash` as the hash that `target` names.
pub fn find_cells_by_hash(cells: &Vec<Cell>, target: LoadHashTarget, hash: &Option<[u8; 32]>) -> (found:
    Vec<usize>)
    ensures
        positions_view(found@) == positions_with_hash(
            cells_view(cells@),
            target,
            option_hash_view(*hash),
        ),
        forall|q: int|
            positions_view(found@).contains(q) <==> 0 <= q < cells.len() && cells_view(
                cells@,
            )[q].hash(target) == option_hash_view(*hash),
{
    let ghost wanted = has_hash(cells_view(cells@), target, option_hash_view(*hash));
    let mut found: Vec<usize> = Vec::new();
    let mut position: usize = 0;
    proof {
        lemma_positions_where_next(0, wanted);
        assert(positions_view(found@) =~= Seq::<int>::empty());
    }
    while position < cells.len()
        invariant
            position <= cells.len(),
            wanted == has_hash(cells_view(cells@), target, option_hash_view(*hash)),
            positions_view(found@) == positions_where(position as nat, wanted),
        decreases cells.len() - position,
    {
        let ghost before = found@;
        let cell_hash = cells[position].hash(target);
        proof {
            lemma_positions_where_next(position as nat, wanted);
            assert(cells_view(cells@)[position as int] == cells@[position as int]@);
        }
        if option_hash_eq(&cell_hash, hash) {
            found.push(position);
            assert(positions_view(found@) =~= positions_view(before).push(position as int));
        }
        position += 1;
    }
    proof {
        lemma_positions_where(cells.len() as nat, wanted);
    }
    found
}

/// Whether `positions` holds `position`.
pub fn contains_position(positions: &Vec<usize>, position: usize) -> (found: bool)
    ensures
        found == positions@.contains(position),
        found == positions_view(positions@).contains(position as int),
{
    proof {
        lemma_positions_view_contains(positions@, position);
    }
    let mut i: usize = 0;
    while i < positions.len()
        invariant
            i <= positions.len(),
            forall|j: int| 0 <= j < i ==> positions@[j] != position,
            positions@.contains(position) <==> positions_view(positions@).contains(
                position as int,
            ),
        decreases positions.len() - i,
    {
        if positions[i] == position {
            return true;
        }
        i += 1;
    }
    false
}

/// Whether `output` is `cell` carried forward: `cell` has a type hash and
/// `output` has the same, and also the lock hash of `cell` if `check_lock`
/// asks for it, and its data hash if `check_data` does. A cell without type
/// hash is carried forward by nothing.
pub open spec fn is_same_cell(
    cell: CellView,
    output: CellView,
    check_lock: bool,
    check_data: bool,
) -> bool {
    &&& cell.type_hash is Some
    &&& output.type_hash == cell.type_hash
    &&& check_lock ==> output.lock_hash == cell.lock_hash
    &&& check_data ==> output.data_hash == cell.data_hash
}

/// The test that the cell at a position of `outputs` is `cell` carried
/// forward.
pub open spec fn carries_forward(
    cell: CellView,
    outputs: Seq<CellView>,
    check_lock: bool,
    check_data: bool,
) -> spec_fn(int) -> bool {
    |q: int| is_same_cell(cell, outputs[q], check_lock, check_data)
}

/// Why the cell at `index` of `cells` cannot be searched for among the
/// outputs, `None` where it can: `IndexOutOfBound` where `cells` has no such
/// cell, `ItemMissing` where the cell has no type hash.
pub open spec fn same_cell_fault(cells: Seq<CellView>, index: int) -> Option<ShadowLockError> {
    if !(0 <= index < cells.len()) {
        Some(ShadowLockError::IndexOutOfBound)
    } else if cells[index].type_hash is None {
        Some(ShadowLockError::ItemMissing)
    } else {
        None
    }
}

/// The positions of the cells of `outputs` that are `cell` carried forward,
/// in ascending order: none, one or several.
pub open spec fn same_cell_positions(
    cell: CellView,
    outputs: Seq<CellView>,
    check_lock: bool,
    check_data: bool,
) -> Seq<int> {
    positions_where(outputs.len(), carries_forward(cell, outputs, check_lock, check_data))
}

/// An output is among `same_cell_positions` exactly if it is the cell carried
/// forward; the positions ascend, so that none comes twice.
pub proof fn lemma_same_cell_positions(
    cell: CellView,
    outputs: Seq<CellView>,
    check_lock: bool,
    check_data: bool,
)
    ensures
        forall|q: int| #[trigger]
            same_cell_positions(cell, outputs, check_lock, check_data).contains(q) <==> 0 <= q
                < outputs.len() && is_same_cell(cell, outputs[q], check_lock, check_data),
        forall|i: int, j: int|
            0 <= i < j < same_cell_positions(cell, outputs, check_lock, check_data).len()
                ==> same_cell_positions(cell, outputs, check_lock, check_data)[i]
                < same_cell_positions(cell, outputs, check_lock, check_data)[j],
        same_cell_positions(cell, outputs, check_lock, check_data).len() <= outputs.len(),
{
    lemma_positions_where(outputs.len(), carries_forward(cell, outputs, check_lock, check_data));
}

/// Finds the outputs that carry the cell at `input_index` of `source`
/// forward.
///
/// Reads the type hash of that cell, and its lock hash and data hash as far
/// as `check_lock` and `check_data` ask for them; scans the outputs once for
/// each hash read; and returns, in ascending order, the positions of the
/// outputs that agree with the cell in every hash read. No such output is no
/// error.
///
/// The type hash of the cell is required. The search fails with
/// `IndexOutOfBound` where `source` has no cell at `input_index`, with
/// `ItemMissing` where that cell has no type hash, and with nothing else.
pub fn check_input_output_contain_same_cell(
    tx: &Transaction,
    input_index: usize,
    source: Source,
    check_lock: bool,
    check_data: bool,
) -> (res: Result<Vec<usize>, ShadowLockError>)
    ensures
        match res {
            Ok(found) => {
                &&& same_cell_fault(tx@.cells(source), input_index as int) is None
                &&& input_index < tx@.cells(source).len()
                &&& tx@.cells(source)[input_index as int].type_hash is Some
                &&& positions_view(found@) == same_cell_positions(
                    tx@.cells(source)[input_index as int],
                    tx@.outputs,
                    check_lock,
                    check_data,
                )
                &&& forall|q: int|
                    positions_view(found@).contains(q) <==> 0 <= q < tx@.outputs.len()
                        && is_same_cell(
                        tx@.cells(source)[input_index as int],
                        tx@.outputs[q],
                        check_lock,
                        check_data,
                    )
            },
            Err(err) => {
                &&& same_cell_fault(tx@.cells(source), input_index as int) == Some(err)
                &&& {
                    ||| input_index >= tx@.cells(source).len() && err
                        == ShadowLockError::IndexOutOfBound
                    ||| input_index < tx@.cells(source).len() && tx@.cells(
                        source,
                    )[input_index as int].type_hash is None && err == ShadowLockError::ItemMissing
                }
            },
        },
{
    let input_type_hash = match tx.type_hash(input_index, source) {
        Ok(Some(hash)) => Some(hash),
        Ok(None) => {
            return Err(ShadowLockError::from(SysError::ItemMissing));
        },
        Err(err) => {
            return Err(ShadowLockError::from(err));
        },
    };
    let lock_position = if check_lock {
        match tx.lock_hash(input_index, source) {
            Ok(hash) => find_cells_by_hash(&tx.outputs, LoadHashTarget::Lock, &Some(hash)),
            Err(err) => {
                return Err(ShadowLockError::from(err));
            },
        }
    } else {
        Vec::new()
    };
    let data_position = if check_data {
        match tx.data_hash(input_index, source) {
            Ok(hash) => find_cells_by_hash(&tx.outputs, LoadHashTarget::Data, &Some(hash)),
            Err(err) => {
                return Err(ShadowLockError::from(err));
            },
        }
    } else {
        Vec::new()
    };

    let ghost cell = tx@.cells(source)[input_index as int];
    let ghost same = carries_forward(cell, tx@.outputs, check_lock, check_data);
    let mut found_same_cell: Vec<usize> = Vec::new();
    let mut position: usize = 0;
    proof {
        lemma_positions_where_next(0, same);
        assert(positions_view(found_same_cell@) =~= Seq::<int>::empty());
    }
    while position < tx.outputs.len()
        invariant
            position <= tx.outputs.len(),
            same == carries_forward(cell, tx@.outputs, check_lock, check_data),
            option_hash_view(input_type_hash) == cell.type_hash,
            cell.type_hash is Some,
            check_lock ==> forall|q: int|
                positions_view(lock_position@).contains(q) <==> 0 <= q < tx.outputs.len()
                    && tx@.outputs[q].lock_hash == cell.lock_hash,
            check_data ==> forall|q: int|
                positions_view(data_position@).contains(q) <==> 0 <= q < tx.outputs.len()
                    && tx@.outputs[q].data_hash == cell.data_hash,
            positions_view(found_same_cell@) == positions_where(position as nat, same),
        decreases tx.outputs.len() - position,
    {
        let ghost before = found_same_cell@;
        proof {
            lemma_positions_where_next(position as nat, same);
            assert(tx@.outputs[position as int] == tx.outputs@[position as int]@);
        }
        if option_hash_eq(&tx.outputs[position].type_hash, &input_type_hash) {
            let lock_matches = !check_lock || contains_position(&lock_position, position);
            let data_matches = !check_data || contains_position(&data_position, position);
            if data_matches && lock_matches {
                found_same_cell.push(position);
                assert(positions_view(found_same_cell@) =~= positions_view(before).push(
                    position as int,
                ));
            }
        }
        position += 1;
    }
    proof {
        lemma_same_cell_positions(cell, tx@.outputs, check_lock, check_data);
    }
    Ok(found_same_cell)
}

/// Whether `cell` holds the data that a policy asks of its delegate: any
/// data where the policy names no hash.
pub open spec fn holds_delegate_data(delegate_data_hash: Option<Seq<u8>>, cell: CellView) -> bool {
    delegate_data_hash matches Some(hash) ==> cell.data_hash == hash
}

/// Checks that the cell at `index` of `source` holds the data that the policy
/// asks of its delegate.
///
/// Where the policy names no data hash the answer is `true` and the cell is
/// not read. Where it names one, the data hash of the cell is read and
/// compared; this fails with `IndexOutOfBound`, and with nothing else, where
/// `source` has no cell at `index`.
pub fn delegate_data_owner_check(
    tx: &Transaction,
    delegate_data_hash: Option<[u8; 32]>,
    index: usize,
    source: Source,
) -> (res: Result<bool, ShadowLockError>)
    ensures
        match res {
            Ok(holds) => {
                &&& delegate_data_hash is Some ==> index < tx@.cells(source).len()
                &&& delegate_data_hash is None ==> holds
                &&& index < tx@.cells(source).len() ==> holds == holds_delegate_data(
                    option_hash_view(delegate_data_hash),
                    tx@.cells(source)[index as int],
                )
            },
            Err(err) => delegate_data_hash is Some && index >= tx@.cells(source).len() && err
                == ShadowLockError::IndexOutOfBound,
        },
{
    match delegate_data_hash {
        Some(wanted) => match tx.data_hash(index, source) {
            Ok(cell_data_hash) => Ok(hash_eq(&cell_data_hash, &wanted)),
            Err(err) => Err(ShadowLockError::from(err)),
        },
        None => Ok(true),
    }
}

} // verus!
