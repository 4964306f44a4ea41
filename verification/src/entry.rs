//! The rules of the shadow lock and the verdict on a transaction.
//!
//! A transaction passes if one of its inputs is the delegate that the policy
//! names, and, as far as the policy switches them on, if no guarded cell is
//! traded away and none survives.

use crate::errors::ShadowLockError;
use crate::transaction::{hash_eq, option_hash_eq, CellView, Source, Transaction, TransactionView};
use crate::utils::{
    check_input_output_contain_same_cell, delegate_data_owner_check, holds_delegate_data,
    lemma_same_cell_positions, same_cell_fault, same_cell_positions, spec_unpack_script_args,
    unpack_script_args, ShadowlockArgsView, UnpackedShadowlockArgs,
};
use vstd::prelude::*;

verus! {

/// Whether `cell` is the delegate that `policy` names: the hash that the
/// policy goes by, its type hash or its lock hash, is the reference hash, and
/// it holds the data that the policy asks for, if it asks for any.
pub open spec fn is_delegate(policy: ShadowlockArgsView, cell: CellView) -> bool {
    &&& cell.hash(policy.flags.spec_delegate_target()) == Some(policy.ref_hash)
    &&& holds_delegate_data(policy.data_hash, cell)
}

/// Whether the delegate is among `inputs`, at any position.
pub open spec fn ownership_holds(policy: ShadowlockArgsView, inputs: Seq<CellView>) -> bool {
    exists|i: int| 0 <= i < inputs.len() && is_delegate(policy, inputs[i])
}

/// Whether a guarded cell may pass to the lock `lock_hash`: only to the
/// running lock itself or to the delegate.
pub open spec fn is_allowed_owner(lock_hash: Seq<u8>, script_hash: Seq<u8>, ref_hash: Seq<u8>)
    -> bool {
    lock_hash == script_hash || lock_hash == ref_hash
}

/// The first fault of a list, `None` where it holds none.
pub open spec fn first_fault(faults: Seq<Option<ShadowLockError>>) -> Option<ShadowLockError>
    decreases faults.len(),
{
    if faults.len() == 0 {
        None
    } else if faults.first() is Some {
        faults.first()
    } else {
        first_fault(faults.drop_first())
    }
}

/// The outcome of a rule that found `fault`.
pub open spec fn outcome(fault: Option<ShadowLockError>) -> Result<(), ShadowLockError> {
    match fault {
        Some(err) => Err(err),
        None => Ok(()),
    }
}

impl TransactionView {
    /// The outputs that carry the input at `position` forward under the same
    /// lock, whatever their data.
    pub open spec fn carried_forward(self, position: int) -> Seq<int> {
        same_cell_positions(self.inputs[position], self.outputs, true, false)
    }

    /// What the rule against trade finds at the input at `position`:
    /// `IndexOutOfBound` where there is no such input, `ItemMissing` where
    /// the input has no type hash, `ForbidTradeVerificationFailure` where an
    /// output that carries it forward has a lock other than the running one
    /// and the delegate.
    pub open spec fn trade_fault(self, policy: ShadowlockArgsView, position: int) -> Option<
        ShadowLockError,
    > {
        if same_cell_fault(self.inputs, position) is Some {
            same_cell_fault(self.inputs, position)
        } else if exists|q: int|
            self.carried_forward(position).contains(q) && !is_allowed_owner(
                self.outputs[q].lock_hash,
                self.script_hash,
                policy.ref_hash,
            ) {
            Some(ShadowLockError::ForbidTradeVerificationFailure)
        } else {
            None
        }
    }

    /// What the rule of self-destruction finds at the input at `position`:
    /// `IndexOutOfBound` where there is no such input, `ItemMissing` where
    /// the input has no type hash, `SelfDestructionVerificationFailure` where
    /// an output carries it forward.
    pub open spec fn destruction_fault(self, position: int) -> Option<ShadowLockError> {
        if same_cell_fault(self.inputs, position) is Some {
            same_cell_fault(self.inputs, position)
        } else if self.carried_forward(position).len() > 0 {
            Some(ShadowLockError::SelfDestructionVerificationFailure)
        } else {
            None
        }
    }

    /// What the rule against trade finds at each guarded cell, in the order
    /// of `group_inputs`.
    pub open spec fn trade_faults(self, policy: ShadowlockArgsView) -> Seq<Option<ShadowLockError>> {
        Seq::new(
            self.group_inputs.len(),
            |i: int| self.trade_fault(policy, self.group_inputs[i]),
        )
    }

    /// What the rule of self-destruction finds at each guarded cell, in the
    /// order of `group_inputs`.
    pub open spec fn destruction_faults(self) -> Seq<Option<ShadowLockError>> {
        Seq::new(self.group_inputs.len(), |i: int| self.destruction_fault(self.group_inputs[i]))
    }

    /// The outcome of the ownership rule.
    pub open spec fn ownership_verdict(self, policy: ShadowlockArgsView) -> Result<
        (),
        ShadowLockError,
    > {
        if ownership_holds(policy, self.inputs) {
            Ok(())
        } else {
            Err(ShadowLockError::OwnershipVerificationFailure)
        }
    }

    /// The verdict on the transaction under `policy`: the error of the first
    /// rule that fails, the rules taken in the order ownership, trade,
    /// self-destruction, the last two only if the policy switches them on.
    pub open spec fn policy_verdict(self, policy: ShadowlockArgsView) -> Result<
        (),
        ShadowLockError,
    > {
        if self.ownership_verdict(policy) is Err {
            self.ownership_verdict(policy)
        } else if policy.flags.forbid_trade && first_fault(self.trade_faults(policy)) is Some {
            outcome(first_fault(self.trade_faults(policy)))
        } else if policy.flags.self_destruction {
            outcome(first_fault(self.destruction_faults()))
        } else {
            Ok(())
        }
    }

    /// The verdict on the transaction under the policy that its arguments
    /// pack; `LengthNotEnough` where they pack none.
    pub open spec fn verdict(self) -> Result<(), ShadowLockError> {
        match spec_unpack_script_args(self.args) {
            Some(policy) => self.policy_verdict(policy),
            None => Err(ShadowLockError::LengthNotEnough),
        }
    }

    /// Whether every position in `group_inputs` is that of an input.
    pub open spec fn group_in_range(self) -> bool {
        forall|i: int|
            0 <= i < self.group_inputs.len() ==> 0 <= #[trigger] self.group_inputs[i]
                < self.inputs.len()
    }

    /// Whether every position in `group_inputs` is that of an input with a
    /// type hash.
    pub open spec fn group_is_typed(self) -> bool {
        forall|i: int|
            0 <= i < self.group_inputs.len() ==> {
                &&& 0 <= #[trigger] self.group_inputs[i] < self.inputs.len()
                &&& self.inputs[self.group_inputs[i]].type_hash is Some
            }
    }

    /// Whether no guarded cell is traded away: each is an input with a type
    /// hash, and every output that carries it forward has the running lock or
    /// that of the delegate.
    pub open spec fn keeps_from_trade(self, policy: ShadowlockArgsView) -> bool {
        forall|i: int|
            0 <= i < self.group_inputs.len() ==> {
                &&& 0 <= #[trigger] self.group_inputs[i] < self.inputs.len()
                &&& self.inputs[self.group_inputs[i]].type_hash is Some
                &&& forall|k: int|
                    0 <= k < self.carried_forward(self.group_inputs[i]).len()
                        ==> is_allowed_owner(
                        self.outputs[self.carried_forward(self.group_inputs[i])[k]].lock_hash,
                        self.script_hash,
                        policy.ref_hash,
                    )
            }
    }

    /// Whether every guarded cell is destroyed: each is an input with a type
    /// hash, and no output carries it forward.
    pub open spec fn destroys_group(self) -> bool {
        forall|i: int|
            0 <= i < self.group_inputs.len() ==> {
                &&& 0 <= #[trigger] self.group_inputs[i] < self.inputs.len()
                &&& self.inputs[self.group_inputs[i]].type_hash is Some
                &&& self.carried_forward(self.group_inputs[i]).len() == 0
            }
    }

    /// This transaction with other inputs.
    pub open spec fn with_inputs(self, inputs: Seq<CellView>) -> TransactionView {
        TransactionView { inputs, ..self }
    }
}

/// `first_fault` is the fault at the first position that holds one.
pub proof fn lemma_first_fault(faults: Seq<Option<ShadowLockError>>)
    ensures
        match first_fault(faults) {
            Some(err) => exists|i: int|
                0 <= i < faults.len() && faults[i] == Some(err) && forall|j: int|
                    0 <= j < i ==> faults[j] is None,
            None => forall|j: int| 0 <= j < faults.len() ==> faults[j] is None,
        },
    decreases faults.len(),
{
    if faults.len() > 0 {
        if faults.first() is Some {
            assert(faults[0] == faults.first());
        } else {
            let rest = faults.drop_first();
            lemma_first_fault(rest);
            match first_fault(rest) {
                Some(err) => {
                    let i = choose|i: int|
                        0 <= i < rest.len() && rest[i] == Some(err) && forall|j: int|
                            0 <= j < i ==> rest[j] is None;
                    assert(faults[i + 1] == rest[i]);
                    assert forall|j: int| 0 <= j < i + 1 implies faults[j] is None by {
                        if j > 0 {
                            assert(faults[j] == rest[j - 1]);
                        }
                    }
                },
                None => {
                    assert forall|j: int| 0 <= j < faults.len() implies faults[j] is None by {
                        if j > 0 {
                            assert(faults[j] == rest[j - 1]);
                        }
                    }
                },
            }
        }
    }
}

/// A fault with none before it is the first fault.
pub proof fn lemma_first_fault_at(faults: Seq<Option<ShadowLockError>>, i: int)
    requires
        0 <= i < faults.len(),
        faults[i] is Some,
        forall|j: int| 0 <= j < i ==> faults[j] is None,
    ensures
        first_fault(faults) == faults[i],
{
    lemma_first_fault(faults);
    match first_fault(faults) {
        Some(err) => {
            let k = choose|k: int|
                0 <= k < faults.len() && faults[k] == Some(err) && forall|j: int|
                    0 <= j < k ==> faults[j] is None;
            assert(k == i);
        },
        None => {},
    }
}

/// A list without fault has no first fault.
pub proof fn lemma_first_fault_none(faults: Seq<Option<ShadowLockError>>)
    requires
        forall|j: int| 0 <= j < faults.len() ==> faults[j] is None,
    ensures
        first_fault(faults) is None,
{
    lemma_first_fault(faults);
}

/// The rule against trade finds no fault exactly if no guarded cell is traded
/// away.
pub proof fn lemma_trade_faults(tx: TransactionView, policy: ShadowlockArgsView)
    ensures
        first_fault(tx.trade_faults(policy)) is None <==> tx.keeps_from_trade(policy),
        first_fault(tx.trade_faults(policy)) matches Some(err) ==> err
            == ShadowLockError::IndexOutOfBound || err == ShadowLockError::ItemMissing || err
            == ShadowLockError::ForbidTradeVerificationFailure,
        tx.group_in_range() ==> first_fault(tx.trade_faults(policy)) != Some(
            ShadowLockError::IndexOutOfBound,
        ),
        tx.group_is_typed() ==> first_fault(tx.trade_faults(policy)) != Some(
            ShadowLockError::ItemMissing,
        ),
{
    let faults = tx.trade_faults(policy);
    lemma_first_fault(faults);
    if first_fault(faults) is None {
        assert forall|i: int| 0 <= i < tx.group_inputs.len() implies {
            &&& 0 <= #[trigger] tx.group_inputs[i] < tx.inputs.len()
            &&& tx.inputs[tx.group_inputs[i]].type_hash is Some
            &&& forall|k: int|
                0 <= k < tx.carried_forward(tx.group_inputs[i]).len() ==> is_allowed_owner(
                    tx.outputs[tx.carried_forward(tx.group_inputs[i])[k]].lock_hash,
                    tx.script_hash,
                    policy.ref_hash,
                )
        } by {
            let carried = tx.carried_forward(tx.group_inputs[i]);
            assert(faults[i] is None);
            assert forall|k: int| 0 <= k < carried.len() implies is_allowed_owner(
                tx.outputs[carried[k]].lock_hash,
                tx.script_hash,
                policy.ref_hash,
            ) by {
                assert(carried.contains(carried[k]));
            }
        }
    }
    if tx.keeps_from_trade(policy) {
        assert forall|i: int| 0 <= i < faults.len() implies faults[i] is None by {
            let position = tx.group_inputs[i];
            let carried = tx.carried_forward(position);
            assert(0 <= position < tx.inputs.len());
            assert(tx.inputs[position].type_hash is Some);
            if exists|q: int|
                carried.contains(q) && !is_allowed_owner(
                    tx.outputs[q].lock_hash,
                    tx.script_hash,
                    policy.ref_hash,
                ) {
                let q = choose|q: int|
                    carried.contains(q) && !is_allowed_owner(
                        tx.outputs[q].lock_hash,
                        tx.script_hash,
                        policy.ref_hash,
                    );
                let k = choose|k: int| 0 <= k < carried.len() && carried[k] == q;
                assert(is_allowed_owner(
                    tx.outputs[carried[k]].lock_hash,
                    tx.script_hash,
                    policy.ref_hash,
                ));
            }
        }
    }
}

/// Under its own lock or that of the delegate a guarded cell may stay: the
/// rule against trade reads the lock of the outputs that carry the cell
/// forward, and that is the lock of the cell.
pub proof fn lemma_trade_fault_by_lock(
    tx: TransactionView,
    policy: ShadowlockArgsView,
    position: int,
)
    requires
        0 <= position < tx.inputs.len(),
        tx.inputs[position].type_hash is Some,
    ensures
        forall|q: int|
            tx.carried_forward(position).contains(q) ==> tx.outputs[q].lock_hash
                == tx.inputs[position].lock_hash && tx.outputs[q].type_hash
                == tx.inputs[position].type_hash,
        is_allowed_owner(tx.inputs[position].lock_hash, tx.script_hash, policy.ref_hash)
            ==> tx.trade_fault(policy, position) is None,
        tx.trade_fault(policy, position) is Some <==> tx.carried_forward(position).len() > 0
            && !is_allowed_owner(tx.inputs[position].lock_hash, tx.script_hash, policy.ref_hash),
{
    let carried = tx.carried_forward(position);
    lemma_same_cell_positions(tx.inputs[position], tx.outputs, true, false);
    if carried.len() > 0 {
        assert(carried.contains(carried[0]));
    }
}

/// The rule of self-destruction finds no fault exactly if every guarded cell
/// is destroyed.
pub proof fn lemma_destruction_faults(tx: TransactionView)
    ensures
        first_fault(tx.destruction_faults()) is None <==> tx.destroys_group(),
        first_fault(tx.destruction_faults()) matches Some(err) ==> err
            == ShadowLockError::IndexOutOfBound || err == ShadowLockError::ItemMissing || err
            == ShadowLockError::SelfDestructionVerificationFailure,
        tx.group_in_range() ==> first_fault(tx.destruction_faults()) != Some(
            ShadowLockError::IndexOutOfBound,
        ),
        tx.group_is_typed() ==> first_fault(tx.destruction_faults()) != Some(
            ShadowLockError::ItemMissing,
        ),
{
    let faults = tx.destruction_faults();
    lemma_first_fault(faults);
    if first_fault(faults) is None {
        assert forall|i: int| 0 <= i < tx.group_inputs.len() implies {
            &&& 0 <= #[trigger] tx.group_inputs[i] < tx.inputs.len()
            &&& tx.inputs[tx.group_inputs[i]].type_hash is Some
            &&& tx.carried_forward(tx.group_inputs[i]).len() == 0
        } by {
            assert(faults[i] is None);
        }
    }
    if tx.destroys_group() {
        assert forall|i: int| 0 <= i < faults.len() implies faults[i] is None by {
            assert(0 <= tx.group_inputs[i] < tx.inputs.len());
            assert(tx.inputs[tx.group_inputs[i]].type_hash is Some);
        }
    }
}

/// A transaction passes under a policy exactly if the delegate is among its
/// inputs, and, where the policy forbids trade, no guarded cell is traded
/// away, and, where it demands self-destruction, every guarded cell is
/// destroyed. The order in which the rules are taken decides which error a
/// failing transaction gets, never whether it passes.
pub proof fn lemma_policy_verdict_ok(tx: TransactionView, policy: ShadowlockArgsView)
    ensures
        tx.policy_verdict(policy) is Ok <==> {
            &&& ownership_holds(policy, tx.inputs)
            &&& policy.flags.forbid_trade ==> tx.keeps_from_trade(policy)
            &&& policy.flags.self_destruction ==> tx.destroys_group()
        },
{
    lemma_trade_faults(tx, policy);
    lemma_destruction_faults(tx);
}

/// On a transaction that passes, self-destruction, where the policy demands
/// it, has left no output that carries a guarded cell forward; and where the
/// policy forbids trade, every output that carries a guarded cell forward has
/// the running lock or that of the delegate. Under either rule every guarded
/// cell is an input with a type hash.
pub proof fn lemma_accepted_transaction(tx: TransactionView)
    requires
        tx.verdict() is Ok,
    ensures
        spec_unpack_script_args(tx.args) is Some,
        ownership_holds(spec_unpack_script_args(tx.args)->Some_0, tx.inputs),
        spec_unpack_script_args(tx.args)->Some_0.flags.self_destruction
            || spec_unpack_script_args(tx.args)->Some_0.flags.forbid_trade
            ==> tx.group_is_typed(),
        spec_unpack_script_args(tx.args)->Some_0.flags.self_destruction ==> forall|i: int|
            0 <= i < tx.group_inputs.len() ==> (#[trigger] tx.carried_forward(
                tx.group_inputs[i],
            )).len() == 0,
        spec_unpack_script_args(tx.args)->Some_0.flags.forbid_trade ==> forall|i: int, k: int|
            0 <= i < tx.group_inputs.len() && 0 <= k < tx.carried_forward(
                tx.group_inputs[i],
            ).len() ==> is_allowed_owner(
                tx.outputs[#[trigger] tx.carried_forward(tx.group_inputs[i])[k]].lock_hash,
                tx.script_hash,
                spec_unpack_script_args(tx.args)->Some_0.ref_hash,
            ),
{
    let policy = spec_unpack_script_args(tx.args)->Some_0;
    lemma_policy_verdict_ok(tx, policy);
    if policy.flags.self_destruction {
        assert forall|i: int| 0 <= i < tx.group_inputs.len() implies (#[trigger] tx.carried_forward(
            tx.group_inputs[i],
        )).len() == 0 by {
            assert(0 <= tx.group_inputs[i] < tx.inputs.len());
        }
    }
    if policy.flags.forbid_trade {
        assert forall|i: int, k: int|
            0 <= i < tx.group_inputs.len() && 0 <= k < tx.carried_forward(
                tx.group_inputs[i],
            ).len() implies is_allowed_owner(
            tx.outputs[#[trigger] tx.carried_forward(tx.group_inputs[i])[k]].lock_hash,
            tx.script_hash,
            policy.ref_hash,
        ) by {
            assert(0 <= tx.group_inputs[i] < tx.inputs.len());
        }
    }
}

/// A transaction is turned down with `LengthNotEnough` if and only if its
/// arguments pack no policy. Any other refusal names a rule, or is
/// `IndexOutOfBound`, which takes a position in `group_inputs` that is not
/// that of an input, or `ItemMissing`, which takes a guarded cell without
/// type hash.
pub proof fn lemma_verdict_errors(tx: TransactionView)
    ensures
        tx.verdict() == Err::<(), ShadowLockError>(ShadowLockError::LengthNotEnough)
            <==> spec_unpack_script_args(tx.args) is None,
        tx.verdict() matches Err(err) ==> err == ShadowLockError::LengthNotEnough || err
            == ShadowLockError::IndexOutOfBound || err == ShadowLockError::ItemMissing
            || err.is_rule_violation(),
        tx.group_in_range() ==> tx.verdict() != Err::<(), ShadowLockError>(
            ShadowLockError::IndexOutOfBound,
        ),
        tx.group_is_typed() ==> tx.verdict() != Err::<(), ShadowLockError>(
            ShadowLockError::ItemMissing,
        ),
{
    if spec_unpack_script_args(tx.args) is Some {
        lemma_trade_faults(tx, spec_unpack_script_args(tx.args)->Some_0);
        lemma_destruction_faults(tx);
    }
}

/// Ownership holds once the delegate is added to the inputs, wherever it is
/// put and whatever the inputs were.
pub proof fn lemma_ownership_gained(
    tx: TransactionView,
    policy: ShadowlockArgsView,
    at: int,
    cell: CellView,
)
    requires
        0 <= at <= tx.inputs.len(),
        is_delegate(policy, cell),
    ensures
        ownership_holds(policy, tx.inputs.insert(at, cell)),
        tx.with_inputs(tx.inputs.insert(at, cell)).ownership_verdict(policy) is Ok,
{
    assert(tx.inputs.insert(at, cell)[at] == cell);
}

/// Ownership holds with the delegate among the inputs, and fails once the
/// only delegate is taken out.
pub proof fn lemma_ownership_lost(tx: TransactionView, policy: ShadowlockArgsView, at: int)
    requires
        0 <= at < tx.inputs.len(),
        is_delegate(policy, tx.inputs[at]),
        forall|j: int| 0 <= j < tx.inputs.len() && j != at ==> !is_delegate(policy, tx.inputs[j]),
    ensures
        ownership_holds(policy, tx.inputs),
        tx.ownership_verdict(policy) is Ok,
        !ownership_holds(policy, tx.inputs.remove(at)),
        tx.with_inputs(tx.inputs.remove(at)).ownership_verdict(policy) == Err::<
            (),
            ShadowLockError,
        >(ShadowLockError::OwnershipVerificationFailure),
{
    let rest = tx.inputs.remove(at);
    assert forall|j: int| 0 <= j < rest.len() implies !is_delegate(policy, rest[j]) by {
        if j < at {
            assert(rest[j] == tx.inputs[j]);
        } else {
            assert(rest[j] == tx.inputs[j + 1]);
        }
    }
}

/// The ownership rule: one of the inputs, guarded or not, must be the
/// delegate. It holds whatever the flags.
///
/// Every input is read. An input counts if the hash that the policy goes by
/// is the reference hash and, where the policy names a data hash, its data
/// hash is that hash.
pub fn verify_ownership(tx: &Transaction, policy: &UnpackedShadowlockArgs) -> (res: Result<
    (),
    ShadowLockError,
>)
    ensures
        res == tx@.ownership_verdict(policy@),
        res is Ok <==> ownership_holds(policy@, tx@.inputs),
        res is Err ==> res == Err::<(), ShadowLockError>(
            ShadowLockError::OwnershipVerificationFailure,
        ),
{
    let target = policy.flags.get_delegate_target();
    let wanted = Some(policy.ref_hash);
    let mut index: usize = 0;
    while index < tx.inputs.len()
        invariant
            index <= tx.inputs.len(),
            target == policy@.flags.spec_delegate_target(),
            wanted == Some(policy.ref_hash),
            forall|i: int| 0 <= i < index ==> !is_delegate(policy@, tx@.inputs[i]),
        decreases tx.inputs.len() - index,
    {
        assert(tx@.inputs[index as int] == tx.inputs@[index as int]@);
        let cell_hash = tx.inputs[index].hash(target);
        if option_hash_eq(&cell_hash, &wanted) {
            match delegate_data_owner_check(tx, policy.data_hash, index, Source::Input) {
                Ok(holds) => {
                    if holds {
                        assert(is_delegate(policy@, tx@.inputs[index as int]));
                        return Ok(());
                    }
                },
                Err(err) => {
                    return Err(err);
                },
            }
        }
        index += 1;
    }
    Err(ShadowLockError::OwnershipVerificationFailure)
}

/// The rule against trade: an output that carries a guarded cell forward
/// under its lock must have the running lock or that of the delegate.
///
/// The guarded cells are taken in the order of `group_inputs`; the first
/// fault ends the check. A position in `group_inputs` at which the
/// transaction has no input is the fault `IndexOutOfBound`, a guarded cell
/// without type hash the fault `ItemMissing`.
pub fn verify_forbid_trade(tx: &Transaction, policy: &UnpackedShadowlockArgs) -> (res: Result<
    (),
    ShadowLockError,
>)
    ensures
        res == outcome(first_fault(tx@.trade_faults(policy@))),
{
    let ghost faults = tx@.trade_faults(policy@);
    let mut i: usize = 0;
    while i < tx.group_inputs.len()
        invariant
            i <= tx.group_inputs.len(),
            faults == tx@.trade_faults(policy@),
            forall|j: int| 0 <= j < i ==> faults[j] is None,
        decreases tx.group_inputs.len() - i,
    {
        let input_index = tx.group_inputs[i];
        assert(tx@.group_inputs[i as int] == input_index as int);
        let output_pos = match check_input_output_contain_same_cell(
            tx,
            input_index,
            Source::Input,
            true,
            false,
        ) {
            Ok(found) => found,
            Err(err) => {
                proof {
                    lemma_first_fault_at(faults, i as int);
                }
                return Err(err);
            },
        };
        let ghost carried = tx@.carried_forward(input_index as int);
        let mut k: usize = 0;
        while k < output_pos.len()
            invariant
                k <= output_pos.len(),
                i < tx.group_inputs.len(),
                input_index == tx.group_inputs[i as int],
                input_index < tx.inputs.len(),
                tx@.group_inputs[i as int] == input_index as int,
                faults == tx@.trade_faults(policy@),
                forall|j: int| 0 <= j < i ==> faults[j] is None,
                carried == tx@.carried_forward(input_index as int),
                crate::transaction::positions_view(output_pos@) == carried,
                forall|q: int| carried.contains(q) ==> 0 <= q < tx.outputs.len(),
                forall|n: int|
                    0 <= n < k ==> is_allowed_owner(
                        tx@.outputs[carried[n]].lock_hash,
                        tx@.script_hash,
                        policy@.ref_hash,
                    ),
            decreases output_pos.len() - k,
        {
            let index = output_pos[k];
            assert(carried[k as int] == index as int);
            assert(carried.contains(index as int));
            assert(tx@.outputs[index as int] == tx.outputs@[index as int]@);
            let output_lock_hash = match tx.lock_hash(index, Source::Output) {
                Ok(hash) => hash,
                Err(err) => {
                    return Err(ShadowLockError::from(err));
                },
            };
            if !hash_eq(&output_lock_hash, &tx.script_hash) && !hash_eq(
                &output_lock_hash,
                &policy.ref_hash,
            ) {
                proof {
                    assert(faults[i as int] == Some(
                        ShadowLockError::ForbidTradeVerificationFailure,
                    ));
                    lemma_first_fault_at(faults, i as int);
                }
                return Err(ShadowLockError::ForbidTradeVerificationFailure);
            }
            k += 1;
        }
        proof {
            assert forall|q: int| carried.contains(q) implies is_allowed_owner(
                tx@.outputs[q].lock_hash,
                tx@.script_hash,
                policy@.ref_hash,
            ) by {
                let n = choose|n: int| 0 <= n < carried.len() && carried[n] == q;
            }
            assert(faults[i as int] is None);
        }
        i += 1;
    }
    proof {
        lemma_first_fault_none(faults);
    }
    Ok(())
}

/// The rule of self-destruction: no output may carry a guarded cell forward
/// under its lock.
///
/// The guarded cells are taken in the order of `group_inputs`; the first
/// fault ends the check. A position in `group_inputs` at which the
/// transaction has no input is the fault `IndexOutOfBound`, a guarded cell
/// without type hash the fault `ItemMissing`.
pub fn verify_self_destruction(tx: &Transaction) -> (res: Result<(), ShadowLockError>)
    ensures
        res == outcome(first_fault(tx@.destruction_faults())),
{
    let ghost faults = tx@.destruction_faults();
    let mut i: usize = 0;
    while i < tx.group_inputs.len()
        invariant
            i <= tx.group_inputs.len(),
            faults == tx@.destruction_faults(),
            forall|j: int| 0 <= j < i ==> faults[j] is None,
        decreases tx.group_inputs.len() - i,
    {
        let input_index = tx.group_inputs[i];
        assert(tx@.group_inputs[i as int] == input_index as int);
        match check_input_output_contain_same_cell(tx, input_index, Source::Input, true, false) {
            Ok(found) => {
                if found.len() > 0 {
                    proof {
                        lemma_first_fault_at(faults, i as int);
                    }
                    return Err(ShadowLockError::SelfDestructionVerificationFailure);
                }
            },
            Err(err) => {
                proof {
                    lemma_first_fault_at(faults, i as int);
                }
                return Err(err);
            },
        }
        i += 1;
    }
    proof {
        lemma_first_fault_none(faults);
    }
    Ok(())
}

/// Judges the transaction under `policy`: the ownership rule first, then the
/// rule against trade and the rule of self-destruction as far as the flags
/// switch them on. The first rule that fails gives the error; the
/// transaction passes if none does.
pub fn verify_policy(tx: &Transaction, policy: &UnpackedShadowlockArgs) -> (res: Result<
    (),
    ShadowLockError,
>)
    ensures
        res == tx@.policy_verdict(policy@),
{
    match verify_ownership(tx, policy) {
        Ok(()) => {},
        Err(err) => {
            return Err(err);
        },
    }
    if policy.flags.forbid_trade {
        match verify_forbid_trade(tx, policy) {
            Ok(()) => {},
            Err(err) => {
                return Err(err);
            },
        }
    }
    if policy.flags.self_destruction {
        return verify_self_destruction(tx);
    }
    Ok(())
}

/// Judges the transaction that a shadow lock runs in: unpacks the policy
/// from the arguments of the script and applies its rules.
///
/// `Ok` says that the transaction may unlock the guarded cells. The error is
/// `LengthNotEnough` where the arguments hold no policy, else that of
/// `verify_policy`.
pub fn verify(tx: &Transaction) -> (res: Result<(), ShadowLockError>)
    ensures
        res == tx@.verdict(),
{
    match unpack_script_args(tx.args.as_slice()) {
        Ok(policy) => verify_policy(tx, &policy),
        Err(err) => Err(err),
    }
}

} // verus!
