use ckb_std::error::SysError;
use shadow_lock::errors::ShadowLockError;
use shadow_lock::transaction::{hash_eq, option_hash_eq, Cell, Source, Transaction};
use shadow_lock::utils::{
    check_input_output_contain_same_cell, contains_position, delegate_data_owner_check,
    find_cells_by_hash, LoadHashTarget,
};

fn cell(lock: u8, type_: Option<u8>, data: u8) -> Cell {
    Cell {
        lock_hash: [lock; 32],
        type_hash: type_.map(|byte| [byte; 32]),
        data_hash: [data; 32],
    }
}

fn transaction(inputs: Vec<Cell>, outputs: Vec<Cell>) -> Transaction {
    Transaction {
        script_hash: [0xaa; 32],
        args: vec![0u8; 33],
        group_inputs: vec![],
        inputs,
        outputs,
    }
}

#[test]
fn hashes_compare_byte_by_byte() {
    let a = [7u8; 32];
    let mut b = [7u8; 32];
    assert!(hash_eq(&a, &b));
    b[31] = 8;
    assert!(!hash_eq(&a, &b));
    b[31] = 7;
    b[0] = 6;
    assert!(!hash_eq(&a, &b));
    for i in 0..32 {
        let mut c = a;
        c[i] ^= 0x80;
        assert!(!hash_eq(&a, &c));
        assert!(hash_eq(&c, &c));
    }
}

#[test]
fn optional_hashes_compare_presence_and_bytes() {
    assert!(option_hash_eq(&None, &None));
    assert!(option_hash_eq(&Some([1; 32]), &Some([1; 32])));
    assert!(!option_hash_eq(&Some([1; 32]), &Some([2; 32])));
    assert!(!option_hash_eq(&Some([0; 32]), &None));
    assert!(!option_hash_eq(&None, &Some([0; 32])));
}

#[test]
fn cell_hash_picks_the_named_hash() {
    let typed = cell(1, Some(2), 3);
    assert_eq!(typed.hash(LoadHashTarget::Lock), Some([1; 32]));
    assert_eq!(typed.hash(LoadHashTarget::Type), Some([2; 32]));
    assert_eq!(typed.hash(LoadHashTarget::Data), Some([3; 32]));
    let untyped = cell(1, None, 3);
    assert_eq!(untyped.hash(LoadHashTarget::Type), None);
    assert_eq!(untyped.hash(LoadHashTarget::Lock), Some([1; 32]));
}

#[test]
fn readers_return_the_hashes_of_the_cell() {
    let tx = transaction(
        vec![cell(1, Some(2), 3), cell(4, None, 6)],
        vec![cell(7, Some(8), 9)],
    );
    assert_eq!(tx.lock_hash(0, Source::Input), Ok([1; 32]));
    assert_eq!(tx.type_hash(0, Source::Input), Ok(Some([2; 32])));
    assert_eq!(tx.data_hash(0, Source::Input), Ok([3; 32]));
    assert_eq!(tx.lock_hash(1, Source::Input), Ok([4; 32]));
    assert_eq!(tx.type_hash(1, Source::Input), Ok(None));
    assert_eq!(tx.data_hash(1, Source::Input), Ok([6; 32]));
    assert_eq!(tx.lock_hash(0, Source::Output), Ok([7; 32]));
    assert_eq!(tx.type_hash(0, Source::Output), Ok(Some([8; 32])));
    assert_eq!(tx.data_hash(0, Source::Output), Ok([9; 32]));
    assert_eq!(tx.cell(1, Source::Input), Ok(cell(4, None, 6)));
    assert_eq!(tx.cells(Source::Input).len(), 2);
    assert_eq!(tx.cells(Source::Output).len(), 1);
}

#[test]
fn readers_refuse_positions_past_the_end() {
    let tx = transaction(vec![cell(1, Some(2), 3), cell(4, None, 6)], vec![cell(7, Some(8), 9)]);
    assert_eq!(tx.lock_hash(2, Source::Input), Err(SysError::IndexOutOfBound));
    assert_eq!(tx.type_hash(2, Source::Input), Err(SysError::IndexOutOfBound));
    assert_eq!(tx.data_hash(2, Source::Input), Err(SysError::IndexOutOfBound));
    assert_eq!(tx.cell(2, Source::Input), Err(SysError::IndexOutOfBound));
    assert_eq!(tx.lock_hash(1, Source::Output), Err(SysError::IndexOutOfBound));
    assert_eq!(tx.type_hash(1, Source::Output), Err(SysError::IndexOutOfBound));
    assert_eq!(tx.data_hash(usize::MAX, Source::Output), Err(SysError::IndexOutOfBound));
    let empty = transaction(vec![], vec![]);
    assert_eq!(empty.lock_hash(0, Source::Input), Err(SysError::IndexOutOfBound));
    assert_eq!(empty.lock_hash(0, Source::Output), Err(SysError::IndexOutOfBound));
}

#[test]
fn find_cells_by_hash_lists_all_positions_in_order() {
    let cells = vec![
        cell(1, Some(5), 9),
        cell(2, None, 9),
        cell(1, Some(6), 8),
        cell(3, Some(5), 9),
        cell(1, None, 7),
    ];
    assert_eq!(find_cells_by_hash(&cells, LoadHashTarget::Lock, &Some([1; 32])), vec![0, 2, 4]);
    assert_eq!(find_cells_by_hash(&cells, LoadHashTarget::Lock, &Some([2; 32])), vec![1]);
    assert_eq!(find_cells_by_hash(&cells, LoadHashTarget::Lock, &Some([9; 32])), Vec::<usize>::new());
    assert_eq!(find_cells_by_hash(&cells, LoadHashTarget::Type, &Some([5; 32])), vec![0, 3]);
    assert_eq!(find_cells_by_hash(&cells, LoadHashTarget::Type, &None), vec![1, 4]);
    assert_eq!(find_cells_by_hash(&cells, LoadHashTarget::Data, &Some([9; 32])), vec![0, 1, 3]);
    assert_eq!(find_cells_by_hash(&cells, LoadHashTarget::Data, &None), Vec::<usize>::new());
    assert_eq!(find_cells_by_hash(&cells, LoadHashTarget::Lock, &None), Vec::<usize>::new());
    assert_eq!(
        find_cells_by_hash(&Vec::new(), LoadHashTarget::Lock, &Some([1; 32])),
        Vec::<usize>::new()
    );
}

#[test]
fn contains_position_finds_members_only() {
    let positions = vec![0usize, 3, 7];
    assert!(contains_position(&positions, 0));
    assert!(contains_position(&positions, 3));
    assert!(contains_position(&positions, 7));
    assert!(!contains_position(&positions, 1));
    assert!(!contains_position(&positions, 8));
    assert!(!contains_position(&Vec::new(), 0));
}

#[test]
fn same_cell_needs_the_type_hash() {
    let tx = transaction(
        vec![cell(1, Some(5), 9)],
        vec![cell(1, Some(6), 9), cell(1, None, 9), cell(2, Some(5), 8)],
    );
    assert_eq!(
        check_input_output_contain_same_cell(&tx, 0, Source::Input, false, false),
        Ok(vec![2])
    );
}

#[test]
fn same_cell_with_lock_needs_the_lock_hash_too() {
    let tx = transaction(
        vec![cell(1, Some(5), 9)],
        vec![cell(2, Some(5), 9), cell(1, Some(5), 8), cell(1, Some(6), 9), cell(1, Some(5), 9)],
    );
    assert_eq!(
        check_input_output_contain_same_cell(&tx, 0, Source::Input, false, false),
        Ok(vec![0, 1, 3])
    );
    assert_eq!(
        check_input_output_contain_same_cell(&tx, 0, Source::Input, true, false),
        Ok(vec![1, 3])
    );
}

#[test]
fn same_cell_with_data_needs_the_data_hash_too() {
    let tx = transaction(
        vec![cell(1, Some(5), 9)],
        vec![cell(2, Some(5), 9), cell(1, Some(5), 8), cell(1, Some(6), 9), cell(1, Some(5), 9)],
    );
    assert_eq!(
        check_input_output_contain_same_cell(&tx, 0, Source::Input, false, true),
        Ok(vec![0, 3])
    );
    assert_eq!(
        check_input_output_contain_same_cell(&tx, 0, Source::Input, true, true),
        Ok(vec![3])
    );
}

#[test]
fn same_cell_reports_every_piece_of_a_split() {
    let tx = transaction(
        vec![cell(1, Some(5), 9)],
        vec![
            cell(1, Some(5), 1),
            cell(1, Some(5), 2),
            cell(3, None, 0),
            cell(1, Some(5), 3),
            cell(1, Some(5), 4),
        ],
    );
    assert_eq!(
        check_input_output_contain_same_cell(&tx, 0, Source::Input, true, false),
        Ok(vec![0, 1, 3, 4])
    );
}

#[test]
fn same_cell_without_match_is_empty_and_no_error() {
    let tx = transaction(vec![cell(1, Some(5), 9)], vec![cell(1, Some(6), 9), cell(1, None, 9)]);
    for check_lock in [false, true] {
        for check_data in [false, true] {
            assert_eq!(
                check_input_output_contain_same_cell(&tx, 0, Source::Input, check_lock, check_data),
                Ok(vec![])
            );
        }
    }
    let no_outputs = transaction(vec![cell(1, Some(5), 9)], vec![]);
    assert_eq!(
        check_input_output_contain_same_cell(&no_outputs, 0, Source::Input, true, true),
        Ok(vec![])
    );
}

#[test]
fn same_cell_of_an_untyped_cell_is_refused() {
    let tx = transaction(
        vec![cell(1, None, 9), cell(1, Some(5), 9)],
        vec![cell(1, None, 9), cell(1, Some(0), 9), cell(2, None, 9), cell(1, None, 8)],
    );
    for check_lock in [false, true] {
        for check_data in [false, true] {
            assert_eq!(
                check_input_output_contain_same_cell(&tx, 0, Source::Input, check_lock, check_data),
                Err(ShadowLockError::ItemMissing)
            );
            assert_eq!(
                check_input_output_contain_same_cell(&tx, 0, Source::Output, check_lock, check_data),
                Err(ShadowLockError::ItemMissing)
            );
            assert_eq!(
                check_input_output_contain_same_cell(&tx, 1, Source::Output, check_lock, check_data),
                Ok(vec![1])
            );
        }
    }
    assert_eq!(tx.type_hash(0, Source::Input), Ok(None));
    let no_outputs = transaction(vec![cell(1, None, 9)], vec![]);
    assert_eq!(
        check_input_output_contain_same_cell(&no_outputs, 0, Source::Input, false, false),
        Err(ShadowLockError::ItemMissing)
    );
}

#[test]
fn same_cell_never_lists_an_untyped_output() {
    let tx = transaction(
        vec![cell(1, Some(5), 9)],
        vec![cell(1, None, 9), cell(1, Some(5), 9), cell(1, None, 9)],
    );
    for check_lock in [false, true] {
        for check_data in [false, true] {
            assert_eq!(
                check_input_output_contain_same_cell(&tx, 0, Source::Input, check_lock, check_data),
                Ok(vec![1])
            );
        }
    }
}

#[test]
fn position_past_the_end_comes_before_missing_type_hash() {
    let tx = transaction(vec![cell(1, None, 9)], vec![]);
    assert_eq!(
        check_input_output_contain_same_cell(&tx, 1, Source::Input, true, true),
        Err(ShadowLockError::IndexOutOfBound)
    );
    assert_eq!(
        check_input_output_contain_same_cell(&tx, 0, Source::Input, true, true),
        Err(ShadowLockError::ItemMissing)
    );
}

#[test]
fn same_cell_reads_the_cell_from_the_named_side() {
    let tx = transaction(
        vec![cell(1, Some(5), 9), cell(2, Some(6), 9)],
        vec![cell(2, Some(6), 9), cell(1, Some(5), 9), cell(2, Some(6), 1)],
    );
    assert_eq!(
        check_input_output_contain_same_cell(&tx, 1, Source::Input, true, false),
        Ok(vec![0, 2])
    );
    assert_eq!(
        check_input_output_contain_same_cell(&tx, 1, Source::Output, true, false),
        Ok(vec![1])
    );
    assert_eq!(
        check_input_output_contain_same_cell(&tx, 2, Source::Output, true, true),
        Ok(vec![2])
    );
}

#[test]
fn same_cell_refuses_a_position_past_the_end() {
    let tx = transaction(vec![cell(1, Some(5), 9)], vec![cell(1, Some(5), 9), cell(1, Some(5), 9)]);
    for check_lock in [false, true] {
        for check_data in [false, true] {
            assert_eq!(
                check_input_output_contain_same_cell(&tx, 1, Source::Input, check_lock, check_data),
                Err(ShadowLockError::IndexOutOfBound)
            );
            assert_eq!(
                check_input_output_contain_same_cell(&tx, 2, Source::Output, check_lock, check_data),
                Err(ShadowLockError::IndexOutOfBound)
            );
        }
    }
}

#[test]
fn same_cell_agrees_with_the_rule_on_every_output() {
    let locks = [1u8, 2];
    let types = [None, Some(5u8), Some(6)];
    let datas = [8u8, 9];
    let mut outputs = Vec::new();
    for lock in locks {
        for type_ in types {
            for data in datas {
                outputs.push(cell(lock, type_, data));
            }
        }
    }
    for input in outputs.clone() {
        let tx = transaction(vec![input], outputs.clone());
        for check_lock in [false, true] {
            for check_data in [false, true] {
                let result =
                    check_input_output_contain_same_cell(&tx, 0, Source::Input, check_lock, check_data);
                if input.type_hash.is_none() {
                    assert_eq!(result, Err(ShadowLockError::ItemMissing));
                    continue;
                }
                let found = result.unwrap();
                for (position, output) in outputs.iter().enumerate() {
                    let same = output.type_hash == input.type_hash
                        && (!check_lock || output.lock_hash == input.lock_hash)
                        && (!check_data || output.data_hash == input.data_hash);
                    assert_eq!(found.contains(&position), same);
                }
                for pair in found.windows(2) {
                    assert!(pair[0] < pair[1]);
                }
            }
        }
    }
}

#[test]
fn data_check_without_hash_is_true_and_reads_nothing() {
    let tx = transaction(vec![cell(1, Some(5), 9)], vec![]);
    assert_eq!(delegate_data_owner_check(&tx, None, 0, Source::Input), Ok(true));
    assert_eq!(delegate_data_owner_check(&tx, None, 5, Source::Input), Ok(true));
    assert_eq!(delegate_data_owner_check(&tx, None, 0, Source::Output), Ok(true));
}

#[test]
fn data_check_compares_the_data_hash() {
    let tx = transaction(vec![cell(1, Some(5), 9), cell(1, Some(5), 8)], vec![cell(2, None, 7)]);
    assert_eq!(delegate_data_owner_check(&tx, Some([9; 32]), 0, Source::Input), Ok(true));
    assert_eq!(delegate_data_owner_check(&tx, Some([9; 32]), 1, Source::Input), Ok(false));
    assert_eq!(delegate_data_owner_check(&tx, Some([8; 32]), 1, Source::Input), Ok(true));
    assert_eq!(delegate_data_owner_check(&tx, Some([7; 32]), 0, Source::Output), Ok(true));
    assert_eq!(delegate_data_owner_check(&tx, Some([9; 32]), 0, Source::Output), Ok(false));
}

#[test]
fn data_check_refuses_a_position_past_the_end() {
    let tx = transaction(vec![cell(1, Some(5), 9)], vec![]);
    assert_eq!(
        delegate_data_owner_check(&tx, Some([9; 32]), 1, Source::Input),
        Err(ShadowLockError::IndexOutOfBound)
    );
    assert_eq!(
        delegate_data_owner_check(&tx, Some([9; 32]), 0, Source::Output),
        Err(ShadowLockError::IndexOutOfBound)
    );
}
