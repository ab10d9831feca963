use payment_engine::engine::ClientState;
use payment_engine::io::{csv_reader, csv_writer, ParseError};

fn state(available: i128, held: i128, total: i128, locked: bool) -> ClientState {
    ClientState { available, held, total, locked }
}

#[test]
fn deposits_increase_total_and_available_funds() {
    let input = b"type,client,tx,amount\ndeposit,1,1,1.0\ndeposit,1,2,1.0";
    let clients_state = csv_reader(input).unwrap();
    assert_eq!(clients_state.len(), 1);
    assert_eq!(clients_state.get(1), Some(state(20000, 0, 20000, false)));
}

#[test]
fn withdrawal_with_funds_success() {
    let input = b"type,client,tx,amount\ndeposit,1,1,1.5\nwithdrawal,1,2,1.5";
    let clients_state = csv_reader(input).unwrap();
    assert_eq!(clients_state.len(), 1);
    assert_eq!(clients_state.get(1), Some(state(0, 0, 0, false)));
}

#[test]
fn withdrawal_without_funds_is_ignored() {
    let input = b"type,client,tx,amount\ndeposit,1,1,1.0\nwithdrawal,1,2,1.5";
    let clients_state = csv_reader(input).unwrap();
    assert_eq!(clients_state.len(), 1);
    assert_eq!(clients_state.get(1), Some(state(10000, 0, 10000, false)));
}

#[test]
fn dispute_increases_held_and_decreases_available() {
    let input = b"type,client,tx,amount\ndeposit,1,1,1.0\ndispute,1,1,";
    let clients_state = csv_reader(input).unwrap();
    assert_eq!(clients_state.len(), 1);
    assert_eq!(clients_state.get(1), Some(state(0, 10000, 10000, false)));
}

#[test]
fn dispute_on_inexistant_transaction_is_ignored() {
    let input = b"type,client,tx,amount\ndeposit,1,1,1.0\ndispute,1,0,";
    let clients_state = csv_reader(input).unwrap();
    assert_eq!(clients_state.len(), 1);
    assert_eq!(clients_state.get(1), Some(state(10000, 0, 10000, false)));
}

#[test]
fn dispute_on_other_client_transaction_is_ignored() {
    let input = b"type,client,tx,amount\ndeposit,1,1,1.0\ndeposit,2,2,1.0\ndispute,1,2,";
    let clients_state = csv_reader(input).unwrap();
    assert_eq!(clients_state.len(), 2);
    assert_eq!(clients_state.get(1), Some(state(10000, 0, 10000, false)));
    assert_eq!(clients_state.get(2), Some(state(10000, 0, 10000, false)));
}

#[test]
fn resolve_releases_disputed_transaction_held_funds() {
    let input = b"type,client,tx,amount\ndeposit,1,1,1.0\ndispute,1,1,\nresolve,1,1,";
    let clients_state = csv_reader(input).unwrap();
    assert_eq!(clients_state.len(), 1);
    assert_eq!(clients_state.get(1), Some(state(10000, 0, 10000, false)));
}

#[test]
fn resolve_on_non_disputed_transaction_is_ignored() {
    let input = b"type,client,tx,amount\ndeposit,1,1,1.0\nresolve,1,1,";
    let clients_state = csv_reader(input).unwrap();
    assert_eq!(clients_state.len(), 1);
    assert_eq!(clients_state.get(1), Some(state(10000, 0, 10000, false)));
}

#[test]
fn resolve_on_inexistant_transaction_is_ignored() {
    let input = b"type,client,tx,amount\ndeposit,1,1,1.0\nresolve,1,10,";
    let clients_state = csv_reader(input).unwrap();
    assert_eq!(clients_state.len(), 1);
    assert_eq!(clients_state.get(1), Some(state(10000, 0, 10000, false)));
}

#[test]
fn resolve_on_already_resolved_transaction_is_ignored() {
    let input = b"type,client,tx,amount\ndeposit,1,1,1.0\ndispute,1,1,\nresolve,1,1,\nresolve,1,1,";
    let clients_state = csv_reader(input).unwrap();
    assert_eq!(clients_state.len(), 1);
    assert_eq!(clients_state.get(1), Some(state(10000, 0, 10000, false)));
}

#[test]
fn chargeback_locks_client_and_decreases_held_and_total_funds() {
    let input = b"type,client,tx,amount\ndeposit,1,1,1.0\ndispute,1,1,\nchargeback,1,1,";
    let clients_state = csv_reader(input).unwrap();
    assert_eq!(clients_state.len(), 1);
    assert_eq!(clients_state.get(1), Some(state(0, 0, 0, true)));
}

#[test]
fn chargeback_on_already_chargedback_is_ignored() {
    let input = b"type,client,tx,amount\ndeposit,1,1,1.0\ndispute,1,1,\nchargeback,1,1,\nchargeback,1,1,";
    let clients_state = csv_reader(input).unwrap();
    assert_eq!(clients_state.len(), 1);
    assert_eq!(clients_state.get(1), Some(state(0, 0, 0, true)));
}

#[test]
fn chargeback_on_inexistant_transaction_is_ignored() {
    let input = b"type,client,tx,amount\ndeposit,1,1,1.0\ndispute,1,1,\nchargeback,1,10,";
    let clients_state = csv_reader(input).unwrap();
    assert_eq!(clients_state.len(), 1);
    assert_eq!(clients_state.get(1), Some(state(0, 10000, 10000, false)));
}

#[test]
fn chargeback_on_non_disputed_transaction_is_ignored() {
    let input = b"type,client,tx,amount\ndeposit,1,1,1.0\nchargeback,1,1,";
    let clients_state = csv_reader(input).unwrap();
    assert_eq!(clients_state.len(), 1);
    assert_eq!(clients_state.get(1), Some(state(10000, 0, 10000, false)));
}

#[test]
fn chargeback_prevents_any_other_transactions() {
    let input = b"type,client,tx,amount\ndeposit,1,1,1.0\ndispute,1,1,\nchargeback,1,1,\ndeposit,1,2,1.0\nwithdrawal,1,3,0.5\ndispute,1,3,\nresolve,1,3,\n";
    let clients_state = csv_reader(input).unwrap();
    assert_eq!(clients_state.len(), 1);
    assert_eq!(clients_state.get(1), Some(state(0, 0, 0, true)));
}

#[test]
fn output_is_correctly_formated() {
    let input = b"type,client,tx,amount
deposit,1,1,1.0
deposit,2,2,2.0
deposit,1,3,2.0
withdrawal,1,4,1.5
withdrawal,2,5,3.0";

    let expected_lines = [
        "client,available,held,total,locked",
        "1,1.5000,0.0000,1.5000,false",
        "2,2.0000,0.0000,2.0000,false",
    ];

    let clients_state = csv_reader(input).unwrap();
    let utf8_output = csv_writer(&clients_state);
    let str_output = String::from_utf8(utf8_output).unwrap();

    for expected_line in expected_lines {
        assert!(str_output.contains(expected_line));
    }
}

#[test]
fn empty_input_yields_no_clients() {
    let clients_state = csv_reader(b"").unwrap();
    assert_eq!(clients_state.len(), 0);
}

#[test]
fn header_only_yields_no_clients() {
    let clients_state = csv_reader(b"type,client,tx,amount").unwrap();
    assert_eq!(clients_state.len(), 0);
}

#[test]
fn unrecognized_kind_is_ignored_entirely() {
    let input = b"type,client,tx,amount\nteleport,1,1,1.0\ndeposit,2,2,1.0";
    let clients_state = csv_reader(input).unwrap();
    assert_eq!(clients_state.len(), 1);
    assert_eq!(clients_state.get(1), None);
    assert_eq!(clients_state.get(2), Some(state(10000, 0, 10000, false)));
}

#[test]
fn duplicate_transaction_id_overwrites_ledger_entry() {
    // The second deposit under the same id overwrites the historized
    // amount, so the dispute freezes the later amount.
    let input = b"type,client,tx,amount\ndeposit,1,1,5.0\ndeposit,1,1,1.0\ndispute,1,1,";
    let clients_state = csv_reader(input).unwrap();
    assert_eq!(clients_state.len(), 1);
    assert_eq!(clients_state.get(1), Some(state(50000, 10000, 60000, false)));
}

#[test]
fn disputed_withdrawal_can_drive_available_negative() {
    // A withdrawal is historized, and disputing it moves the amount out
    // of available a second time.
    let input = b"type,client,tx,amount\ndeposit,1,1,1.0\nwithdrawal,1,2,1.0\ndispute,1,2,";
    let clients_state = csv_reader(input).unwrap();
    let st = clients_state.get(1).unwrap();
    assert_eq!(st, state(-10000, 10000, 0, false));
    assert_eq!(st.total, st.available + st.held);
}

#[test]
fn totals_stay_balanced_through_a_mixed_run() {
    let input = b"type,client,tx,amount\ndeposit,1,1,3.0\nwithdrawal,1,2,1.0\ndispute,1,1,\nresolve,1,1,\ndeposit,2,3,2.5\ndispute,2,3,\nchargeback,2,3,";
    let clients_state = csv_reader(input).unwrap();
    for client in [1u64, 2u64] {
        let st = clients_state.get(client).unwrap();
        assert_eq!(st.total, st.available + st.held);
    }
    assert_eq!(clients_state.get(1), Some(state(20000, 0, 20000, false)));
    assert_eq!(clients_state.get(2), Some(state(0, 0, 0, true)));
}

#[test]
fn fields_are_trimmed() {
    let input = b"type, client, tx, amount\n deposit , 1 , 1 , 1.0 ";
    let clients_state = csv_reader(input).unwrap();
    assert_eq!(clients_state.get(1), Some(state(10000, 0, 10000, false)));
}

#[test]
fn negative_balance_is_formatted_with_a_sign() {
    let input = b"type,client,tx,amount\ndeposit,1,1,1.0\nwithdrawal,1,2,1.0\ndispute,1,2,";
    let clients_state = csv_reader(input).unwrap();
    let out = String::from_utf8(csv_writer(&clients_state)).unwrap();
    assert!(out.contains("1,-1.0000,1.0000,0.0000,false"));
}

#[test]
fn ragged_record_aborts_the_run() {
    let input = b"type,client,tx,amount\ndeposit,1";
    assert_eq!(csv_reader(input).err(), Some(ParseError::Csv));
}

#[test]
fn missing_tx_column_aborts_on_first_record() {
    let input = b"type,client,amount\ndeposit,1,1.0";
    assert_eq!(csv_reader(input).err(), Some(ParseError::MissingField));
}

#[test]
fn bad_client_aborts_the_run() {
    let input = b"type,client,tx,amount\ndeposit,abc,1,1.0";
    assert_eq!(csv_reader(input).err(), Some(ParseError::BadClient));
}

#[test]
fn bad_tx_aborts_the_run() {
    let input = b"type,client,tx,amount\ndeposit,1,xyz,1.0";
    assert_eq!(csv_reader(input).err(), Some(ParseError::BadTx));
}

#[test]
fn bad_amount_aborts_the_run() {
    let input = b"type,client,tx,amount\ndeposit,1,1,1.2.3";
    assert_eq!(csv_reader(input).err(), Some(ParseError::BadAmount));
}

#[test]
fn client_id_out_of_range_aborts_the_run() {
    let input = b"type,client,tx,amount\ndeposit,65536,1,1.0";
    assert_eq!(csv_reader(input).err(), Some(ParseError::BadClient));
}

#[test]
fn process_rows_replays_already_split_records() {
    let rows: Vec<Vec<Vec<u8>>> = vec![
        vec![b"type".to_vec(), b"client".to_vec(), b"tx".to_vec(), b"amount".to_vec()],
        vec![b"deposit".to_vec(), b"7".to_vec(), b"1".to_vec(), b"2.5".to_vec()],
        vec![b"dispute".to_vec(), b"7".to_vec(), b"1".to_vec(), b"".to_vec()],
    ];
    let clients_state = payment_engine::io::process_rows(&rows).unwrap();
    assert_eq!(clients_state.len(), 1);
    assert_eq!(clients_state.get(7), Some(state(0, 25000, 25000, false)));
}

#[test]
fn process_rows_accepts_reordered_columns() {
    let rows: Vec<Vec<Vec<u8>>> = vec![
        vec![b"amount".to_vec(), b"tx".to_vec(), b"client".to_vec(), b"type".to_vec()],
        vec![b"4.0".to_vec(), b"1".to_vec(), b"5".to_vec(), b"deposit".to_vec()],
    ];
    let clients_state = payment_engine::io::process_rows(&rows).unwrap();
    assert_eq!(clients_state.get(5), Some(state(40000, 0, 40000, false)));
}
