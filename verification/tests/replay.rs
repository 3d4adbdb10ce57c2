use ledger::{compile_snapshot, Client, Record, TransactionType};

fn rec(kind: TransactionType, client: u16, tx: u32, amount: Option<u64>) -> Record {
    Record { transaction_type: kind, client, tx, amount }
}

fn deposit(client: u16, tx: u32, amount: u64) -> Record {
    rec(TransactionType::DEPOSIT, client, tx, Some(amount))
}

fn withdrawal(client: u16, tx: u32, amount: u64) -> Record {
    rec(TransactionType::WITHDRAWAL, client, tx, Some(amount))
}

fn dispute(client: u16, tx: u32) -> Record {
    rec(TransactionType::DISPUTE, client, tx, None)
}

fn resolve(client: u16, tx: u32) -> Record {
    rec(TransactionType::RESOLVE, client, tx, None)
}

fn chargeback(client: u16, tx: u32) -> Record {
    rec(TransactionType::CHARGEBACK, client, tx, None)
}

fn row(output: &[Client], client: u16) -> &Client {
    output
        .iter()
        .find(|c| c.client == client)
        .expect("no row for client")
}

fn assert_row(output: &[Client], client: u16, available: i128, held: i128, total: i128, locked: bool) {
    let c = row(output, client);
    assert_eq!(c.available, available);
    assert_eq!(c.held, held);
    assert_eq!(c.total, total);
    assert_eq!(c.locked, locked);
}

#[test]
fn empty_log_gives_empty_snapshot() {
    let output = compile_snapshot(Vec::new());
    assert!(output.is_empty());
}

#[test]
fn single_deposit() {
    let output = compile_snapshot(vec![deposit(1, 1, 10)]);
    assert_eq!(output.len(), 1);
    assert_row(&output, 1, 10, 0, 10, false);
}

#[test]
fn deposit_dispute_resolve_round_trip() {
    let output = compile_snapshot(vec![
        deposit(1, 1, 10),
        deposit(1, 2, 5),
        dispute(1, 1),
        resolve(1, 1),
    ]);
    assert_eq!(output.len(), 1);
    assert_row(&output, 1, 15, 0, 15, false);
}

#[test]
fn withdrawal_dispute_chargeback_reverses_it() {
    let output = compile_snapshot(vec![
        deposit(2, 1, 20),
        withdrawal(2, 2, 5),
        dispute(2, 2),
        chargeback(2, 2),
    ]);
    assert_eq!(output.len(), 1);
    assert_row(&output, 2, 20, 0, 20, true);
}

#[test]
fn overdrawn_withdrawal_changes_nothing() {
    let output = compile_snapshot(vec![deposit(1, 1, 5), withdrawal(1, 2, 10)]);
    assert_row(&output, 1, 5, 0, 5, false);
}

#[test]
fn covered_withdrawal_debits_available_and_total() {
    let output = compile_snapshot(vec![deposit(1, 1, 10), withdrawal(1, 2, 4)]);
    assert_row(&output, 1, 6, 0, 6, false);
}

#[test]
fn total_is_available_plus_held_after_base_transitions() {
    let output = compile_snapshot(vec![
        deposit(1, 1, 10),
        withdrawal(1, 2, 4),
        deposit(1, 3, 3),
    ]);
    let c = row(&output, 1);
    assert_eq!(c.total, c.available + c.held);
    assert_row(&output, 1, 9, 0, 9, false);
}

#[test]
fn dispute_of_deposit_freezes_funds() {
    let output = compile_snapshot(vec![deposit(1, 1, 10), dispute(1, 1)]);
    assert_row(&output, 1, 0, 10, 10, false);
}

#[test]
fn dispute_of_withdrawal_only_raises_held() {
    let output = compile_snapshot(vec![deposit(1, 1, 10), withdrawal(1, 2, 4), dispute(1, 2)]);
    // The conventional equation total == available + held is deliberately
    // broken while a withdrawal dispute is open.
    assert_row(&output, 1, 6, 4, 6, false);
}

#[test]
fn withdrawal_resolve_restores_pre_dispute_state() {
    let output = compile_snapshot(vec![
        deposit(1, 1, 10),
        withdrawal(1, 2, 4),
        dispute(1, 2),
        resolve(1, 2),
    ]);
    assert_row(&output, 1, 6, 0, 6, false);
}

#[test]
fn chargeback_of_deposit_removes_funds_and_locks() {
    let output = compile_snapshot(vec![deposit(1, 1, 10), dispute(1, 1), chargeback(1, 1)]);
    assert_row(&output, 1, 0, 0, 0, true);
}

#[test]
fn locked_account_ignores_later_records() {
    let output = compile_snapshot(vec![
        deposit(1, 1, 10),
        dispute(1, 1),
        chargeback(1, 1),
        deposit(1, 2, 7),
        withdrawal(1, 3, 1),
    ]);
    assert_row(&output, 1, 0, 0, 0, true);
}

#[test]
fn dispute_of_unknown_tx_is_a_noop_but_creates_the_row() {
    let output = compile_snapshot(vec![dispute(9, 42)]);
    assert_eq!(output.len(), 1);
    assert_row(&output, 9, 0, 0, 0, false);
}

#[test]
fn resolve_without_dispute_is_skipped() {
    let output = compile_snapshot(vec![deposit(1, 1, 10), resolve(1, 1)]);
    assert_row(&output, 1, 10, 0, 10, false);
}

#[test]
fn chargeback_without_dispute_is_skipped() {
    let output = compile_snapshot(vec![deposit(1, 1, 10), chargeback(1, 1)]);
    assert_row(&output, 1, 10, 0, 10, false);
}

#[test]
fn dispute_matches_by_client_and_tx_pair() {
    // Client 2 disputes client 1's tx: no record of client 2 carries that
    // tx, so the dispute resolves to amount zero.
    let output = compile_snapshot(vec![deposit(1, 1, 10), dispute(2, 1)]);
    assert_eq!(output.len(), 2);
    assert_row(&output, 1, 10, 0, 10, false);
    assert_row(&output, 2, 0, 0, 0, false);
}

#[test]
fn held_funds_are_not_available_for_withdrawal() {
    let output = compile_snapshot(vec![deposit(1, 1, 10), dispute(1, 1), withdrawal(1, 2, 5)]);
    assert_row(&output, 1, 0, 10, 10, false);
}

#[test]
fn dispute_may_precede_its_deposit_in_log_order() {
    // Reference resolution scans the whole history, so the dispute finds a
    // deposit that only appears later in the log. The dispute fires first,
    // driving available negative until the deposit lands.
    let output = compile_snapshot(vec![dispute(1, 1), deposit(1, 1, 10)]);
    assert_row(&output, 1, 0, 10, 10, false);
}

#[test]
fn rows_appear_in_order_of_first_appearance() {
    let output = compile_snapshot(vec![
        deposit(3, 1, 1),
        deposit(1, 2, 2),
        deposit(2, 3, 3),
        deposit(1, 4, 4),
    ]);
    let ids: Vec<u16> = output.iter().map(|c| c.client).collect();
    assert_eq!(ids, vec![3, 1, 2]);
    assert_row(&output, 1, 6, 0, 6, false);
}

#[test]
fn process_replays_one_record() {
    let history = vec![deposit(7, 1, 3)];
    let output = history[0].process(&history, Vec::new());
    assert_eq!(output.len(), 1);
    assert_row(&output, 7, 3, 0, 3, false);
}

#[test]
fn locking_one_client_leaves_others_untouched() {
    let output = compile_snapshot(vec![
        deposit(1, 1, 10),
        deposit(2, 2, 20),
        dispute(1, 1),
        chargeback(1, 1),
        deposit(2, 3, 5),
    ]);
    assert_row(&output, 1, 0, 0, 0, true);
    assert_row(&output, 2, 25, 0, 25, false);
}
