use cqrs_es::aggregate::{Aggregate, EventEnvelope};
use cqrs_es::doc::{
    BankAccount, BankAccountCommand, BankAccountEvent, BankAccountView, OpenedRecordUpcaster,
};
use cqrs_es::error::{AggregateError, PersistenceError};
use cqrs_es::queries::GenericQuery;
use cqrs_es::snapshot_store::PersistedSnapshotStore;

type AccountSnapshotStore = PersistedSnapshotStore<BankAccount, OpenedRecordUpcaster>;
type AccountQuery = GenericQuery<BankAccount, BankAccountView>;

fn run_command(store: &mut AccountSnapshotStore, id: &str, command: BankAccountCommand) {
    let context = store.load(id).unwrap();
    let events = context.aggregate.handle(&command).unwrap();
    store.commit(context, events, &Vec::new()).unwrap();
}

#[test]
fn snapshot_load_equals_full_replay() {
    let mut with_snapshots = AccountSnapshotStore::new(Vec::new(), 1);
    let mut without_snapshots = AccountSnapshotStore::new(Vec::new(), u64::MAX);
    for store in [&mut with_snapshots, &mut without_snapshots] {
        run_command(store, "acc", BankAccountCommand::Open { balance: 100 });
        run_command(store, "acc", BankAccountCommand::Deposit { amount: 25 });
        run_command(store, "acc", BankAccountCommand::Withdraw { amount: 5 });
    }

    let snapshotted = with_snapshots.load("acc").unwrap();
    let replayed = without_snapshots.load("acc").unwrap();
    assert_eq!(snapshotted.aggregate, replayed.aggregate);
    assert_eq!(snapshotted.aggregate, BankAccount { opened: true, balance: 120 });
    assert_eq!(snapshotted.current_sequence, 3);
    assert_eq!(replayed.current_sequence, 3);
    // the first store really loaded from a snapshot, the second from scratch
    assert_eq!(snapshotted.snapshot_sequence, 3);
    assert_eq!(replayed.snapshot_sequence, 0);
}

#[test]
fn snapshot_policy_counts_committed_events() {
    let mut store = AccountSnapshotStore::new(Vec::new(), 3);
    run_command(&mut store, "acc", BankAccountCommand::Open { balance: 1 });
    run_command(&mut store, "acc", BankAccountCommand::Deposit { amount: 1 });
    assert_eq!(store.load("acc").unwrap().snapshot_sequence, 0);
    run_command(&mut store, "acc", BankAccountCommand::Deposit { amount: 1 });
    assert_eq!(store.load("acc").unwrap().snapshot_sequence, 3);
    run_command(&mut store, "acc", BankAccountCommand::Deposit { amount: 1 });
    assert_eq!(store.load("acc").unwrap().snapshot_sequence, 3);
}

#[test]
fn stale_snapshot_context_conflicts() {
    let mut store = AccountSnapshotStore::new(Vec::new(), 2);
    run_command(&mut store, "acc", BankAccountCommand::Open { balance: 100 });
    let first = store.load("acc").unwrap();
    let second = store.load("acc").unwrap();

    let events = first
        .aggregate
        .handle(&BankAccountCommand::Deposit { amount: 10 })
        .unwrap();
    store.commit(first, events, &Vec::new()).unwrap();

    let events = second
        .aggregate
        .handle(&BankAccountCommand::Deposit { amount: 10 })
        .unwrap();
    let error = store.commit(second, events, &Vec::new()).err().unwrap();
    assert_eq!(error, AggregateError::AggregateConflict);
    assert_eq!(store.load("acc").unwrap().aggregate.balance, 110);
}

fn envelope(sequence: u64, payload: BankAccountEvent) -> EventEnvelope<BankAccount> {
    EventEnvelope {
        aggregate_id: "acc".to_string(),
        sequence,
        payload,
    }
}

#[test]
fn duplicate_delivery_changes_the_view_at_most_once() {
    let mut query = AccountQuery::new();
    let batch = vec![
        envelope(1, BankAccountEvent::Opened { balance: 100 }),
        envelope(2, BankAccountEvent::Deposited { amount: 10 }),
    ];
    query.dispatch("acc", &batch).unwrap();
    let once = query.load_view("acc");
    assert_eq!(once, BankAccountView { opened: true, balance: 110 });

    query.dispatch("acc", &batch).unwrap();
    let twice = query.load_view("acc");
    assert_eq!(once, twice);
}

#[test]
fn overlapping_delivery_folds_only_new_events() {
    let mut query = AccountQuery::new();
    query
        .dispatch("acc", &vec![envelope(1, BankAccountEvent::Opened { balance: 50 })])
        .unwrap();
    query
        .dispatch(
            "acc",
            &vec![
                envelope(1, BankAccountEvent::Opened { balance: 50 }),
                envelope(2, BankAccountEvent::Withdrew { amount: 20 }),
            ],
        )
        .unwrap();
    assert_eq!(
        query.load_view("acc"),
        BankAccountView { opened: true, balance: 30 }
    );
}

#[test]
fn gapped_delivery_is_rejected_whole() {
    let mut query = AccountQuery::new();
    let error = query
        .dispatch("acc", &vec![envelope(3, BankAccountEvent::Deposited { amount: 1 })])
        .unwrap_err();
    assert!(matches!(error, PersistenceError::Technical(_)));
    assert_eq!(query.load_view("acc"), BankAccountView { opened: false, balance: 0 });
}

#[test]
fn committed_envelopes_feed_the_projector() {
    let mut store = AccountSnapshotStore::new(Vec::new(), 10);
    let mut query = AccountQuery::new();

    let context = store.load("acc").unwrap();
    let events = context
        .aggregate
        .handle(&BankAccountCommand::Open { balance: 75 })
        .unwrap();
    let envelopes = store.commit(context, events, &Vec::new()).unwrap();
    assert_eq!(envelopes.len(), 1);
    assert_eq!(envelopes[0].sequence, 1);
    query.dispatch("acc", &envelopes).unwrap();

    assert_eq!(
        query.load_view("acc"),
        BankAccountView { opened: true, balance: 75 }
    );
}

#[test]
fn snapshot_store_handles_commands_end_to_end() {
    let mut store = AccountSnapshotStore::new(Vec::new(), 2);
    store
        .execute("acc", &BankAccountCommand::Open { balance: 40 })
        .unwrap();
    let error = store
        .execute("acc", &BankAccountCommand::Withdraw { amount: 50 })
        .unwrap_err();
    assert_eq!(error.description(), "insufficient funds");
    store
        .execute("acc", &BankAccountCommand::Withdraw { amount: 15 })
        .unwrap();
    let context = store.load("acc").unwrap();
    assert_eq!(context.aggregate, BankAccount { opened: true, balance: 25 });
    assert_eq!(context.current_sequence, 2);
    assert_eq!(context.snapshot_sequence, 2);
}
