use cqrs_es::aggregate::{Aggregate, DomainEvent};
use cqrs_es::doc::{
    BankAccount, BankAccountCommand, BankAccountEvent, OpenedRecordUpcaster,
};
use cqrs_es::error::AggregateError;
use cqrs_es::event_store::PersistedEventStore;
use cqrs_es::record::SerializedEvent;
use cqrs_es::repository::MemoryEventRepository;
use cqrs_es::version::SemanticVersion;

type AccountStore = PersistedEventStore<BankAccount, OpenedRecordUpcaster>;

#[test]
fn open_commits_at_sequence_one() {
    let mut store = AccountStore::new(Vec::new());
    store
        .execute("account/42", &BankAccountCommand::Open { balance: 100 })
        .unwrap();
    let context = store.load("account/42").unwrap();
    assert_eq!(context.current_sequence, 1);
    assert_eq!(context.aggregate, BankAccount { opened: true, balance: 100 });
}

#[test]
fn insufficient_funds_commits_nothing() {
    let mut store = AccountStore::new(Vec::new());
    store
        .execute("account/42", &BankAccountCommand::Open { balance: 100 })
        .unwrap();
    let error = store
        .execute("account/42", &BankAccountCommand::Withdraw { amount: 150 })
        .unwrap_err();
    assert_eq!(error.description(), "insufficient funds");
    assert!(matches!(error, AggregateError::UserError(_)));
    let context = store.load("account/42").unwrap();
    assert_eq!(context.current_sequence, 1);
    assert_eq!(context.aggregate.balance, 100);
}

#[test]
fn concurrent_deposits_conflict() {
    let mut store = AccountStore::new(Vec::new());
    store
        .execute("7", &BankAccountCommand::Open { balance: 100 })
        .unwrap();
    let first = store.load("7").unwrap();
    let second = store.load("7").unwrap();
    assert_eq!(first.current_sequence, 1);
    assert_eq!(second.current_sequence, 1);

    let events = first
        .aggregate
        .handle(&BankAccountCommand::Deposit { amount: 10 })
        .unwrap();
    store.commit(first, events, &Vec::new()).unwrap();
    let context = store.load("7").unwrap();
    assert_eq!(context.current_sequence, 2);

    let events = second
        .aggregate
        .handle(&BankAccountCommand::Deposit { amount: 10 })
        .unwrap();
    let error = store.commit(second, events, &Vec::new()).err().unwrap();
    assert_eq!(error, AggregateError::AggregateConflict);
    assert_eq!(store.load("7").unwrap().current_sequence, 2);
}

#[test]
fn replay_is_deterministic() {
    let mut store = AccountStore::new(Vec::new());
    store
        .execute("9", &BankAccountCommand::Open { balance: 5 })
        .unwrap();
    store
        .execute("9", &BankAccountCommand::Deposit { amount: 37 })
        .unwrap();
    store
        .execute("9", &BankAccountCommand::Withdraw { amount: 2 })
        .unwrap();
    let first = store.load("9").unwrap();
    let second = store.load("9").unwrap();
    assert_eq!(first.aggregate, second.aggregate);
    assert_eq!(first.aggregate, BankAccount { opened: true, balance: 40 });
}

#[test]
fn event_codec_round_trips() {
    for event in [
        BankAccountEvent::Opened { balance: 100 },
        BankAccountEvent::Deposited { amount: 0 },
        BankAccountEvent::Withdrew { amount: u64::MAX },
    ] {
        let decoded = BankAccountEvent::decode(
            &event.event_type(),
            &event.event_version(),
            &event.encode(),
        )
        .unwrap();
        assert_eq!(decoded, event);
    }
}

#[test]
fn state_codec_round_trips() {
    for state in [
        BankAccount { opened: false, balance: 0 },
        BankAccount { opened: true, balance: 12345678901 },
    ] {
        let decoded =
            BankAccount::decode_state(&BankAccount::snapshot_version(), &state.encode_state())
                .unwrap();
        assert_eq!(decoded, state);
    }
}

#[test]
fn malformed_payload_fails_to_decode() {
    let version = SemanticVersion::new(1, 0, 0);
    assert!(BankAccountEvent::decode("Opened", &version, &[0, 1, 2]).is_err());
    let stale = SemanticVersion::new(0, 9, 0);
    let payload = BankAccountEvent::Opened { balance: 1 }.encode();
    assert!(BankAccountEvent::decode("Opened", &stale, &payload).is_err());
}

fn legacy_opened_record(aggregate_id: &str, balance: u64) -> SerializedEvent {
    SerializedEvent::new(
        "account".to_string(),
        aggregate_id.to_string(),
        1,
        "Opened".to_string(),
        SemanticVersion::new(0, 9, 0),
        balance.to_le_bytes().to_vec(),
        Vec::new(),
    )
}

#[test]
fn upcaster_brings_legacy_record_to_current_schema() {
    let mut repository = MemoryEventRepository::new();
    repository
        .persist_events("account", "legacy", 0, &vec![legacy_opened_record("legacy", 100)])
        .unwrap();
    let store = AccountStore::with_repository(repository, vec![OpenedRecordUpcaster {}]);
    let context = store.load("legacy").unwrap();
    assert_eq!(context.current_sequence, 1);
    assert_eq!(context.aggregate, BankAccount { opened: true, balance: 100 });
}

#[test]
fn uncovered_version_gap_is_a_technical_error() {
    let mut repository = MemoryEventRepository::new();
    repository
        .persist_events("account", "legacy", 0, &vec![legacy_opened_record("legacy", 100)])
        .unwrap();
    let store = AccountStore::with_repository(repository, Vec::new());
    let error = store.load("legacy").err().unwrap();
    assert!(matches!(error, AggregateError::TechnicalError(_)));
}

#[test]
fn current_records_pass_the_chain_untouched() {
    let mut store = AccountStore::new(vec![OpenedRecordUpcaster {}]);
    store
        .execute("3", &BankAccountCommand::Open { balance: 8 })
        .unwrap();
    store
        .execute("3", &BankAccountCommand::Deposit { amount: 4 })
        .unwrap();
    let context = store.load("3").unwrap();
    assert_eq!(context.aggregate, BankAccount { opened: true, balance: 12 });
}

#[test]
fn streams_are_independent_per_identity() {
    let mut store = AccountStore::new(Vec::new());
    store
        .execute("a", &BankAccountCommand::Open { balance: 1 })
        .unwrap();
    store
        .execute("b", &BankAccountCommand::Open { balance: 2 })
        .unwrap();
    assert_eq!(store.load("a").unwrap().aggregate.balance, 1);
    assert_eq!(store.load("b").unwrap().aggregate.balance, 2);
    assert_eq!(store.load("c").unwrap().current_sequence, 0);
}

#[test]
fn semantic_version_orders_lexicographically() {
    let v100 = SemanticVersion::new(1, 0, 0);
    let v101 = SemanticVersion::new(1, 0, 1);
    let v090 = SemanticVersion::new(0, 9, 0);
    let v200 = SemanticVersion::new(2, 0, 0);
    assert!(v100.lt(&v101));
    assert!(v090.lt(&v100));
    assert!(v100.lt(&v200));
    assert!(!v100.lt(&v100));
    assert!(!v200.lt(&v101));
}

#[test]
fn commands_on_unopened_accounts_are_rejected() {
    let mut store = AccountStore::new(Vec::new());
    let error = store
        .execute("empty", &BankAccountCommand::Deposit { amount: 1 })
        .unwrap_err();
    assert_eq!(error.description(), "account not open");
    let error = store
        .execute("empty", &BankAccountCommand::Withdraw { amount: 1 })
        .unwrap_err();
    assert_eq!(error.description(), "account not open");
    store
        .execute("empty", &BankAccountCommand::Open { balance: 0 })
        .unwrap();
    let error = store
        .execute("empty", &BankAccountCommand::Open { balance: 0 })
        .unwrap_err();
    assert_eq!(error.description(), "account already open");
}

#[test]
fn deposit_overflow_is_rejected() {
    let mut store = AccountStore::new(Vec::new());
    store
        .execute("rich", &BankAccountCommand::Open { balance: u64::MAX - 1 })
        .unwrap();
    let error = store
        .execute("rich", &BankAccountCommand::Deposit { amount: 2 })
        .unwrap_err();
    assert_eq!(error.description(), "balance overflow");
    store
        .execute("rich", &BankAccountCommand::Deposit { amount: 1 })
        .unwrap();
    assert_eq!(store.load("rich").unwrap().aggregate.balance, u64::MAX);
}

#[test]
fn version_parse_accepts_dotted_decimals() {
    assert_eq!(
        SemanticVersion::parse("1.2.3"),
        Ok(SemanticVersion::new(1, 2, 3))
    );
    assert_eq!(
        SemanticVersion::parse("0.0.0"),
        Ok(SemanticVersion::new(0, 0, 0))
    );
    assert_eq!(
        SemanticVersion::parse("01.002.3"),
        Ok(SemanticVersion::new(1, 2, 3))
    );
    assert_eq!(
        SemanticVersion::parse("4294967295.0.1"),
        Ok(SemanticVersion::new(u32::MAX, 0, 1))
    );
}

#[test]
fn version_parse_rejects_everything_else() {
    for text in [
        "", "1", "1.2", "1.2.", ".2.3", "1..3", "1.2.3.4", "a.b.c", "1.2.x", "4294967296.0.0",
        "-1.2.3", "1.2.3 ",
    ] {
        assert!(SemanticVersion::parse(text).is_err(), "accepted {:?}", text);
    }
}
