//! A small bank-account domain exercising every capability the framework is
//! generic over: an aggregate with its command handling, a domain event with
//! a byte codec, an upcaster for a retired payload layout, and a read-model
//! projection.

use vstd::prelude::*;

use vstd::bytes::{
    lemma_auto_spec_u64_to_from_le_bytes, spec_u64_from_le_bytes, spec_u64_to_le_bytes,
    u64_from_le_bytes, u64_to_le_bytes,
};
use vstd::slice::slice_subrange;

use crate::aggregate::{Aggregate, DomainEvent};
use crate::error::{AggregateError, PersistenceError, UserErrorPayloadModel};
use crate::queries::Projection;
use crate::record::{SerializedEvent, SerializedEventModel};
use crate::upcaster::EventUpcaster;
use crate::version::SemanticVersion;

verus! {

/// The schema version the account codec writes, for events and snapshots
/// alike.
pub open spec fn account_codec_version() -> SemanticVersion {
    SemanticVersion { major: 1, minor: 0, patch: 0 }
}

/// A fact recorded about one account.
#[derive(Debug, Clone, Copy, PartialEq, Eq, Structural)]
pub enum BankAccountEvent {
    /// The account was opened with an initial balance.
    Opened { balance: u64 },
    /// Funds were deposited.
    Deposited { amount: u64 },
    /// Funds were withdrawn.
    Withdrew { amount: u64 },
}

/// A request against one account, validated by `BankAccount::handle`.
#[derive(Debug, Clone, Copy, PartialEq, Eq, Structural)]
pub enum BankAccountCommand {
    /// Open the account with an initial balance.
    Open { balance: u64 },
    /// Deposit funds.
    Deposit { amount: u64 },
    /// Withdraw funds; rejected when not covered by the balance.
    Withdraw { amount: u64 },
}

/// The replayed state of one account.
#[derive(Debug, Clone, Copy, PartialEq, Eq, Structural)]
pub struct BankAccount {
    /// Whether an `Opened` event has been applied.
    pub opened: bool,
    /// The current balance.
    pub balance: u64,
}

/// The payload layout: one tag byte naming the event kind, then the amount
/// in eight little-endian bytes.
pub open spec fn account_payload(tag: u8, value: u64) -> Seq<u8> {
    seq![tag] + spec_u64_to_le_bytes(value)
}

impl DomainEvent for BankAccountEvent {
    open spec fn event_type_spec(self) -> Seq<char> {
        match self {
            BankAccountEvent::Opened { .. } => "Opened"@,
            BankAccountEvent::Deposited { .. } => "Deposited"@,
            BankAccountEvent::Withdrew { .. } => "Withdrew"@,
        }
    }

    open spec fn event_version_spec(self) -> SemanticVersion {
        account_codec_version()
    }

    open spec fn encode_spec(self) -> Seq<u8> {
        match self {
            BankAccountEvent::Opened { balance } => account_payload(0, balance),
            BankAccountEvent::Deposited { amount } => account_payload(1, amount),
            BankAccountEvent::Withdrew { amount } => account_payload(2, amount),
        }
    }

    open spec fn decode_spec(
        event_type: Seq<char>,
        event_version: SemanticVersion,
        payload: Seq<u8>,
    ) -> Option<Self> {
        if event_version != account_codec_version() || payload.len() != 9 {
            None
        } else {
            let value = spec_u64_from_le_bytes(payload.skip(1));
            if payload[0] == 0 && event_type == "Opened"@ {
                Some(BankAccountEvent::Opened { balance: value })
            } else if payload[0] == 1 && event_type == "Deposited"@ {
                Some(BankAccountEvent::Deposited { amount: value })
            } else if payload[0] == 2 && event_type == "Withdrew"@ {
                Some(BankAccountEvent::Withdrew { amount: value })
            } else {
                None
            }
        }
    }

    fn event_type(&self) -> (r: String) {
        match self {
            BankAccountEvent::Opened { .. } => "Opened".to_owned(),
            BankAccountEvent::Deposited { .. } => "Deposited".to_owned(),
            BankAccountEvent::Withdrew { .. } => "Withdrew".to_owned(),
        }
    }

    fn event_version(&self) -> (r: SemanticVersion) {
        SemanticVersion::new(1, 0, 0)
    }

    fn encode(&self) -> (r: Vec<u8>) {
        let (tag, value): (u8, u64) = match self {
            BankAccountEvent::Opened { balance } => (0, *balance),
            BankAccountEvent::Deposited { amount } => (1, *amount),
            BankAccountEvent::Withdrew { amount } => (2, *amount),
        };
        let mut payload: Vec<u8> = Vec::new();
        payload.push(tag);
        let mut encoded_value = u64_to_le_bytes(value);
        payload.append(&mut encoded_value);
        proof {
            assert(payload@ =~= account_payload(tag, value));
        }
        payload
    }

    fn decode(event_type: &str, event_version: &SemanticVersion, payload: &[u8]) -> (r: Result<
        Self,
        PersistenceError,
    >) {
        let expected = SemanticVersion::new(1, 0, 0);
        if event_version.major != expected.major || event_version.minor != expected.minor
            || event_version.patch != expected.patch || payload.len() != 9 {
            return Err(
                PersistenceError::Technical("account event payload failed to decode".to_owned()),
            );
        }
        let tag = payload[0];
        let value_bytes = slice_subrange(payload, 1, 9);
        let value = u64_from_le_bytes(value_bytes);
        proof {
            assert(value_bytes@ =~= payload@.skip(1));
        }
        let name = event_type.to_owned();
        if tag == 0 && name == "Opened".to_owned() {
            Ok(BankAccountEvent::Opened { balance: value })
        } else if tag == 1 && name == "Deposited".to_owned() {
            Ok(BankAccountEvent::Deposited { amount: value })
        } else if tag == 2 && name == "Withdrew".to_owned() {
            Ok(BankAccountEvent::Withdrew { amount: value })
        } else {
            Err(PersistenceError::Technical("account event payload failed to decode".to_owned()))
        }
    }

    proof fn lemma_codec_round_trip(self) {
        lemma_auto_spec_u64_to_from_le_bytes();
        let payload = self.encode_spec();
        match self {
            BankAccountEvent::Opened { balance } => {
                assert(payload.skip(1) =~= spec_u64_to_le_bytes(balance));
            },
            BankAccountEvent::Deposited { amount } => {
                assert(payload.skip(1) =~= spec_u64_to_le_bytes(amount));
            },
            BankAccountEvent::Withdrew { amount } => {
                assert(payload.skip(1) =~= spec_u64_to_le_bytes(amount));
            },
        }
    }
}

impl Aggregate for BankAccount {
    type Event = BankAccountEvent;

    type Command = BankAccountCommand;

    open spec fn aggregate_type_spec() -> Seq<char> {
        "account"@
    }

    open spec fn initial_spec() -> Self {
        BankAccount { opened: false, balance: 0 }
    }

    open spec fn apply_spec(self, event: BankAccountEvent) -> Self {
        match event {
            BankAccountEvent::Opened { balance } => BankAccount { opened: true, balance },
            BankAccountEvent::Deposited { amount } => BankAccount {
                opened: self.opened,
                balance: if self.balance + amount > u64::MAX {
                    u64::MAX
                } else {
                    (self.balance + amount) as u64
                },
            },
            BankAccountEvent::Withdrew { amount } => BankAccount {
                opened: self.opened,
                balance: if amount > self.balance {
                    0
                } else {
                    (self.balance - amount) as u64
                },
            },
        }
    }

    open spec fn handle_spec(self, command: BankAccountCommand) -> Result<
        Seq<BankAccountEvent>,
        UserErrorPayloadModel,
    > {
        match command {
            BankAccountCommand::Open { balance } => if self.opened {
                Err(UserErrorPayloadModel::message_only("account already open"@))
            } else {
                Ok(seq![BankAccountEvent::Opened { balance }])
            },
            BankAccountCommand::Deposit { amount } => if !self.opened {
                Err(UserErrorPayloadModel::message_only("account not open"@))
            } else if self.balance + amount > u64::MAX {
                Err(UserErrorPayloadModel::message_only("balance overflow"@))
            } else {
                Ok(seq![BankAccountEvent::Deposited { amount }])
            },
            BankAccountCommand::Withdraw { amount } => if !self.opened {
                Err(UserErrorPayloadModel::message_only("account not open"@))
            } else if amount > self.balance {
                Err(UserErrorPayloadModel::message_only("insufficient funds"@))
            } else {
                Ok(seq![BankAccountEvent::Withdrew { amount }])
            },
        }
    }

    open spec fn snapshot_version_spec() -> SemanticVersion {
        account_codec_version()
    }

    open spec fn encode_state_spec(self) -> Seq<u8> {
        account_payload(if self.opened { 1 } else { 0 }, self.balance)
    }

    open spec fn decode_state_spec(snapshot_version: SemanticVersion, payload: Seq<u8>) -> Option<
        Self,
    > {
        if snapshot_version != account_codec_version() || payload.len() != 9 {
            None
        } else {
            let balance = spec_u64_from_le_bytes(payload.skip(1));
            if payload[0] == 0 {
                Some(BankAccount { opened: false, balance })
            } else if payload[0] == 1 {
                Some(BankAccount { opened: true, balance })
            } else {
                None
            }
        }
    }

    fn aggregate_type() -> (r: String) {
        "account".to_owned()
    }

    fn initial() -> (r: Self) {
        BankAccount { opened: false, balance: 0 }
    }

    fn apply(&mut self, event: &BankAccountEvent) {
        match event {
            BankAccountEvent::Opened { balance } => {
                self.opened = true;
                self.balance = *balance;
            },
            BankAccountEvent::Deposited { amount } => {
                if *amount > u64::MAX - self.balance {
                    self.balance = u64::MAX;
                } else {
                    self.balance = self.balance + *amount;
                }
            },
            BankAccountEvent::Withdrew { amount } => {
                if *amount > self.balance {
                    self.balance = 0;
                } else {
                    self.balance = self.balance - *amount;
                }
            },
        }
    }

    fn handle(&self, command: &BankAccountCommand) -> (r: Result<
        Vec<BankAccountEvent>,
        AggregateError,
    >) {
        match command {
            BankAccountCommand::Open { balance } => {
                if self.opened {
                    let error = AggregateError::new_user_error("account already open");
                    proof {
                        assert(error matches AggregateError::UserError(p) && (p@
                            =~= UserErrorPayloadModel::message_only("account already open"@)));
                    }
                    return Err(error);
                }
                let mut events = Vec::new();
                events.push(BankAccountEvent::Opened { balance: *balance });
                proof {
                    assert(events@ =~= seq![BankAccountEvent::Opened { balance: *balance }]);
                }
                Ok(events)
            },
            BankAccountCommand::Deposit { amount } => {
                if !self.opened {
                    let error = AggregateError::new_user_error("account not open");
                    proof {
                        assert(error matches AggregateError::UserError(p) && (p@
                            =~= UserErrorPayloadModel::message_only("account not open"@)));
                    }
                    return Err(error);
                }
                if *amount > u64::MAX - self.balance {
                    let error = AggregateError::new_user_error("balance overflow");
                    proof {
                        assert(error matches AggregateError::UserError(p) && (p@
                            =~= UserErrorPayloadModel::message_only("balance overflow"@)));
                    }
                    return Err(error);
                }
                let mut events = Vec::new();
                events.push(BankAccountEvent::Deposited { amount: *amount });
                proof {
                    assert(events@ =~= seq![BankAccountEvent::Deposited { amount: *amount }]);
                }
                Ok(events)
            },
            BankAccountCommand::Withdraw { amount } => {
                if !self.opened {
                    let error = AggregateError::new_user_error("account not open");
                    proof {
                        assert(error matches AggregateError::UserError(p) && (p@
                            =~= UserErrorPayloadModel::message_only("account not open"@)));
                    }
                    return Err(error);
                }
                if *amount > self.balance {
                    let error = AggregateError::new_user_error("insufficient funds");
                    proof {
                        assert(error matches AggregateError::UserError(p) && (p@
                            =~= UserErrorPayloadModel::message_only("insufficient funds"@)));
                    }
                    return Err(error);
                }
                let mut events = Vec::new();
                events.push(BankAccountEvent::Withdrew { amount: *amount });
                proof {
                    assert(events@ =~= seq![BankAccountEvent::Withdrew { amount: *amount }]);
                }
                Ok(events)
            },
        }
    }

    fn snapshot_version() -> (r: SemanticVersion) {
        SemanticVersion::new(1, 0, 0)
    }

    fn encode_state(&self) -> (r: Vec<u8>) {
        let tag: u8 = if self.opened {
            1
        } else {
            0
        };
        let mut payload: Vec<u8> = Vec::new();
        payload.push(tag);
        let mut encoded_balance = u64_to_le_bytes(self.balance);
        payload.append(&mut encoded_balance);
        proof {
            assert(payload@ =~= account_payload(tag, self.balance));
        }
        payload
    }

    fn decode_state(snapshot_version: &SemanticVersion, payload: &[u8]) -> (r: Result<
        Self,
        PersistenceError,
    >) {
        let expected = SemanticVersion::new(1, 0, 0);
        if snapshot_version.major != expected.major || snapshot_version.minor != expected.minor
            || snapshot_version.patch != expected.patch || payload.len() != 9 {
            return Err(
                PersistenceError::Technical("account snapshot failed to decode".to_owned()),
            );
        }
        let tag = payload[0];
        let balance_bytes = slice_subrange(payload, 1, 9);
        let balance = u64_from_le_bytes(balance_bytes);
        proof {
            assert(balance_bytes@ =~= payload@.skip(1));
        }
        if tag == 0 {
            Ok(BankAccount { opened: false, balance })
        } else if tag == 1 {
            Ok(BankAccount { opened: true, balance })
        } else {
            Err(PersistenceError::Technical("account snapshot failed to decode".to_owned()))
        }
    }

    proof fn lemma_state_codec_round_trip(self) {
        lemma_auto_spec_u64_to_from_le_bytes();
        assert(self.encode_state_spec().skip(1) =~= spec_u64_to_le_bytes(self.balance));
    }
}

/// A retired layout of the `Opened` payload: before the tag byte was
/// introduced, the balance stood alone in eight little-endian bytes. This
/// upcaster prepends the tag and advances the record to the current version.
pub struct OpenedRecordUpcaster {}

impl EventUpcaster for OpenedRecordUpcaster {
    open spec fn applicable_spec(
        &self,
        event_type: Seq<char>,
        event_version: SemanticVersion,
    ) -> bool {
        event_type == "Opened"@ && event_version.lt_spec(account_codec_version())
    }

    open spec fn target_version_spec(&self) -> SemanticVersion {
        account_codec_version()
    }

    open spec fn upcast_spec(&self, event: SerializedEventModel) -> SerializedEventModel {
        SerializedEventModel {
            event_version: account_codec_version(),
            payload: seq![0u8] + event.payload,
            ..event
        }
    }

    fn applicable(&self, event_type: &str, event_version: &SemanticVersion) -> (b: bool) {
        let current = SemanticVersion::new(1, 0, 0);
        event_type.to_owned() == "Opened".to_owned() && event_version.lt(&current)
    }

    fn upcast(&self, event: SerializedEvent) -> (r: SerializedEvent) {
        let ghost original = event@;
        let mut payload: Vec<u8> = Vec::new();
        payload.push(0);
        let mut old_payload = event.payload;
        payload.append(&mut old_payload);
        let r = SerializedEvent {
            aggregate_type: event.aggregate_type,
            aggregate_id: event.aggregate_id,
            sequence: event.sequence,
            event_type: event.event_type,
            event_version: SemanticVersion::new(1, 0, 0),
            payload,
            metadata: event.metadata,
        };
        proof {
            assert(r@ =~= self.upcast_spec(original));
        }
        r
    }

    proof fn lemma_applicable_below_target(
        &self,
        event_type: Seq<char>,
        event_version: SemanticVersion,
    ) {
    }

    proof fn lemma_upcast_shape(&self, event: SerializedEventModel) {
    }
}

/// No account upcaster applies at the version the codec writes: freshly
/// committed records pass any chain of them untouched.
pub proof fn lemma_account_chain_matches_codec(chain: Seq<OpenedRecordUpcaster>)
    ensures
        crate::snapshot_store::chain_matches_codec::<BankAccount, OpenedRecordUpcaster>(chain),
{
}

/// The balance as the read side sees it: a mirror of the account state
/// maintained by folding the same events.
#[derive(Debug, Clone, Copy, PartialEq, Eq, Structural)]
pub struct BankAccountView {
    /// Whether the account has been opened.
    pub opened: bool,
    /// The balance after every folded event.
    pub balance: u64,
}

impl Projection<BankAccount> for BankAccountView {
    open spec fn default_spec() -> Self {
        BankAccountView { opened: false, balance: 0 }
    }

    open spec fn update_spec(self, event: BankAccountEvent) -> Self {
        let state = BankAccount { opened: self.opened, balance: self.balance };
        let next = BankAccount::apply_spec(state, event);
        BankAccountView { opened: next.opened, balance: next.balance }
    }

    fn default_view() -> (r: Self) {
        BankAccountView { opened: false, balance: 0 }
    }

    fn update(&mut self, event: &BankAccountEvent) {
        let mut state = BankAccount { opened: self.opened, balance: self.balance };
        state.apply(event);
        self.opened = state.opened;
        self.balance = state.balance;
    }

    fn clone_view(&self) -> (r: Self) {
        BankAccountView { opened: self.opened, balance: self.balance }
    }
}

} // verus!
