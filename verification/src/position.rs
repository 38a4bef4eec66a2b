//! Staking positions, the events that move them, and the state machine that
//! says which event moves which position where.

use vstd::prelude::*;
use vstd::string::*;
use crate::numeric::Amount;

verus! {

/// A 20-byte account identifier, held as the big-endian number it spells:
/// `hi` is the first four bytes, `lo` the other sixteen.
#[derive(Clone, Copy, Debug, PartialEq, Eq, Structural)]
pub struct Address {
    pub hi: u32,
    pub lo: u128,
}

impl View for Address {
    type V = int;

    open spec fn view(&self) -> int {
        self.hi as int * 0x1_0000_0000_0000_0000_0000_0000_0000_0000int + self.lo as int
    }
}

impl Address {
    /// The address with the given first four and last sixteen bytes.
    pub fn new(hi: u32, lo: u128) -> (r: Address)
        ensures
            r.hi == hi,
            r.lo == lo,
    {
        Address { hi, lo }
    }

    /// Whether this address comes before the other in ascending order, which
    /// is the order of the lower-case hexadecimal texts.
    pub fn lt(&self, other: &Address) -> (r: bool)
        ensures
            r == (self@ < other@),
    {
        self.hi < other.hi || (self.hi == other.hi && self.lo < other.lo)
    }
}

/// Two addresses with one value are the same address.
pub proof fn lemma_address_value_unique(a: Address, b: Address)
    requires
        a@ == b@,
    ensures
        a == b,
{
}

/// A 32-byte transaction hash, as two big-endian halves.
#[derive(Clone, Copy, Debug, PartialEq, Eq, Structural)]
pub struct TxHash {
    pub hi: u128,
    pub lo: u128,
}

/// Where a position stands in its life.
#[derive(Clone, Copy, Debug, PartialEq, Eq, Structural)]
pub enum PositionStatus {
    /// Staked and earning.
    Active,
    /// Withdrawal initiated; no longer earning.
    Unstaking,
    /// Withdrawn; nothing moves it again.
    Withdrawn,
}

/// One stake of one user, identified by the user and the nonce.
#[derive(Clone, Copy, Debug, PartialEq, Eq)]
pub struct Position {
    pub user: Address,
    pub nonce: u64,
    /// Amount in wei.
    pub amount: Amount,
    pub deposit_timestamp: u64,
    pub status: PositionStatus,
    pub withdrawal_initiated_timestamp: Option<u64>,
    /// The block of the event that created the position.
    pub block_number: u64,
}

impl Position {
    /// The key under which the position is stored.
    pub open spec fn key(&self) -> (Address, u64) {
        (self.user, self.nonce)
    }

    /// The withdrawal timestamp is set exactly when the position is not
    /// active.
    pub open spec fn well_formed(&self) -> bool {
        (self.status == PositionStatus::Active) <==> (self.withdrawal_initiated_timestamp is None)
    }

    /// Whether the position is stored under the given user and nonce.
    pub fn has_key(&self, user: &Address, nonce: u64) -> (r: bool)
        ensures
            r == (self.key() == (*user, nonce)),
    {
        self.user.hi == user.hi && self.user.lo == user.lo && self.nonce == nonce
    }
}

/// The four kinds of event the staking contract emits.
#[derive(Clone, Copy, Debug, PartialEq, Eq, Structural)]
pub enum EventType {
    Deposit,
    InitiateWithdraw,
    Withdraw,
    Restake,
}

/// A decoded event of the staking contract.
#[derive(Clone, Copy, Debug, PartialEq, Eq)]
pub enum StakingEvent {
    Deposit { user: Address, amount: Amount, nonce: u64, timestamp: u64 },
    InitiateWithdraw { user: Address, nonce: u64, unlocks_at: u64, timestamp: u64 },
    Withdraw { user: Address, amount: Amount, nonce: u64, timestamp: u64 },
    Restake { user: Address, nonce: u64, amount: Amount, timestamp: u64 },
}

impl StakingEvent {
    pub open spec fn spec_event_type(&self) -> EventType {
        match *self {
            StakingEvent::Deposit { .. } => EventType::Deposit,
            StakingEvent::InitiateWithdraw { .. } => EventType::InitiateWithdraw,
            StakingEvent::Withdraw { .. } => EventType::Withdraw,
            StakingEvent::Restake { .. } => EventType::Restake,
        }
    }

    pub open spec fn spec_user(&self) -> Address {
        match *self {
            StakingEvent::Deposit { user, .. } => user,
            StakingEvent::InitiateWithdraw { user, .. } => user,
            StakingEvent::Withdraw { user, .. } => user,
            StakingEvent::Restake { user, .. } => user,
        }
    }

    pub open spec fn spec_nonce(&self) -> u64 {
        match *self {
            StakingEvent::Deposit { nonce, .. } => nonce,
            StakingEvent::InitiateWithdraw { nonce, .. } => nonce,
            StakingEvent::Withdraw { nonce, .. } => nonce,
            StakingEvent::Restake { nonce, .. } => nonce,
        }
    }

    pub open spec fn spec_timestamp(&self) -> u64 {
        match *self {
            StakingEvent::Deposit { timestamp, .. } => timestamp,
            StakingEvent::InitiateWithdraw { timestamp, .. } => timestamp,
            StakingEvent::Withdraw { timestamp, .. } => timestamp,
            StakingEvent::Restake { timestamp, .. } => timestamp,
        }
    }

    /// The amount the event carries; an initiated withdrawal carries none.
    pub open spec fn spec_amount(&self) -> Option<Amount> {
        match *self {
            StakingEvent::Deposit { amount, .. } => Some(amount),
            StakingEvent::InitiateWithdraw { .. } => None,
            StakingEvent::Withdraw { amount, .. } => Some(amount),
            StakingEvent::Restake { amount, .. } => Some(amount),
        }
    }

    /// The key of the position the event is about.
    pub open spec fn key(&self) -> (Address, u64) {
        (self.spec_user(), self.spec_nonce())
    }

    #[verifier::when_used_as_spec(spec_event_type)]
    pub fn event_type(&self) -> (r: EventType)
        ensures
            r == self.spec_event_type(),
    {
        match self {
            StakingEvent::Deposit { .. } => EventType::Deposit,
            StakingEvent::InitiateWithdraw { .. } => EventType::InitiateWithdraw,
            StakingEvent::Withdraw { .. } => EventType::Withdraw,
            StakingEvent::Restake { .. } => EventType::Restake,
        }
    }

    #[verifier::when_used_as_spec(spec_user)]
    pub fn user(&self) -> (r: Address)
        ensures
            r == self.spec_user(),
    {
        match self {
            StakingEvent::Deposit { user, .. } => *user,
            StakingEvent::InitiateWithdraw { user, .. } => *user,
            StakingEvent::Withdraw { user, .. } => *user,
            StakingEvent::Restake { user, .. } => *user,
        }
    }

    #[verifier::when_used_as_spec(spec_nonce)]
    pub fn nonce(&self) -> (r: u64)
        ensures
            r == self.spec_nonce(),
    {
        match self {
            StakingEvent::Deposit { nonce, .. } => *nonce,
            StakingEvent::InitiateWithdraw { nonce, .. } => *nonce,
            StakingEvent::Withdraw { nonce, .. } => *nonce,
            StakingEvent::Restake { nonce, .. } => *nonce,
        }
    }

    #[verifier::when_used_as_spec(spec_timestamp)]
    pub fn timestamp(&self) -> (r: u64)
        ensures
            r == self.spec_timestamp(),
    {
        match self {
            StakingEvent::Deposit { timestamp, .. } => *timestamp,
            StakingEvent::InitiateWithdraw { timestamp, .. } => *timestamp,
            StakingEvent::Withdraw { timestamp, .. } => *timestamp,
            StakingEvent::Restake { timestamp, .. } => *timestamp,
        }
    }

    #[verifier::when_used_as_spec(spec_amount)]
    pub fn amount(&self) -> (r: Option<Amount>)
        ensures
            r == self.spec_amount(),
    {
        match self {
            StakingEvent::Deposit { amount, .. } => Some(*amount),
            StakingEvent::InitiateWithdraw { .. } => None,
            StakingEvent::Withdraw { amount, .. } => Some(*amount),
            StakingEvent::Restake { amount, .. } => Some(*amount),
        }
    }
}

/// A decoded event together with where on the chain it was found.
#[derive(Clone, Copy, Debug, PartialEq, Eq)]
pub struct LogEntry {
    pub event: StakingEvent,
    pub block_number: u64,
    pub tx_hash: TxHash,
}

/// Why the state machine refused an event.
#[derive(Clone, Copy, Debug, PartialEq, Eq, Structural)]
pub enum Rejection {
    /// The event is not a deposit and no position has its key.
    Orphan,
    /// A deposit for a key that already has a position.
    DuplicateKey,
    /// A withdrawal of an active position, which never initiated one.
    SkippedUnstaking,
    /// A restake of an active position.
    NotUnstaking,
    /// A second initiation on a position that is already unstaking.
    AlreadyUnstaking,
    /// The position is withdrawn, and nothing moves it again.
    AlreadyWithdrawn,
}

/// The position a deposit creates.
pub open spec fn opened_position(log: LogEntry) -> Position {
    Position {
        user: log.event.spec_user(),
        nonce: log.event.spec_nonce(),
        amount: log.event.spec_amount().unwrap(),
        deposit_timestamp: log.event.spec_timestamp(),
        status: PositionStatus::Active,
        withdrawal_initiated_timestamp: None,
        block_number: log.block_number,
    }
}

/// The transition table: what an event makes of the position stored under
/// its key, or why it is refused. Only the event's kind and timestamp and the
/// position's status decide; nothing else is read.
pub open spec fn transition_spec(current: Option<Position>, log: LogEntry) -> Result<
    Position,
    Rejection,
> {
    match (current, log.event.spec_event_type()) {
        (None, EventType::Deposit) => Ok(opened_position(log)),
        (None, _) => Err(Rejection::Orphan),
        (Some(_), EventType::Deposit) => Err(Rejection::DuplicateKey),
        (Some(p), EventType::InitiateWithdraw) => match p.status {
            PositionStatus::Active => Ok(
                Position {
                    status: PositionStatus::Unstaking,
                    withdrawal_initiated_timestamp: Some(log.event.spec_timestamp()),
                    ..p
                },
            ),
            PositionStatus::Unstaking => Err(Rejection::AlreadyUnstaking),
            PositionStatus::Withdrawn => Err(Rejection::AlreadyWithdrawn),
        },
        (Some(p), EventType::Withdraw) => match p.status {
            PositionStatus::Active => Err(Rejection::SkippedUnstaking),
            PositionStatus::Unstaking => Ok(Position { status: PositionStatus::Withdrawn, ..p }),
            PositionStatus::Withdrawn => Err(Rejection::AlreadyWithdrawn),
        },
        (Some(p), EventType::Restake) => match p.status {
            PositionStatus::Active => Err(Rejection::NotUnstaking),
            PositionStatus::Unstaking => Ok(
                Position {
                    status: PositionStatus::Active,
                    deposit_timestamp: log.event.spec_timestamp(),
                    withdrawal_initiated_timestamp: None,
                    ..p
                },
            ),
            PositionStatus::Withdrawn => Err(Rejection::AlreadyWithdrawn),
        },
    }
}

/// Applies one event to the position stored under its key (`None` where there
/// is none) and gives the position's next state, or the reason for refusing.
pub fn transition(current: Option<Position>, log: &LogEntry) -> (r: Result<Position, Rejection>)
    ensures
        r == transition_spec(current, *log),
{
    match current {
        None => match log.event {
            StakingEvent::Deposit { user, amount, nonce, timestamp } => Ok(
                Position {
                    user,
                    nonce,
                    amount,
                    deposit_timestamp: timestamp,
                    status: PositionStatus::Active,
                    withdrawal_initiated_timestamp: None,
                    block_number: log.block_number,
                },
            ),
            _ => Err(Rejection::Orphan),
        },
        Some(p) => match log.event {
            StakingEvent::Deposit { .. } => Err(Rejection::DuplicateKey),
            StakingEvent::InitiateWithdraw { timestamp, .. } => match p.status {
                PositionStatus::Active => Ok(
                    Position {
                        user: p.user,
                        nonce: p.nonce,
                        amount: p.amount,
                        deposit_timestamp: p.deposit_timestamp,
                        status: PositionStatus::Unstaking,
                        withdrawal_initiated_timestamp: Some(timestamp),
                        block_number: p.block_number,
                    },
                ),
                PositionStatus::Unstaking => Err(Rejection::AlreadyUnstaking),
                PositionStatus::Withdrawn => Err(Rejection::AlreadyWithdrawn),
            },
            StakingEvent::Withdraw { .. } => match p.status {
                PositionStatus::Active => Err(Rejection::SkippedUnstaking),
                PositionStatus::Unstaking => Ok(
                    Position {
                        user: p.user,
                        nonce: p.nonce,
                        amount: p.amount,
                        deposit_timestamp: p.deposit_timestamp,
                        status: PositionStatus::Withdrawn,
                        withdrawal_initiated_timestamp: p.withdrawal_initiated_timestamp,
                        block_number: p.block_number,
                    },
                ),
                PositionStatus::Withdrawn => Err(Rejection::AlreadyWithdrawn),
            },
            StakingEvent::Restake { timestamp, .. } => match p.status {
                PositionStatus::Active => Err(Rejection::NotUnstaking),
                PositionStatus::Unstaking => Ok(
                    Position {
                        user: p.user,
                        nonce: p.nonce,
                        amount: p.amount,
                        deposit_timestamp: timestamp,
                        status: PositionStatus::Active,
                        withdrawal_initiated_timestamp: None,
                        block_number: p.block_number,
                    },
                ),
                PositionStatus::Withdrawn => Err(Rejection::AlreadyWithdrawn),
            },
        },
    }
}

/// An accepted event never changes who a position belongs to, its nonce, its
/// amount or the block that created it.
pub proof fn lemma_transition_keeps_identity(current: Position, log: LogEntry)
    requires
        transition_spec(Some(current), log) is Ok,
    ensures
        transition_spec(Some(current), log).unwrap().key() == current.key(),
        transition_spec(Some(current), log).unwrap().amount == current.amount,
        transition_spec(Some(current), log).unwrap().block_number == current.block_number,
{
}

/// A position moves only from active to unstaking, from unstaking to
/// withdrawn, or from unstaking back to active; a withdrawn position
/// accepts no event.
pub proof fn lemma_transition_lifecycle(current: Position, log: LogEntry)
    ensures
        current.status == PositionStatus::Withdrawn ==> transition_spec(Some(current), log) is Err,
        transition_spec(Some(current), log) matches Ok(next) ==> {
            ||| (current.status == PositionStatus::Active && next.status
                == PositionStatus::Unstaking)
            ||| (current.status == PositionStatus::Unstaking && next.status
                == PositionStatus::Withdrawn)
            ||| (current.status == PositionStatus::Unstaking && next.status
                == PositionStatus::Active)
        },
{
}

/// What the state machine creates is well formed, and what it makes of a
/// well-formed position is well formed again; an accepted deposit is stored
/// under the event's key.
pub proof fn lemma_transition_well_formed(current: Option<Position>, log: LogEntry)
    requires
        current matches Some(p) ==> p.well_formed(),
    ensures
        transition_spec(current, log) matches Ok(next) ==> next.well_formed(),
        current is None && transition_spec(current, log) is Ok ==> transition_spec(
            current,
            log,
        ).unwrap().key() == log.event.key(),
{
}

/// The name under which a status is stored.
pub open spec fn status_text(status: PositionStatus) -> Seq<char> {
    match status {
        PositionStatus::Active => "active"@,
        PositionStatus::Unstaking => "unstaking"@,
        PositionStatus::Withdrawn => "withdrawn"@,
    }
}

/// The status that a stored name stands for, if it is one of the three.
pub open spec fn status_of_text(t: Seq<char>) -> Option<PositionStatus> {
    if t == "active"@ {
        Some(PositionStatus::Active)
    } else if t == "unstaking"@ {
        Some(PositionStatus::Unstaking)
    } else if t == "withdrawn"@ {
        Some(PositionStatus::Withdrawn)
    } else {
        None
    }
}

/// The name under which a kind of event is recorded.
pub open spec fn event_type_text(t: EventType) -> Seq<char> {
    match t {
        EventType::Deposit => "Deposit"@,
        EventType::InitiateWithdraw => "InitiateWithdraw"@,
        EventType::Withdraw => "Withdraw"@,
        EventType::Restake => "RestakeFromWithdrawalInitiated"@,
    }
}

/// Whether two texts are the same.
pub fn same_text(a: &str, b: &str) -> (r: bool)
    ensures
        r == (a@ == b@),
{
    let x = String::from_str(a);
    let y = String::from_str(b);
    x == y
}

impl PositionStatus {
    /// The name under which the status is stored.
    pub fn as_text(&self) -> (r: &'static str)
        ensures
            r@ == status_text(*self),
    {
        match self {
            PositionStatus::Active => "active",
            PositionStatus::Unstaking => "unstaking",
            PositionStatus::Withdrawn => "withdrawn",
        }
    }

    /// The status that a stored name stands for, if it is one of the three.
    pub fn from_text(text: &str) -> (r: Option<PositionStatus>)
        ensures
            r == status_of_text(text@),
    {
        if same_text(text, "active") {
            Some(PositionStatus::Active)
        } else if same_text(text, "unstaking") {
            Some(PositionStatus::Unstaking)
        } else if same_text(text, "withdrawn") {
            Some(PositionStatus::Withdrawn)
        } else {
            None
        }
    }
}

impl EventType {
    /// The name under which the kind of event is recorded.
    pub fn name(&self) -> (r: &'static str)
        ensures
            r@ == event_type_text(*self),
    {
        match self {
            EventType::Deposit => "Deposit",
            EventType::InitiateWithdraw => "InitiateWithdraw",
            EventType::Withdraw => "Withdraw",
            EventType::Restake => "RestakeFromWithdrawalInitiated",
        }
    }
}

/// Every status is read back from its name.
pub proof fn lemma_status_text_round_trip(status: PositionStatus)
    ensures
        status_of_text(status_text(status)) == Some(status),
{
    reveal_strlit("active");
    reveal_strlit("unstaking");
    reveal_strlit("withdrawn");
    assert("active"@.len() == 6);
    assert("unstaking"@.len() == 9);
    assert("withdrawn"@[0] == 'w');
    assert("unstaking"@[0] == 'u');
}

} // verus!
