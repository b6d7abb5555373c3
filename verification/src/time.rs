use crate::error::ContractError;
use vstd::prelude::*;

verus! {

/// Nanoseconds in one millisecond.
pub const NANOS_PER_MILLI: u64 = 1_000_000;

/// Nanoseconds in one second.
pub const NANOS_PER_SECOND: u64 = 1_000_000_000;

/// A wall-clock instant, in nanoseconds since the epoch.
#[derive(Clone, Copy, Debug, PartialEq, Eq, Structural)]
pub struct Timestamp(pub u64);

impl Timestamp {
    pub fn from_nanos(nanos_since_epoch: u64) -> (t: Timestamp)
        ensures
            t.0 == nanos_since_epoch,
    {
        Timestamp(nanos_since_epoch)
    }

    pub fn from_seconds(seconds_since_epoch: u64) -> (t: Timestamp)
        requires
            seconds_since_epoch * NANOS_PER_SECOND <= u64::MAX,
        ensures
            t.0 == seconds_since_epoch * NANOS_PER_SECOND,
    {
        Timestamp(seconds_since_epoch * NANOS_PER_SECOND)
    }

    pub fn nanos(&self) -> (n: u64)
        ensures
            n == self.0,
    {
        self.0
    }

    pub fn seconds(&self) -> (s: u64)
        ensures
            s == self.0 / NANOS_PER_SECOND,
    {
        self.0 / NANOS_PER_SECOND
    }

    pub fn subsec_nanos(&self) -> (n: u64)
        ensures
            n == self.0 % NANOS_PER_SECOND,
    {
        self.0 % NANOS_PER_SECOND
    }
}

/// The block in which an operation runs: the engine's only clock.
#[derive(Clone, Copy, Debug, PartialEq, Eq, Structural)]
pub struct BlockInfo {
    pub height: u64,
    pub time: Timestamp,
}

/// An instant at which something falls due: a block height, a wall-clock
/// time, or never. Two instants of different finite kinds are not ordered.
#[derive(Clone, Copy, Debug, PartialEq, Eq, Structural)]
pub enum Expiration {
    AtHeight(u64),
    AtTime(Timestamp),
    Never {},
}

impl Expiration {
    /// Whether `block` lies at or after this instant.
    pub open spec fn reached(self, block: BlockInfo) -> bool {
        match self {
            Expiration::AtHeight(height) => block.height >= height,
            Expiration::AtTime(time) => block.time.0 >= time.0,
            Expiration::Never {  } => false,
        }
    }

    /// Whether this instant is strictly later than `other`. `Never` is later
    /// than every finite instant; a height and a time are not ordered.
    pub open spec fn later_than(self, other: Expiration) -> bool {
        match (self, other) {
            (Expiration::AtHeight(h1), Expiration::AtHeight(h2)) => h1 > h2,
            (Expiration::AtTime(t1), Expiration::AtTime(t2)) => t1.0 > t2.0,
            (Expiration::Never {  }, Expiration::Never {  }) => false,
            (Expiration::Never {  }, _) => true,
            _ => false,
        }
    }

    pub fn is_expired(&self, block: &BlockInfo) -> (expired: bool)
        ensures
            expired == self.reached(*block),
    {
        match self {
            Expiration::AtHeight(height) => block.height >= *height,
            Expiration::AtTime(time) => block.time.0 >= time.0,
            Expiration::Never {  } => false,
        }
    }

    /// The instant as it is printed in a response.
    pub fn to_string(&self) -> (text: String)
        ensures
            text@ == crate::text::expiration_text(*self),
    {
        crate::text::expiration_to_string(self)
    }

    pub fn gt(&self, other: &Expiration) -> (later: bool)
        ensures
            later == self.later_than(*other),
    {
        match (self, other) {
            (Expiration::AtHeight(h1), Expiration::AtHeight(h2)) => *h1 > *h2,
            (Expiration::AtTime(t1), Expiration::AtTime(t2)) => t1.0 > t2.0,
            (Expiration::Never {  }, Expiration::Never {  }) => false,
            (Expiration::Never {  }, _) => true,
            _ => false,
        }
    }
}

/// The wall-clock instant `millis` milliseconds after the epoch.
pub open spec fn instant_at(millis: int) -> Expiration {
    Expiration::AtTime(Timestamp((millis * NANOS_PER_MILLI) as u64))
}

/// The instant that `time` milliseconds since the epoch denote, where its
/// nanoseconds fit in 64 bits.
pub open spec fn millis_instant(time: u64) -> Option<Expiration> {
    if time <= u64::MAX / NANOS_PER_MILLI {
        Some(instant_at(time as int))
    } else {
        None
    }
}

/// Converts milliseconds since the epoch to a wall-clock instant. Fails with
/// `InvalidExpiration` exactly when the instant does not fit in 64 bits of
/// nanoseconds.
pub fn millisecond_to_expiration(time: u64) -> (r: Result<Expiration, ContractError>)
    ensures
        match r {
            Ok(e) => millis_instant(time) == Some(e),
            Err(e) => millis_instant(time) is None && e@ == crate::error::ErrorView::InvalidExpiration,
        },
{
    if time > u64::MAX / NANOS_PER_MILLI {
        return Err(ContractError::InvalidExpiration {  });
    }
    Ok(Expiration::AtTime(Timestamp::from_nanos(time * NANOS_PER_MILLI)))
}

/// The current instant of `block`, of the same kind as `model`.
pub open spec fn block_instant(block: BlockInfo, model: Expiration) -> Option<Expiration> {
    match model {
        Expiration::AtTime(_) => Some(Expiration::AtTime(block.time)),
        Expiration::AtHeight(_) => Some(Expiration::AtHeight(block.height)),
        Expiration::Never {  } => None,
    }
}

/// Reads the block's clock in the kind of `model`, so that the two can be
/// compared. `Never` has no kind and gives `None`.
pub fn block_to_expiration(block: &BlockInfo, model: Expiration) -> (r: Option<Expiration>)
    ensures
        r == block_instant(*block, model),
{
    match model {
        Expiration::AtTime(_) => Some(Expiration::AtTime(block.time)),
        Expiration::AtHeight(_) => Some(Expiration::AtHeight(block.height)),
        Expiration::Never {  } => None,
    }
}

} // verus!
