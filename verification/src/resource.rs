//! Hardware resource vocabulary: resource identities and kinds, ownership
//! modes, preferences, and the offers a board or chip package makes.

use vstd::prelude::*;
use crate::text::str_eq;

verus! {

/// Machine-scoped identity of a concrete resource (`mainboard.tim1.ch1`).
#[derive(Debug, Clone, PartialEq, Eq, PartialOrd, Ord, Hash)]
pub struct ResourceId(pub String);

/// The resource type vocabulary.
#[derive(Debug, Clone, Copy, PartialEq, Eq, Hash, Structural)]
pub enum ResourceKind {
    GpioInput,
    GpioOutput,
    GpioAlternate,
    AdcChannel,
    PwmChannel,
    Timer,
    TimerChannel,
    DmaChannel,
    SpiBus,
    I2cBus,
    Uart,
    Can,
    UsbEndpoint,
    InterruptLine,
    MemoryRegion,
    FlashRegion,
    ClockSource,
    PowerOutput,
    VoltageDomain,
    Connector,
}

/// Whether a resource can be shared once claimed.
#[derive(Debug, Clone, Copy, PartialEq, Eq, Structural)]
pub enum Exclusivity {
    /// One owner; any second claim is a conflict.
    Exclusive,
    /// Multiple owners up to the stated limit (0 = unlimited).
    Shared { max_owners: u32 },
}

/// A soft preference; a higher weight is preferred among candidates that
/// satisfy every hard constraint.
#[derive(Debug, Clone, PartialEq, Eq)]
pub struct Preference {
    pub weight: i32,
    pub description: String,
}

/// A concrete resource a board or chip package offers.
#[derive(Debug, Clone, PartialEq, Eq)]
pub struct ResourceOffer {
    pub id: ResourceId,
    pub kind: ResourceKind,
    pub exclusivity: Exclusivity,
    /// Open attributes matched by equality and membership constraints
    /// (`pin: PE11`, `voltage_domain: logic_3v3`).
    pub attributes: Vec<(String, String)>,
}

/// The value of the first attribute named `key`.
pub open spec fn attribute_value(attributes: Seq<(String, String)>, key: Seq<char>) -> Option<
    Seq<char>,
>
    decreases attributes.len(),
{
    if attributes.len() == 0 {
        None
    } else if attributes[0].0@ == key {
        Some(attributes[0].1@)
    } else {
        attribute_value(attributes.drop_first(), key)
    }
}

/// Whether an offer with `offered` ownership meets a requirement that
/// insists on `required`: an exclusive requirement needs an exclusive
/// resource; a shared requirement accepts either.
pub open spec fn ownership_ok(required: Exclusivity, offered: Exclusivity) -> bool {
    match required {
        Exclusivity::Exclusive => offered is Exclusive,
        Exclusivity::Shared { .. } => true,
    }
}

impl ResourceOffer {
    /// The value of the first attribute named `key`.
    pub fn attribute(&self, key: &str) -> (value: Option<&str>)
        ensures
            match value {
                Some(v) => attribute_value(self.attributes@, key@) == Some(v@),
                None => attribute_value(self.attributes@, key@) is None,
            },
    {
        let mut i: usize = 0;
        assert(self.attributes@.subrange(0, self.attributes@.len() as int) =~= self.attributes@);
        while i < self.attributes.len()
            invariant
                i <= self.attributes@.len(),
                attribute_value(self.attributes@, key@) == attribute_value(
                    self.attributes@.subrange(i as int, self.attributes@.len() as int),
                    key@,
                ),
            decreases self.attributes@.len() - i,
        {
            proof {
                let rest = self.attributes@.subrange(i as int, self.attributes@.len() as int);
                assert(rest.drop_first() =~= self.attributes@.subrange(
                    i + 1,
                    self.attributes@.len() as int,
                ));
            }
            if str_eq(self.attributes[i].0.as_str(), key) {
                return Some(self.attributes[i].1.as_str());
            }
            i = i + 1;
        }
        None
    }

    /// An equality constraint: the attribute is present and equal to `value`.
    pub fn satisfies_equality(&self, key: &str, value: &str) -> (met: bool)
        ensures
            met == (attribute_value(self.attributes@, key@) == Some(value@)),
    {
        match self.attribute(key) {
            Some(v) => str_eq(v, value),
            None => false,
        }
    }

    /// A membership constraint: the attribute is present and one of `values`.
    pub fn satisfies_membership(&self, key: &str, values: &Vec<String>) -> (met: bool)
        ensures
            met == (match attribute_value(self.attributes@, key@) {
                Some(v) => exists|i: int| 0 <= i < values@.len() && #[trigger] values@[i]@ == v,
                None => false,
            }),
    {
        match self.attribute(key) {
            Some(v) => {
                let mut i: usize = 0;
                while i < values.len()
                    invariant
                        i <= values@.len(),
                        attribute_value(self.attributes@, key@) == Some(v@),
                        forall|j: int| 0 <= j < i ==> #[trigger] values@[j]@ != v@,
                    decreases values@.len() - i,
                {
                    if str_eq(values[i].as_str(), v) {
                        assert(values@[i as int]@ == v@);
                        return true;
                    }
                    i = i + 1;
                }
                false
            },
            None => false,
        }
    }

    /// An ownership constraint insisting on `mode`.
    pub fn satisfies_ownership(&self, mode: Exclusivity) -> (met: bool)
        ensures
            met == ownership_ok(mode, self.exclusivity),
    {
        match mode {
            Exclusivity::Exclusive => match self.exclusivity {
                Exclusivity::Exclusive => true,
                Exclusivity::Shared { .. } => false,
            },
            Exclusivity::Shared { .. } => true,
        }
    }
}

} // verus!
