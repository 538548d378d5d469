use vstd::prelude::*;

use crate::level::{level_of, parse_level, LevelError};

verus! {

/// A brightness reading of one device: its current level over its maximum.
#[derive(Clone, Copy, Debug, PartialEq, Eq, Structural)]
pub struct Fraction {
    pub current: u64,
    pub maximum: u64,
}

/// The whole percentage of `current / maximum`, rounded toward zero and
/// saturated to what a byte holds (a reading above its maximum is not clamped
/// to 100).
pub open spec fn percent_of(current: nat, maximum: nat) -> nat
    recommends
        maximum > 0,
{
    let p = current * 100 / maximum;
    if p > 255 {
        255
    } else {
        p
    }
}

impl Fraction {
    pub open spec fn wf(&self) -> bool {
        self.maximum > 0
    }

    /// A reading; there is none of a device whose maximum is zero.
    pub fn new(current: u64, maximum: u64) -> (r: Option<Fraction>)
        ensures
            r == (if maximum > 0 {
                Some(Fraction { current, maximum })
            } else {
                None::<Fraction>
            }),
    {
        if maximum > 0 {
            Some(Fraction { current, maximum })
        } else {
            None
        }
    }

    /// The percentage that a notification shows for this reading.
    pub fn percent(&self) -> (r: u8)
        requires
            self.wf(),
        ensures
            r as nat == percent_of(self.current as nat, self.maximum as nat),
    {
        let scaled = self.current as u128 * 100;
        let p = scaled / self.maximum as u128;
        if p > 255 {
            255
        } else {
            p as u8
        }
    }
}

/// Why a change of a device gives no reading.
#[derive(Clone, Copy, Debug, PartialEq, Eq, Structural)]
pub enum ReadError {
    /// The brightness file does not hold a level.
    Current(LevelError),
    /// The max_brightness file does not hold a level.
    Maximum(LevelError),
    /// The device's maximum is zero.
    ZeroMaximum,
}

/// What the texts of a device's brightness and max_brightness files give.
pub open spec fn fraction_of(current_text: Seq<u8>, maximum_text: Seq<u8>) -> Result<
    Fraction,
    ReadError,
> {
    match level_of(current_text) {
        Err(e) => Err(ReadError::Current(e)),
        Ok(current) => match level_of(maximum_text) {
            Err(e) => Err(ReadError::Maximum(e)),
            Ok(maximum) => if maximum == 0 {
                Err(ReadError::ZeroMaximum)
            } else {
                Ok(Fraction { current, maximum })
            },
        },
    }
}

/// Reads a device's brightness from the texts of its brightness and
/// max_brightness files.
pub fn read_fraction(current_text: &[u8], maximum_text: &[u8]) -> (r: Result<Fraction, ReadError>)
    ensures
        r == fraction_of(current_text@, maximum_text@),
        r matches Ok(f) ==> f.wf(),
{
    let current = match parse_level(current_text) {
        Ok(v) => v,
        Err(e) => {
            return Err(ReadError::Current(e));
        },
    };
    let maximum = match parse_level(maximum_text) {
        Ok(v) => v,
        Err(e) => {
            return Err(ReadError::Maximum(e));
        },
    };
    match Fraction::new(current, maximum) {
        Some(f) => Ok(f),
        None => Err(ReadError::ZeroMaximum),
    }
}

/// A reading of a device whose level does not exceed its maximum shows as
/// the percentage rounded down, between 0 and 100.
pub proof fn lemma_percent_in_range(current: nat, maximum: nat)
    requires
        0 < maximum,
        current <= maximum,
    ensures
        percent_of(current, maximum) == current * 100 / maximum,
        percent_of(current, maximum) <= 100,
        percent_of(current, maximum) * maximum <= current * 100 < (percent_of(current, maximum)
            + 1) * maximum,
{
    let p = current * 100 / maximum;
    assert(p <= 100) by (nonlinear_arith)
        requires
            0 < maximum,
            current <= maximum,
            p == current * 100 / maximum,
    ;
    assert(p * maximum <= current * 100 < (p + 1) * maximum) by (nonlinear_arith)
        requires
            0 < maximum,
            p == current * 100 / maximum,
    ;
}

} // verus!
