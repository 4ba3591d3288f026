//! Interface for the Sabertooth 2x32.

use vstd::prelude::*;
use crate::binary32::{in_unit_range, Binary32};
use crate::error::Error;
use crate::utils::{channel_exists, channel_fault, ratio_fault};

pub mod packetserial;
pub mod plaintext;

pub use packetserial::{PacketSerial, PacketType, DEFAULT_ADDRESS, DEFAULT_PACKET_TYPE};
pub use plaintext::PlainText;

verus! {

/// Trait exposing the available methods for controlling the Sabertooth 2x32.
/// Note: implementors may also provide additional methods.
///
/// Whatever the protocol, a channel other than 1 or 2 is refused, and so is
/// a ratio beyond one in magnitude; the channel is looked at first.
pub trait Sabertooth2x32 {
    /// Returns the motor channel from a shutdown state to normal operation.
    fn startup(&mut self, channel: usize) -> (r: Result<(), Error>)
        ensures
            !channel_exists(channel) ==> (r matches Err(Error::InvalidInput(msg)) && msg@
                == channel_fault(channel)),
    ;

    /// Shuts off the motor output. Using the shutdown command will put the
    /// motor in a hard brake state.
    fn shutdown(&mut self, channel: usize) -> (r: Result<(), Error>)
        ensures
            !channel_exists(channel) ==> (r matches Err(Error::InvalidInput(msg)) && msg@
                == channel_fault(channel)),
    ;

    /// What setting a speed promises under the protocol at hand: how the
    /// interface after the call, and the result, relate to the interface
    /// before it. An implementation says here what its `set_speed` does;
    /// one that says nothing promises nothing.
    open spec fn speed_set(
        &self,
        after: &Self,
        r: Result<(), Error>,
        channel: usize,
        ratio: Binary32,
    ) -> bool {
        true
    }

    /// Set the speed of the selected motor. `channel` is 1 or 2, `ratio` is
    /// between -1.0 for full backward and 1.0 for full forward (so 0.0 stops
    /// the motor).
    fn set_speed(&mut self, channel: usize, ratio: Binary32) -> (r: Result<(), Error>)
        ensures
            old(self).speed_set(final(self), r, channel, ratio),
            !channel_exists(channel) ==> (r matches Err(Error::InvalidInput(msg)) && msg@
                == channel_fault(channel)),
            channel_exists(channel) && !in_unit_range(ratio@) ==> (r matches Err(
                Error::InvalidInput(msg),
            ) && msg@ == ratio_fault()),
    ;

    /// Get the current speed of the motor, as a ratio between -1.0 and 1.0.
    fn get_speed(&mut self, channel: usize) -> (r: Result<Binary32, Error>)
        ensures
            !channel_exists(channel) ==> (r matches Err(Error::InvalidInput(msg)) && msg@
                == channel_fault(channel)),
    ;

    /// Stop the motors, ie. set both speeds to zero: first that of channel
    /// 1, then that of channel 2. Where the first cannot be set, the second
    /// is not tried, and the error of the first is the result.
    ///
    /// In the contract, `between` is the interface after the first of the
    /// two calls of `set_speed`, and `first` what came of that call.
    fn stop_motors(&mut self) -> (r: Result<(), Error>)
        ensures
            exists|between: &Self, first: Result<(), Error>|
                {
                    &&& #[trigger] old(self).speed_set(between, first, 1, Binary32::of_bits(0))
                    &&& first is Err ==> r == first && &*final(self) == between
                    &&& first is Ok ==> between.speed_set(
                        final(self),
                        r,
                        2,
                        Binary32::of_bits(0),
                    )
                },
    {
        let zero = Binary32::from_bits(0);
        proof {
            zero.lemma_of_bits();
        }
        let first = self.set_speed(1, zero);
        let ghost between: &Self = &*self;
        match first {
            Ok(_) => {},
            Err(e) => {
                assert(old(self).speed_set(between, first, 1, Binary32::of_bits(0)));
                return Err(e);
            },
        }
        let r = self.set_speed(2, zero);
        assert(old(self).speed_set(between, first, 1, Binary32::of_bits(0)));
        r
    }

    /// Set the drive. `ratio` is between -1.0 for full backward and 1.0 for
    /// full forward. Note: both the drive and the turn must have been set at
    /// least once for having an effect.
    fn set_drive(&mut self, ratio: Binary32) -> (r: Result<(), Error>)
        ensures
            !in_unit_range(ratio@) ==> (r matches Err(Error::InvalidInput(msg)) && msg@
                == ratio_fault()),
    ;

    /// Set the turn value. `ratio` is between -1.0 for full left and 1.0 for
    /// full right. Note: both the drive and the turn must have been set at
    /// least once for having an effect.
    fn set_turn(&mut self, ratio: Binary32) -> (r: Result<(), Error>)
        ensures
            !in_unit_range(ratio@) ==> (r matches Err(Error::InvalidInput(msg)) && msg@
                == ratio_fault()),
    ;

    /// Set the power output of the selected motor. `channel` is 1 or 2, and
    /// `ratio` is between -1.0 and 1.0.
    fn set_power(&mut self, channel: usize, ratio: Binary32) -> (r: Result<(), Error>)
        ensures
            !channel_exists(channel) ==> (r matches Err(Error::InvalidInput(msg)) && msg@
                == channel_fault(channel)),
            channel_exists(channel) && !in_unit_range(ratio@) ==> (r matches Err(
                Error::InvalidInput(msg),
            ) && msg@ == ratio_fault()),
    ;

    /// Return the current power output of the motor, as a ratio between -1.0
    /// and 1.0. `channel` is 1 or 2.
    fn get_power(&mut self, channel: usize) -> (r: Result<Binary32, Error>)
        ensures
            !channel_exists(channel) ==> (r matches Err(Error::InvalidInput(msg)) && msg@
                == channel_fault(channel)),
    ;

    /// Set the speed ramping of the motor.
    fn set_ramp(&mut self, channel: usize, ratio: Binary32) -> (r: Result<(), Error>)
        ensures
            !channel_exists(channel) ==> (r matches Err(Error::InvalidInput(msg)) && msg@
                == channel_fault(channel)),
            channel_exists(channel) && !in_unit_range(ratio@) ==> (r matches Err(
                Error::InvalidInput(msg),
            ) && msg@ == ratio_fault()),
    ;

    /// Set the auxiliary output of the channel.
    fn set_aux(&mut self, channel: usize, ratio: Binary32) -> (r: Result<(), Error>)
        ensures
            !channel_exists(channel) ==> (r matches Err(Error::InvalidInput(msg)) && msg@
                == channel_fault(channel)),
            channel_exists(channel) && !in_unit_range(ratio@) ==> (r matches Err(
                Error::InvalidInput(msg),
            ) && msg@ == ratio_fault()),
    ;

    /// Get the battery voltage on the selected motor, in volts.
    fn get_voltage(&mut self, channel: usize) -> (r: Result<Binary32, Error>)
        ensures
            !channel_exists(channel) ==> (r matches Err(Error::InvalidInput(msg)) && msg@
                == channel_fault(channel)),
    ;

    /// Get the motor current in amperes. Positive current values mean energy
    /// is being drawn from the battery, and negative values indicate energy
    /// is being regenerated into the battery. Note: this noisy signal may
    /// vary by several amps, this is normal.
    fn get_current(&mut self, channel: usize) -> (r: Result<Binary32, Error>)
        ensures
            !channel_exists(channel) ==> (r matches Err(Error::InvalidInput(msg)) && msg@
                == channel_fault(channel)),
    ;

    /// Get the temperature of the output transistors for this channel, in
    /// degrees celsius.
    fn get_temperature(&mut self, channel: usize) -> (r: Result<Binary32, Error>)
        ensures
            !channel_exists(channel) ==> (r matches Err(Error::InvalidInput(msg)) && msg@
                == channel_fault(channel)),
    ;
}

} // verus!
