//! Interface for the Sabertooth 2x60.

use std::time::Duration;
use vstd::prelude::*;
use crate::binary32::Binary32;
use crate::error::Error;

pub mod packetizedserial;

pub use packetizedserial::PacketizedSerial;

verus! {

/// Possible serial baudrates of the device.
#[derive(Debug, Clone, Copy, PartialEq, PartialOrd)]
pub enum Baudrate {
    B2400,
    B9600,
    B19200,
    B38400,
    B115200,
}

/// Trait exposing the available methods for controlling the Sabertooth 2x60.
pub trait Sabertooth2x60 {
    /// Set the drive value for a motor. `motor` is 1 or 2, and `ratio` is a
    /// ratio between -1.0 for full backward and 1.0 for full forward.
    fn set_drive_motor(&mut self, motor: usize, ratio: Binary32) -> Result<(), Error>;

    /// Set the minimum voltage, between 6 and 30 volts. If the battery
    /// voltage drops below this value the output will be shut down. This
    /// value is not persistant and must be set each run.
    fn set_min_voltage(&mut self, volts: Binary32) -> Result<(), Error>;

    /// Set the maximum voltage. If the battery voltage increases above this
    /// value the motor will be put into a hard brake until the voltage
    /// drops below the set point again.
    fn set_max_voltage(&mut self, volts: Binary32) -> Result<(), Error>;

    /// Set the drive value in mixed mode. `ratio` is between -1.0 for full
    /// backward and 1.0 for full forward. The Sabertooth requires valid
    /// data for both drive mixed and turn mixed before it begins to
    /// operate. Caution, avoid mixing mixed mode commands with independant
    /// mode commands.
    fn set_drive_mixed(&mut self, ratio: Binary32) -> Result<(), Error>;

    /// Set the turn value in mixed mode. `ratio` is between -1.0 for full
    /// left and 1.0 for full right. The Sabertooth requires valid data for
    /// both drive mixed and turn mixed before it begins to operate.
    /// Caution, avoid mixing mixed mode commands with independant mode
    /// commands.
    fn set_turn_mixed(&mut self, ratio: Binary32) -> Result<(), Error>;

    /// Set the time after which the motor driver will shut off if it has
    /// not received a command. 0 will disable the timeout. This setting is
    /// not persistent between power cycles.
    fn set_serial_timeout(&mut self, timeout: Duration) -> Result<(), Error>;

    /// Set the serial baudrate. Valid values are: 2400, 9600 (default),
    /// 19200, 38400 and 115200. This setting does persist between power
    /// cycles.
    fn set_baudrate(&mut self, baudrate: Baudrate) -> Result<(), Error>;

    /// Set the speed ramping value, from the time that a full ramp is to
    /// take, as the manual relates the two. From the manual it is not
    /// clear if zero is an accepted value; ramp times from 25.6
    /// milliseconds to 16.787 seconds are.
    fn set_ramp(&mut self, ramp: Duration) -> Result<(), Error>;

    /// Set the deadband value. `ratio` is the deadband ratio between 0.0
    /// and 1.0.
    fn set_deadband(&mut self, ratio: Binary32) -> Result<(), Error>;

    /// Get error conditions.
    fn get_errors(&mut self) -> Result<ErrorConditions, Error>;

    /// Get the reading of the thermistor of a motor, as the device reports
    /// it: the voltage across the thermistor, in steps of 5/255 volts.
    fn get_thermistor(&mut self, motor: usize) -> Result<u8, Error>;

    /// Get the battery voltage in volts.
    fn get_voltage(&mut self) -> Result<Binary32, Error>;

    /// Get the motor duty-cycle, as the device reports it.
    fn get_duty_cycle(&mut self, motor: usize) -> Result<Binary32, Error>;
}

/// Whether bit number `bit` of `value` is set.
pub open spec fn flag(value: u8, bit: u8) -> bool {
    value & (1u8 << bit) != 0
}

/// Combination of error conditions returned by the device.
#[derive(Debug, Clone, Copy, PartialEq)]
pub struct ErrorConditions(pub u8);

impl ErrorConditions {
    /// The raw value returned by the device.
    #[inline]
    pub fn value(&self) -> (v: u8)
        ensures
            v == self.0,
    {
        self.0
    }

    /// If there is no error condition.
    #[inline]
    pub fn is_ok(&self) -> (b: bool)
        ensures
            b == (self.0 == 0),
    {
        self.0 == 0
    }

    /// Overcurrent.
    #[inline]
    pub fn overcurrent(&self) -> (b: bool)
        ensures
            b == flag(self.0, 0),
    {
        (self.0 & (1 << 0)) != 0
    }

    /// Overvoltage.
    #[inline]
    pub fn overvoltage(&self) -> (b: bool)
        ensures
            b == flag(self.0, 1),
    {
        (self.0 & (1 << 1)) != 0
    }

    /// Overtemperature.
    #[inline]
    pub fn overtemperature(&self) -> (b: bool)
        ensures
            b == flag(self.0, 2),
    {
        (self.0 & (1 << 2)) != 0
    }

    /// Undervoltage.
    #[inline]
    pub fn undervoltage(&self) -> (b: bool)
        ensures
            b == flag(self.0, 3),
    {
        (self.0 & (1 << 3)) != 0
    }

    /// The motor 1 is depowered.
    #[inline]
    pub fn deadband_1(&self) -> (b: bool)
        ensures
            b == flag(self.0, 5),
    {
        (self.0 & (1 << 5)) != 0
    }

    /// The motor 2 is depowered.
    #[inline]
    pub fn deadband_2(&self) -> (b: bool)
        ensures
            b == flag(self.0, 6),
    {
        (self.0 & (1 << 6)) != 0
    }

    /// In timeout.
    #[inline]
    pub fn timeout(&self) -> (b: bool)
        ensures
            b == flag(self.0, 7),
    {
        (self.0 & (1 << 7)) != 0
    }
}

} // verus!
