//! Levels and properties of the pins of a cluster.

use vstd::prelude::*;

use crate::protocol::request::BiasMode;
use crate::protocol::request::DriveMode;
use crate::protocol::request::EdgeMode;

verus! {

/// What a pin is asked to be.
#[derive(Debug, Clone, Copy, PartialEq, Eq, Structural)]
pub enum GPIOPinConfig {
    Input { bias: BiasMode },
    Output { drive: DriveMode },
    Trigger { edge: EdgeMode },
}

/// Level of a pin.
#[derive(Debug, Clone, Copy, PartialEq, Eq, Structural)]
pub enum PinLevel {
    Low,
    High,
}

impl vstd::std_specs::convert::FromSpecImpl<u8> for PinLevel {
    open spec fn obeys_from_spec() -> bool {
        true
    }

    open spec fn from_spec(value: u8) -> PinLevel {
        if value == 0 {
            PinLevel::Low
        } else {
            PinLevel::High
        }
    }
}

impl From<u8> for PinLevel {
    fn from(value: u8) -> (level: PinLevel) {
        if value == 0 {
            PinLevel::Low
        } else {
            PinLevel::High
        }
    }
}

/// The bit that stands for a level.
pub open spec fn level_bit(level: PinLevel) -> u8 {
    match level {
        PinLevel::Low => 0,
        PinLevel::High => 1,
    }
}

impl vstd::std_specs::convert::FromSpecImpl<PinLevel> for u8 {
    open spec fn obeys_from_spec() -> bool {
        true
    }

    open spec fn from_spec(value: PinLevel) -> u8 {
        level_bit(value)
    }
}

impl From<PinLevel> for u8 {
    fn from(value: PinLevel) -> (bit: u8) {
        match value {
            PinLevel::Low => 0,
            PinLevel::High => 1,
        }
    }
}

/// What a pin is.
#[derive(Debug, Clone, Copy, PartialEq, Eq, Structural)]
pub enum GPIOProperties {
    Input(GPIOInputProperties),
    Output(GPIOOutputProperties),
}

/// What an input pin is.
#[derive(Debug, Clone, Copy, PartialEq, Eq, Structural)]
pub struct GPIOInputProperties {
    pub bias: PropertyBiasMode,
    pub event: PropertyEventMode,
}

/// What an output pin is.
#[derive(Debug, Clone, Copy, PartialEq, Eq, Structural)]
pub struct GPIOOutputProperties {
    pub drive: PropertyDriveMode,
}

/// Bias of an input pin.
#[derive(Debug, Clone, Copy, PartialEq, Eq, Structural)]
pub enum PropertyBiasMode {
    Disabled,
    PullUp,
    PullDown,
}

/// Edges that an input pin reports.
#[derive(Debug, Clone, Copy, PartialEq, Eq, Structural)]
pub enum PropertyEventMode {
    NoEvent,
    Rising,
    Falling,
    Both,
}

/// Drive of an output pin.
#[derive(Debug, Clone, Copy, PartialEq, Eq, Structural)]
pub enum PropertyDriveMode {
    PushPull,
    OpenDrain,
    OpenSource,
}

impl vstd::std_specs::convert::FromSpecImpl<BiasMode> for PropertyBiasMode {
    open spec fn obeys_from_spec() -> bool {
        true
    }

    open spec fn from_spec(bias: BiasMode) -> PropertyBiasMode {
        match bias {
            BiasMode::PullUp => PropertyBiasMode::PullUp,
            BiasMode::PullDown => PropertyBiasMode::PullDown,
            _ => PropertyBiasMode::Disabled,
        }
    }
}

impl From<BiasMode> for PropertyBiasMode {
    fn from(bias: BiasMode) -> (mode: PropertyBiasMode) {
        match bias {
            BiasMode::PullUp => PropertyBiasMode::PullUp,
            BiasMode::PullDown => PropertyBiasMode::PullDown,
            BiasMode::AsIs | BiasMode::Disabled => PropertyBiasMode::Disabled,
        }
    }
}

impl vstd::std_specs::convert::FromSpecImpl<DriveMode> for PropertyDriveMode {
    open spec fn obeys_from_spec() -> bool {
        true
    }

    open spec fn from_spec(drive: DriveMode) -> PropertyDriveMode {
        match drive {
            DriveMode::PushPull => PropertyDriveMode::PushPull,
            DriveMode::OpenDrain => PropertyDriveMode::OpenDrain,
            DriveMode::OpenSource => PropertyDriveMode::OpenSource,
        }
    }
}

impl From<DriveMode> for PropertyDriveMode {
    fn from(drive: DriveMode) -> (mode: PropertyDriveMode) {
        match drive {
            DriveMode::PushPull => PropertyDriveMode::PushPull,
            DriveMode::OpenDrain => PropertyDriveMode::OpenDrain,
            DriveMode::OpenSource => PropertyDriveMode::OpenSource,
        }
    }
}

impl vstd::std_specs::convert::FromSpecImpl<EdgeMode> for PropertyEventMode {
    open spec fn obeys_from_spec() -> bool {
        true
    }

    open spec fn from_spec(edge: EdgeMode) -> PropertyEventMode {
        match edge {
            EdgeMode::Rising => PropertyEventMode::Rising,
            EdgeMode::Falling => PropertyEventMode::Falling,
            EdgeMode::Both => PropertyEventMode::Both,
        }
    }
}

impl From<EdgeMode> for PropertyEventMode {
    fn from(edge: EdgeMode) -> (mode: PropertyEventMode) {
        match edge {
            EdgeMode::Rising => PropertyEventMode::Rising,
            EdgeMode::Falling => PropertyEventMode::Falling,
            EdgeMode::Both => PropertyEventMode::Both,
        }
    }
}

impl GPIOProperties {
    /// Properties of an input pin.
    pub fn input(bias: PropertyBiasMode, event: PropertyEventMode) -> (properties: Self)
        ensures
            properties == GPIOProperties::Input(GPIOInputProperties { bias, event }),
    {
        GPIOProperties::Input(GPIOInputProperties { bias, event })
    }

    /// Properties of an output pin.
    pub fn output(drive: PropertyDriveMode) -> (properties: Self)
        ensures
            properties == GPIOProperties::Output(GPIOOutputProperties { drive }),
    {
        GPIOProperties::Output(GPIOOutputProperties { drive })
    }

    /// The properties that a configuration asks for: an input reports no edges, a trigger
    /// has no bias.
    pub fn from_config(config: &GPIOPinConfig) -> (properties: Self)
        ensures
            properties == match *config {
                GPIOPinConfig::Input { bias } => GPIOProperties::Input(
                    GPIOInputProperties {
                        bias: vstd::std_specs::convert::FromSpec::from_spec(bias),
                        event: PropertyEventMode::NoEvent,
                    },
                ),
                GPIOPinConfig::Trigger { edge } => GPIOProperties::Input(
                    GPIOInputProperties {
                        bias: PropertyBiasMode::Disabled,
                        event: vstd::std_specs::convert::FromSpec::from_spec(edge),
                    },
                ),
                GPIOPinConfig::Output { drive } => GPIOProperties::Output(
                    GPIOOutputProperties {
                        drive: vstd::std_specs::convert::FromSpec::from_spec(drive),
                    },
                ),
            },
    {
        match *config {
            GPIOPinConfig::Input { bias } => GPIOProperties::input(
                PropertyBiasMode::from(bias),
                PropertyEventMode::NoEvent,
            ),
            GPIOPinConfig::Trigger { edge } => GPIOProperties::input(
                PropertyBiasMode::Disabled,
                PropertyEventMode::from(edge),
            ),
            GPIOPinConfig::Output { drive } => GPIOProperties::output(
                PropertyDriveMode::from(drive),
            ),
        }
    }
}

/// A level is read back from its bit.
pub proof fn level_bit_reads_back(level: PinLevel)
    ensures
        <PinLevel as vstd::std_specs::convert::FromSpec<u8>>::from_spec(level_bit(level)) == level,
{
}

} // verus!
