use vstd::prelude::*;

verus! {

/// The device's register map. Each variant names one 8-bit register; its bus
/// address is given by [`Register::addr`]. Every address fits in 7 bits, so
/// the top bit of an address byte is free to carry the read flag.
#[allow(non_camel_case_types)]
#[derive(Clone, Copy, Debug, PartialEq, Eq)]
pub enum Register {
    /// Temp sensor output, low byte
    OUT_T_L,
    /// Temp sensor output, high byte
    OUT_T_H,
    /// Identity register
    WHO_AM_I,
    /// Control register 1: data rate, operating mode, low-power sub-mode
    CTRL1,
    /// Control register 2: among others, the address auto-increment flag
    CTRL2,
    /// Control register 3
    CTRL3,
    /// Control register 4 / INT1 pad control
    CTRL4_INT1_PAD_CTRL,
    /// Control register 5 / INT2 pad control
    CTRL5_INT2_PAD_CTRL,
    /// Control register 6
    CTRL6,
    /// Temp sensor output
    OUT_T,
    /// Status register
    STATUS,
    /// X-axis output, low byte; first register of a six-byte burst
    OUT_X_L,
    /// X-axis output, high byte
    OUT_X_H,
    /// Y-axis output, low byte
    OUT_Y_L,
    /// Y-axis output, high byte
    OUT_Y_H,
    /// Z-axis output, low byte
    OUT_Z_L,
    /// Z-axis output, high byte
    OUT_Z_H,
    /// FIFO control
    FIFO_CTRL,
    /// Unread samples stored in the FIFO
    FIFO_SAMPLES,
    /// Tap threshold, X axis
    TAP_THS_X,
    /// Tap threshold, Y axis
    TAP_THS_Y,
    /// Tap threshold, Z axis
    TAP_THS_Z,
    /// Interrupt duration
    INT_DUR,
    /// Tap/double-tap selection, inactivity enable, wakeup threshold
    WAKE_UP_THS,
    /// Wakeup duration
    WAKE_UP_DUR,
    /// Free-fall configuration
    FREE_FALL,
    /// Status duplicate
    STATUS_DUP,
    /// Wakeup source
    WAKE_UP_SRC,
    /// Tap source
    TAP_SRC,
    /// 6D source
    SIXD_SRC,
    /// All interrupt sources
    ALL_INT_SRC,
    /// X-axis user offset
    X_OFS_USR,
    /// Y-axis user offset
    Y_OFS_USR,
    /// Z-axis user offset
    Z_OFS_USR,
    /// Control register 7
    CTRL7,
}

impl Register {
    /// The register's bus address as the datasheet fixes it.
    pub open spec fn spec_addr(self) -> u8 {
        match self {
            Register::OUT_T_L => 0x0D,
            Register::OUT_T_H => 0x0E,
            Register::WHO_AM_I => 0x0F,
            Register::CTRL1 => 0x20,
            Register::CTRL2 => 0x21,
            Register::CTRL3 => 0x22,
            Register::CTRL4_INT1_PAD_CTRL => 0x23,
            Register::CTRL5_INT2_PAD_CTRL => 0x24,
            Register::CTRL6 => 0x25,
            Register::OUT_T => 0x26,
            Register::STATUS => 0x27,
            Register::OUT_X_L => 0x28,
            Register::OUT_X_H => 0x29,
            Register::OUT_Y_L => 0x2A,
            Register::OUT_Y_H => 0x2B,
            Register::OUT_Z_L => 0x2C,
            Register::OUT_Z_H => 0x2D,
            Register::FIFO_CTRL => 0x2E,
            Register::FIFO_SAMPLES => 0x2F,
            Register::TAP_THS_X => 0x30,
            Register::TAP_THS_Y => 0x31,
            Register::TAP_THS_Z => 0x32,
            Register::INT_DUR => 0x33,
            Register::WAKE_UP_THS => 0x34,
            Register::WAKE_UP_DUR => 0x35,
            Register::FREE_FALL => 0x36,
            Register::STATUS_DUP => 0x37,
            Register::WAKE_UP_SRC => 0x38,
            Register::TAP_SRC => 0x39,
            Register::SIXD_SRC => 0x3A,
            Register::ALL_INT_SRC => 0x3B,
            Register::X_OFS_USR => 0x3C,
            Register::Y_OFS_USR => 0x3D,
            Register::Z_OFS_USR => 0x3E,
            Register::CTRL7 => 0x3F,
        }
    }

    /// Every address lies in the datasheet's map, {0x0D-0x0F, 0x20-0x3F},
    /// and in particular leaves the top bit clear for the read flag.
    pub proof fn lemma_addr_in_map(self)
        ensures
            0x0D <= self.spec_addr() <= 0x0F || 0x20 <= self.spec_addr() <= 0x3F,
            self.spec_addr() <= 0x7F,
    {
    }

    /// The register's bus address.
    pub fn addr(self) -> (r: u8)
        ensures
            r == self.spec_addr(),
    {
        match self {
            Register::OUT_T_L => 0x0D,
            Register::OUT_T_H => 0x0E,
            Register::WHO_AM_I => 0x0F,
            Register::CTRL1 => 0x20,
            Register::CTRL2 => 0x21,
            Register::CTRL3 => 0x22,
            Register::CTRL4_INT1_PAD_CTRL => 0x23,
            Register::CTRL5_INT2_PAD_CTRL => 0x24,
            Register::CTRL6 => 0x25,
            Register::OUT_T => 0x26,
            Register::STATUS => 0x27,
            Register::OUT_X_L => 0x28,
            Register::OUT_X_H => 0x29,
            Register::OUT_Y_L => 0x2A,
            Register::OUT_Y_H => 0x2B,
            Register::OUT_Z_L => 0x2C,
            Register::OUT_Z_H => 0x2D,
            Register::FIFO_CTRL => 0x2E,
            Register::FIFO_SAMPLES => 0x2F,
            Register::TAP_THS_X => 0x30,
            Register::TAP_THS_Y => 0x31,
            Register::TAP_THS_Z => 0x32,
            Register::INT_DUR => 0x33,
            Register::WAKE_UP_THS => 0x34,
            Register::WAKE_UP_DUR => 0x35,
            Register::FREE_FALL => 0x36,
            Register::STATUS_DUP => 0x37,
            Register::WAKE_UP_SRC => 0x38,
            Register::TAP_SRC => 0x39,
            Register::SIXD_SRC => 0x3A,
            Register::ALL_INT_SRC => 0x3B,
            Register::X_OFS_USR => 0x3C,
            Register::Y_OFS_USR => 0x3D,
            Register::Z_OFS_USR => 0x3E,
            Register::CTRL7 => 0x3F,
        }
    }
}

/// Output data rate, CTRL1 bits 4-7. Each variant carries the datasheet's
/// fixed code, given by [`OutputDataRate::code`].
#[allow(non_camel_case_types)]
#[derive(Clone, Copy, Debug, PartialEq, Eq)]
pub enum OutputDataRate {
    /// Power down
    PowerDown,
    /// High-performance 12.5 Hz / low-power 1.6 Hz
    Hp12Hz5_Lp1Hz6,
    /// High-performance 12.5 Hz / low-power 12.5 Hz
    Hp12Hz5_Lp12Hz5,
    /// High-performance 25 Hz / low-power 25 Hz
    Hp25Hz_Lp25Hz,
    /// High-performance 50 Hz / low-power 50 Hz
    Hp50Hz_Lp50Hz,
    /// High-performance 100 Hz / low-power 100 Hz
    Hp100Hz_Lp100Hz,
    /// High-performance 200 Hz / low-power 200 Hz
    Hp200Hz_Lp200Hz,
    /// High-performance 400 Hz / low-power 200 Hz
    Hp400Hz_Lp200Hz,
    /// High-performance 800 Hz / low-power 200 Hz
    Hp800Hz_Lp200Hz,
    /// High-performance 1600 Hz / low-power 200 Hz
    Hp1600Hz_Lp200Hz,
}

impl OutputDataRate {
    /// The rate's fixed code, before shifting into the CTRL1 field.
    pub open spec fn spec_code(self) -> u8 {
        match self {
            OutputDataRate::PowerDown => 0x00,
            OutputDataRate::Hp12Hz5_Lp1Hz6 => 0x01,
            OutputDataRate::Hp12Hz5_Lp12Hz5 => 0x02,
            OutputDataRate::Hp25Hz_Lp25Hz => 0x03,
            OutputDataRate::Hp50Hz_Lp50Hz => 0x04,
            OutputDataRate::Hp100Hz_Lp100Hz => 0x05,
            OutputDataRate::Hp200Hz_Lp200Hz => 0x06,
            OutputDataRate::Hp400Hz_Lp200Hz => 0x07,
            OutputDataRate::Hp800Hz_Lp200Hz => 0x08,
            OutputDataRate::Hp1600Hz_Lp200Hz => 0x09,
        }
    }

    /// The rate's fixed code.
    pub fn code(self) -> (r: u8)
        ensures
            r == self.spec_code(),
    {
        match self {
            OutputDataRate::PowerDown => 0x00,
            OutputDataRate::Hp12Hz5_Lp1Hz6 => 0x01,
            OutputDataRate::Hp12Hz5_Lp12Hz5 => 0x02,
            OutputDataRate::Hp25Hz_Lp25Hz => 0x03,
            OutputDataRate::Hp50Hz_Lp50Hz => 0x04,
            OutputDataRate::Hp100Hz_Lp100Hz => 0x05,
            OutputDataRate::Hp200Hz_Lp200Hz => 0x06,
            OutputDataRate::Hp400Hz_Lp200Hz => 0x07,
            OutputDataRate::Hp800Hz_Lp200Hz => 0x08,
            OutputDataRate::Hp1600Hz_Lp200Hz => 0x09,
        }
    }
}

/// Operating mode, CTRL1 bits 2-3.
#[derive(Clone, Copy, Debug, PartialEq, Eq)]
pub enum OperatingMode {
    /// Low-power mode (12/14-bit resolution)
    LowPower,
    /// High-performance mode (14-bit resolution)
    HighPerformance,
    /// Single data conversion on demand (12/14-bit resolution)
    SingleOnDemand,
}

impl OperatingMode {
    /// The mode's fixed code, before shifting into the CTRL1 field.
    pub open spec fn spec_code(self) -> u8 {
        match self {
            OperatingMode::LowPower => 0x00,
            OperatingMode::HighPerformance => 0x01,
            OperatingMode::SingleOnDemand => 0x02,
        }
    }

    /// The mode's fixed code.
    pub fn code(self) -> (r: u8)
        ensures
            r == self.spec_code(),
    {
        match self {
            OperatingMode::LowPower => 0x00,
            OperatingMode::HighPerformance => 0x01,
            OperatingMode::SingleOnDemand => 0x02,
        }
    }
}

/// Low-power sub-mode, CTRL1 bits 0-1.
#[derive(Clone, Copy, Debug, PartialEq, Eq)]
pub enum LowPowerMode {
    /// Low-power mode 1 (12-bit resolution)
    Mode1,
    /// Low-power mode 2 (14-bit resolution)
    Mode2,
    /// Low-power mode 3 (14-bit resolution)
    Mode3,
    /// Low-power mode 4 (14-bit resolution)
    Mode4,
}

impl LowPowerMode {
    /// The sub-mode's fixed code; it sits at the bottom of CTRL1 unshifted.
    pub open spec fn spec_code(self) -> u8 {
        match self {
            LowPowerMode::Mode1 => 0x00,
            LowPowerMode::Mode2 => 0x01,
            LowPowerMode::Mode3 => 0x02,
            LowPowerMode::Mode4 => 0x03,
        }
    }

    /// The sub-mode's fixed code.
    pub fn code(self) -> (r: u8)
        ensures
            r == self.spec_code(),
    {
        match self {
            LowPowerMode::Mode1 => 0x00,
            LowPowerMode::Mode2 => 0x01,
            LowPowerMode::Mode3 => 0x02,
            LowPowerMode::Mode4 => 0x03,
        }
    }
}

/// Full-scale range, CTRL1 bits 4-5.
#[derive(Clone, Copy, Debug, PartialEq, Eq)]
pub enum FullScaleSelection {
    /// +/- 2 g
    PlusMinus2,
    /// +/- 4 g
    PlusMinus4,
    /// +/- 8 g
    PlusMinus8,
    /// +/- 16 g
    PlusMinus16,
}

impl FullScaleSelection {
    /// The range's fixed code, before shifting into the CTRL1 field.
    pub open spec fn spec_code(self) -> u8 {
        match self {
            FullScaleSelection::PlusMinus2 => 0x00,
            FullScaleSelection::PlusMinus4 => 0x01,
            FullScaleSelection::PlusMinus8 => 0x02,
            FullScaleSelection::PlusMinus16 => 0x03,
        }
    }

    /// The range's fixed code.
    pub fn code(self) -> (r: u8)
        ensures
            r == self.spec_code(),
    {
        match self {
            FullScaleSelection::PlusMinus2 => 0x00,
            FullScaleSelection::PlusMinus4 => 0x01,
            FullScaleSelection::PlusMinus8 => 0x02,
            FullScaleSelection::PlusMinus16 => 0x03,
        }
    }
}

} // verus!
