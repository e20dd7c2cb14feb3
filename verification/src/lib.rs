//! Register-level driver for a 3-axis MEMS accelerometer on a 4-wire
//! half-duplex serial bus with a separate chip-select line.
//!
//! The handle owns two abstract capabilities — a byte-exchange bus and the
//! select-line output — and records every action it performs on them in a
//! ghost history of [`bus::BusOp`] values. Every operation's contract states
//! exactly which actions it appends: the select/transfer/deselect framing,
//! the read flag forced onto read addresses, the read-modify-write cycles
//! that keep unrelated settings packed into one register intact, and the
//! guarantee that a failed transfer still releases the select line.

use vstd::prelude::*;

mod bus;
mod device;
mod reg;

pub use device::{
    device_advance, device_output, device_run, device_step, device_wf, faithful,
    lemma_burst_bracket_effect, lemma_burst_frames_effect, lemma_concat_cancel_left,
    lemma_faithful_concat, lemma_read_frame_effect, lemma_read_run, lemma_rmw_frames_effect,
    lemma_run_concat, lemma_setter_frames_effect, lemma_setter_idempotent_effect,
    lemma_setter_then_readback, lemma_write_frame_effect, DeviceModel,
};
pub use bus::{
    burst_bracket, burst_frames, lemma_concat_assoc, lemma_prefix_concat, lemma_prefix_refl,
    lemma_prefix_skip, lemma_prefix_trans,
    lemma_rmw_idempotent, lemma_rmw_isolation, lemma_set_only_rmw, lemma_setter_two_step,
    read_body, read_frame, read_ops, released_after, rmw, rmw_frames, setter_frames, write_frame,
    BusOp, SelectPin, SpiBus,
};
pub use reg::{FullScaleSelection, LowPowerMode, OperatingMode, OutputDataRate, Register};

verus! {

/// The fixed byte a healthy device returns from its identity register.
pub const DEVICE_ID: u8 = 0b0100_0100;

/// CTRL2 flag that makes the device advance its register address after each
/// byte of a burst, so consecutive reads walk consecutive registers.
pub const IF_ADD_INC: u8 = 0b0000_0100;

/// CTRL1 field of the low-power sub-mode: bits 0-1.
pub const LOW_POWER_MODE_MASK: u8 = 0b0000_0011;

/// CTRL1 field of the operating mode: bits 2-3.
pub const OPERATING_MODE_MASK: u8 = 0b0000_1100;

/// CTRL1 bit of the low-noise enable: bit 2. Note that this position lies
/// inside [`OPERATING_MODE_MASK`], so a later mode update rewrites it; the
/// overlap is kept exactly as the device map fixes the fields here.
pub const LOW_NOISE_BIT: u8 = 0b0000_0100;

/// CTRL1 field of the full-scale range: bits 4-5.
pub const FULL_SCALE_MASK: u8 = 0b0011_0000;

/// CTRL1 field of the output data rate: bits 4-7.
pub const ODR_MASK: u8 = 0b1111_0000;

/// Why an operation failed: the two failure domains are never conflated, so
/// callers can tell a bus fault from a wiring fault on the select line.
#[derive(Debug)]
pub enum Lis2dw12Error<SpiError, PinError> {
    /// The bus byte exchange failed.
    Spi(SpiError),
    /// Driving the chip-select line failed.
    Pin(PinError),
}

/// One reconstructed sample: three signed 16-bit axis values, each assembled
/// from two consecutive little-endian output bytes.
#[derive(Clone, Copy, Debug, PartialEq, Eq, Structural)]
pub struct RawSample {
    /// X-axis raw count.
    pub x: i16,
    /// Y-axis raw count.
    pub y: i16,
    /// Z-axis raw count.
    pub z: i16,
}

/// A signed 16-bit axis value assembled from its low and high output bytes,
/// little-endian.
pub open spec fn decode_axis(lo: u8, hi: u8) -> i16 {
    ((((hi as u16) << 8) | (lo as u16))) as i16
}

/// The device handle. It exclusively owns the bus and select-line
/// capabilities, and its ghost history [`Lis2dw12::ops`] records every action
/// taken on them since construction.
pub struct Lis2dw12<SPI, CS> {
    spi: SPI,
    cs: CS,
    trace: Ghost<Seq<BusOp>>,
}

impl<SPI, CS> Lis2dw12<SPI, CS> {
    /// The history of select-line edges and byte exchanges this handle has
    /// performed, oldest first.
    pub closed spec fn ops(&self) -> Seq<BusOp> {
        self.trace@
    }
}

impl<SPI, CS> Lis2dw12<SPI, CS> where SPI: SpiBus, CS: SelectPin {
    /// Builds a handle from the two capabilities, forcing the select line to
    /// its inactive level first. Fails only if that drive fails.
    pub fn new(spi: SPI, cs: CS) -> (r: Result<Self, Lis2dw12Error<SPI::BusError, CS::PinError>>)
        ensures
            r matches Ok(d) ==> d.ops() == seq![BusOp::Deselect],
            r matches Err(e) ==> e is Pin,
    {
        let mut cs = cs;
        match cs.set_high() {
            Ok(()) => {
                let ghost t: Seq<BusOp> = seq![BusOp::Deselect];
                Ok(Lis2dw12 { spi, cs, trace: Ghost(t) })
            },
            Err(e) => Err(Lis2dw12Error::Pin(e)),
        }
    }

    /// Drives the select line active. On failure nothing is recorded: the
    /// line's level is then unknown, and the error is surfaced as is.
    fn chip_select(&mut self) -> (r: Result<(), CS::PinError>)
        ensures
            r is Ok ==> final(self).ops() == old(self).ops().push(BusOp::Select),
            r is Err ==> final(self).ops() == old(self).ops(),
    {
        let r = self.cs.set_low();
        if r.is_ok() {
            self.trace = Ghost(self.trace@.push(BusOp::Select));
        }
        r
    }

    /// Drives the select line back to its inactive level.
    fn chip_deselect(&mut self) -> (r: Result<(), CS::PinError>)
        ensures
            r is Ok ==> final(self).ops() == old(self).ops().push(BusOp::Deselect),
            r is Err ==> final(self).ops() == old(self).ops(),
    {
        let r = self.cs.set_high();
        if r.is_ok() {
            self.trace = Ghost(self.trace@.push(BusOp::Deselect));
        }
        r
    }

    /// Exchanges one byte while selected, discarding whatever the device
    /// shifted back.
    fn write(&mut self, byte: u8) -> (r: Result<(), Lis2dw12Error<SPI::BusError, CS::PinError>>)
        ensures
            r is Ok ==> final(self).ops() == old(self).ops().push(BusOp::WriteByte(byte)),
            r is Err ==> final(self).ops() == old(self).ops(),
            r matches Err(e) ==> e is Spi,
    {
        match self.spi.exchange(byte) {
            Ok(_) => {
                self.trace = Ghost(self.trace@.push(BusOp::WriteByte(byte)));
                Ok(())
            },
            Err(e) => Err(Lis2dw12Error::Spi(e)),
        }
    }

    /// Exchanges one placeholder byte while selected and returns the byte the
    /// device shifted back.
    fn read(&mut self) -> (r: Result<u8, Lis2dw12Error<SPI::BusError, CS::PinError>>)
        ensures
            r matches Ok(b) ==> final(self).ops() == old(self).ops().push(BusOp::ReadByte(b)),
            r is Err ==> final(self).ops() == old(self).ops(),
            r matches Err(e) ==> e is Spi,
    {
        match self.spi.exchange(0x00) {
            Ok(b) => {
                self.trace = Ghost(self.trace@.push(BusOp::ReadByte(b)));
                Ok(b)
            },
            Err(e) => Err(Lis2dw12Error::Spi(e)),
        }
    }

    /// Framed single-register read: select, the address with the read flag
    /// forced on, one byte in, deselect. The deselect is attempted on every
    /// path, and a failure of that final drive is reported in preference to a
    /// transfer failure before it.
    fn read_reg(&mut self, register: Register) -> (r: Result<
        u8,
        Lis2dw12Error<SPI::BusError, CS::PinError>,
    >)
        ensures
            old(self).ops().is_prefix_of(final(self).ops()),
            r matches Ok(b) ==> final(self).ops() == old(self).ops() + read_frame(
                register.spec_addr(),
                b,
            ),
            r matches Err(e) ==> match e {
                Lis2dw12Error::Spi(_) => {
                    ||| final(self).ops() == old(self).ops() + seq![
                        BusOp::Select,
                        BusOp::Deselect,
                    ]
                    ||| final(self).ops() == old(self).ops() + seq![
                        BusOp::Select,
                        BusOp::WriteByte(register.spec_addr() | 0x80),
                        BusOp::Deselect,
                    ]
                },
                Lis2dw12Error::Pin(_) => {
                    ||| final(self).ops() == old(self).ops()
                    ||| final(self).ops() == old(self).ops().push(BusOp::Select)
                    ||| final(self).ops() == old(self).ops() + seq![
                        BusOp::Select,
                        BusOp::WriteByte(register.spec_addr() | 0x80),
                    ]
                    ||| exists|b: u8|
                        final(self).ops() == old(self).ops() + #[trigger] read_body(
                            register.spec_addr(),
                            b,
                        )
                },
            },
            (r matches Err(e) && e is Spi) ==> released_after(old(self).ops(), final(self).ops()),
    {
        if let Err(e) = self.chip_select() {
            proof {
                lemma_prefix_refl(self.ops());
            }
            return Err(Lis2dw12Error::Pin(e));
        }
        let request: u8 = register.addr() | 0x80;
        let result = match self.write(request) {
            Ok(()) => self.read(),
            Err(e) => Err(e),
        };
        if let Err(e) = self.chip_deselect() {
            proof {
                if result is Ok {
                    let b = result->Ok_0;
                    assert(self.ops() =~= old(self).ops() + read_body(register.spec_addr(), b));
                    lemma_prefix_concat(old(self).ops(), read_body(register.spec_addr(), b));
                } else {
                    assert(self.ops() =~= old(self).ops().push(BusOp::Select) || self.ops()
                        =~= old(self).ops() + seq![
                        BusOp::Select,
                        BusOp::WriteByte(register.spec_addr() | 0x80),
                    ]);
                    lemma_prefix_concat(old(self).ops(), seq![BusOp::Select]);
                    assert(old(self).ops().push(BusOp::Select) =~= old(self).ops() + seq![
                        BusOp::Select,
                    ]);
                    lemma_prefix_concat(
                        old(self).ops(),
                        seq![BusOp::Select, BusOp::WriteByte(register.spec_addr() | 0x80)],
                    );
                }
            }
            return Err(Lis2dw12Error::Pin(e));
        }
        proof {
            match result {
                Ok(b) => {
                    assert(self.ops() =~= old(self).ops() + read_frame(register.spec_addr(), b));
                    lemma_prefix_concat(old(self).ops(), read_frame(register.spec_addr(), b));
                },
                Err(_) => {
                    assert(self.ops() =~= old(self).ops() + seq![BusOp::Select, BusOp::Deselect]
                        || self.ops() =~= old(self).ops() + seq![
                        BusOp::Select,
                        BusOp::WriteByte(register.spec_addr() | 0x80),
                        BusOp::Deselect,
                    ]);
                    lemma_prefix_concat(old(self).ops(), seq![BusOp::Select, BusOp::Deselect]);
                    lemma_prefix_concat(
                        old(self).ops(),
                        seq![
                            BusOp::Select,
                            BusOp::WriteByte(register.spec_addr() | 0x80),
                            BusOp::Deselect,
                        ],
                    );
                },
            }
        }
        result
    }

    /// Framed single-register write: select, the address with the top bit
    /// left clear, the data byte, deselect; the deselect is attempted on
    /// every path as in a read.
    fn write_reg(&mut self, register: Register, data: u8) -> (r: Result<
        (),
        Lis2dw12Error<SPI::BusError, CS::PinError>,
    >)
        ensures
            old(self).ops().is_prefix_of(final(self).ops()),
            r is Ok ==> final(self).ops() == old(self).ops() + write_frame(
                register.spec_addr(),
                data,
            ),
            r matches Err(e) ==> match e {
                Lis2dw12Error::Spi(_) => {
                    ||| final(self).ops() == old(self).ops() + seq![
                        BusOp::Select,
                        BusOp::Deselect,
                    ]
                    ||| final(self).ops() == old(self).ops() + seq![
                        BusOp::Select,
                        BusOp::WriteByte(register.spec_addr()),
                        BusOp::Deselect,
                    ]
                },
                Lis2dw12Error::Pin(_) => {
                    ||| final(self).ops() == old(self).ops()
                    ||| final(self).ops() == old(self).ops().push(BusOp::Select)
                    ||| final(self).ops() == old(self).ops() + seq![
                        BusOp::Select,
                        BusOp::WriteByte(register.spec_addr()),
                    ]
                    ||| final(self).ops() == old(self).ops() + seq![
                        BusOp::Select,
                        BusOp::WriteByte(register.spec_addr()),
                        BusOp::WriteByte(data),
                    ]
                },
            },
            (r matches Err(e) && e is Spi) ==> released_after(old(self).ops(), final(self).ops()),
    {
        if let Err(e) = self.chip_select() {
            proof {
                lemma_prefix_refl(self.ops());
            }
            return Err(Lis2dw12Error::Pin(e));
        }
        let result = match self.write(register.addr()) {
            Ok(()) => self.write(data),
            Err(e) => Err(e),
        };
        if let Err(e) = self.chip_deselect() {
            proof {
                assert(self.ops() =~= old(self).ops() + seq![BusOp::Select] || self.ops()
                    =~= old(self).ops() + seq![
                    BusOp::Select,
                    BusOp::WriteByte(register.spec_addr()),
                ] || self.ops() =~= old(self).ops() + seq![
                    BusOp::Select,
                    BusOp::WriteByte(register.spec_addr()),
                    BusOp::WriteByte(data),
                ]);
                lemma_prefix_concat(old(self).ops(), seq![BusOp::Select]);
                lemma_prefix_concat(
                    old(self).ops(),
                    seq![BusOp::Select, BusOp::WriteByte(register.spec_addr())],
                );
                lemma_prefix_concat(
                    old(self).ops(),
                    seq![
                        BusOp::Select,
                        BusOp::WriteByte(register.spec_addr()),
                        BusOp::WriteByte(data),
                    ],
                );
            }
            return Err(Lis2dw12Error::Pin(e));
        }
        proof {
            if result is Ok {
                assert(self.ops() =~= old(self).ops() + write_frame(register.spec_addr(), data));
                lemma_prefix_concat(old(self).ops(), write_frame(register.spec_addr(), data));
            } else {
                assert(self.ops() =~= old(self).ops() + seq![BusOp::Select, BusOp::Deselect]
                    || self.ops() =~= old(self).ops() + seq![
                    BusOp::Select,
                    BusOp::WriteByte(register.spec_addr()),
                    BusOp::Deselect,
                ]);
                lemma_prefix_concat(old(self).ops(), seq![BusOp::Select, BusOp::Deselect]);
                lemma_prefix_concat(
                    old(self).ops(),
                    seq![
                        BusOp::Select,
                        BusOp::WriteByte(register.spec_addr()),
                        BusOp::Deselect,
                    ],
                );
            }
        }
        result
    }

    /// Read-modify-write: reads the register, clears the bits of `clear`,
    /// sets the bits of `set`, and writes the result back, leaving every bit
    /// outside the two masks as the device held it. Two framed transactions;
    /// no locking is needed since the handle owns the bus exclusively.
    fn modify_reg(&mut self, register: Register, clear: u8, set: u8) -> (r: Result<
        (),
        Lis2dw12Error<SPI::BusError, CS::PinError>,
    >)
        ensures
            old(self).ops().is_prefix_of(final(self).ops()),
            r is Ok ==> rmw_frames(
                old(self).ops(),
                final(self).ops(),
                register.spec_addr(),
                clear,
                set,
            ),
            (r matches Err(e) && e is Spi) ==> released_after(old(self).ops(), final(self).ops()),
    {
        let current = match self.read_reg(register) {
            Ok(v) => v,
            Err(e) => {
                return Err(e);
            },
        };
        let ghost mid = self.ops();
        let updated = (current & !clear) | set;
        let r = self.write_reg(register, updated);
        proof {
            lemma_prefix_trans(old(self).ops(), mid, self.ops());
            if r is Ok {
                assert(self.ops() =~= old(self).ops() + read_frame(register.spec_addr(), current)
                    + write_frame(register.spec_addr(), rmw(current, clear, set)));
            }
        }
        r
    }

    /// Sets the given bits in a register through a read-modify-write cycle,
    /// leaving all other bits untouched.
    fn reg_set_bits(&mut self, reg: Register, bits: u8) -> (r: Result<
        (),
        Lis2dw12Error<SPI::BusError, CS::PinError>,
    >)
        ensures
            old(self).ops().is_prefix_of(final(self).ops()),
            r is Ok ==> rmw_frames(old(self).ops(), final(self).ops(), reg.spec_addr(), 0, bits),
            (r matches Err(e) && e is Spi) ==> released_after(old(self).ops(), final(self).ops()),
    {
        self.modify_reg(reg, 0, bits)
    }

    /// Clears the given bits in a register through a read-modify-write cycle,
    /// leaving all other bits untouched.
    fn reg_reset_bits(&mut self, reg: Register, bits: u8) -> (r: Result<
        (),
        Lis2dw12Error<SPI::BusError, CS::PinError>,
    >)
        ensures
            old(self).ops().is_prefix_of(final(self).ops()),
            r is Ok ==> rmw_frames(old(self).ops(), final(self).ops(), reg.spec_addr(), bits, 0),
            (r matches Err(e) && e is Spi) ==> released_after(old(self).ops(), final(self).ops()),
    {
        self.modify_reg(reg, bits, 0)
    }

    /// Selects the low-power sub-mode: clears CTRL1 bits 0-1, then sets the
    /// sub-mode's code there, preserving every other CTRL1 setting.
    pub fn set_low_power_mode(&mut self, low_power_mode: LowPowerMode) -> (r: Result<
        (),
        Lis2dw12Error<SPI::BusError, CS::PinError>,
    >)
        ensures
            old(self).ops().is_prefix_of(final(self).ops()),
            r is Ok ==> setter_frames(
                old(self).ops(),
                final(self).ops(),
                Register::CTRL1.spec_addr(),
                LOW_POWER_MODE_MASK,
                low_power_mode.spec_code(),
            ),
            (r matches Err(e) && e is Spi) ==> released_after(old(self).ops(), final(self).ops()),
    {
        if let Err(e) = self.reg_reset_bits(Register::CTRL1, LOW_POWER_MODE_MASK) {
            return Err(e);
        }
        let ghost mid = self.ops();
        let r = self.reg_set_bits(Register::CTRL1, low_power_mode.code());
        proof {
            lemma_prefix_trans(old(self).ops(), mid, self.ops());
        }
        r
    }

    /// Selects the operating mode: clears CTRL1 bits 2-3, then sets the
    /// mode's code shifted into place, preserving every other CTRL1 setting.
    pub fn set_mode(&mut self, mode: OperatingMode) -> (r: Result<
        (),
        Lis2dw12Error<SPI::BusError, CS::PinError>,
    >)
        ensures
            old(self).ops().is_prefix_of(final(self).ops()),
            r is Ok ==> setter_frames(
                old(self).ops(),
                final(self).ops(),
                Register::CTRL1.spec_addr(),
                OPERATING_MODE_MASK,
                mode.spec_code() << 2,
            ),
            (r matches Err(e) && e is Spi) ==> released_after(old(self).ops(), final(self).ops()),
    {
        if let Err(e) = self.reg_reset_bits(Register::CTRL1, OPERATING_MODE_MASK) {
            return Err(e);
        }
        let ghost mid = self.ops();
        let set_bits = mode.code() << 2;
        let r = self.reg_set_bits(Register::CTRL1, set_bits);
        proof {
            lemma_prefix_trans(old(self).ops(), mid, self.ops());
        }
        r
    }

    /// Enables or disables the low-noise configuration by setting or clearing
    /// its CTRL1 bit, preserving every other CTRL1 setting.
    pub fn set_low_noise(&mut self, is_enabled: bool) -> (r: Result<
        (),
        Lis2dw12Error<SPI::BusError, CS::PinError>,
    >)
        ensures
            old(self).ops().is_prefix_of(final(self).ops()),
            (r is Ok && is_enabled) ==> rmw_frames(
                old(self).ops(),
                final(self).ops(),
                Register::CTRL1.spec_addr(),
                0,
                LOW_NOISE_BIT,
            ),
            (r is Ok && !is_enabled) ==> rmw_frames(
                old(self).ops(),
                final(self).ops(),
                Register::CTRL1.spec_addr(),
                LOW_NOISE_BIT,
                0,
            ),
            (r matches Err(e) && e is Spi) ==> released_after(old(self).ops(), final(self).ops()),
    {
        if is_enabled {
            self.reg_set_bits(Register::CTRL1, LOW_NOISE_BIT)
        } else {
            self.reg_reset_bits(Register::CTRL1, LOW_NOISE_BIT)
        }
    }

    /// Selects the full-scale range: clears CTRL1 bits 4-5, then sets the
    /// range's code shifted into place, preserving every other CTRL1 setting.
    pub fn set_full_scale_selection(&mut self, full_scale_selection: FullScaleSelection) -> (r:
        Result<(), Lis2dw12Error<SPI::BusError, CS::PinError>>)
        ensures
            old(self).ops().is_prefix_of(final(self).ops()),
            r is Ok ==> setter_frames(
                old(self).ops(),
                final(self).ops(),
                Register::CTRL1.spec_addr(),
                FULL_SCALE_MASK,
                full_scale_selection.spec_code() << 4,
            ),
            (r matches Err(e) && e is Spi) ==> released_after(old(self).ops(), final(self).ops()),
    {
        if let Err(e) = self.reg_reset_bits(Register::CTRL1, FULL_SCALE_MASK) {
            return Err(e);
        }
        let ghost mid = self.ops();
        let set_bits = full_scale_selection.code() << 4;
        let r = self.reg_set_bits(Register::CTRL1, set_bits);
        proof {
            lemma_prefix_trans(old(self).ops(), mid, self.ops());
        }
        r
    }

    /// Selects the output data rate: clears CTRL1 bits 4-7, then sets the
    /// rate's code shifted into place, preserving every other CTRL1 setting.
    pub fn set_output_data_rate(&mut self, odr: OutputDataRate) -> (r: Result<
        (),
        Lis2dw12Error<SPI::BusError, CS::PinError>,
    >)
        ensures
            old(self).ops().is_prefix_of(final(self).ops()),
            r is Ok ==> setter_frames(
                old(self).ops(),
                final(self).ops(),
                Register::CTRL1.spec_addr(),
                ODR_MASK,
                odr.spec_code() << 4,
            ),
            (r matches Err(e) && e is Spi) ==> released_after(old(self).ops(), final(self).ops()),
    {
        if let Err(e) = self.reg_reset_bits(Register::CTRL1, ODR_MASK) {
            return Err(e);
        }
        let ghost mid = self.ops();
        let set_bits = odr.code() << 4;
        let r = self.reg_set_bits(Register::CTRL1, set_bits);
        proof {
            lemma_prefix_trans(old(self).ops(), mid, self.ops());
        }
        r
    }

    /// Reads the identity register. The byte comes back exactly as the device
    /// shifted it, with no mask applied; [`DEVICE_ID`] is published for
    /// callers that want to compare, and the comparison is their decision.
    pub fn get_device_id(&mut self) -> (r: Result<u8, Lis2dw12Error<SPI::BusError, CS::PinError>>)
        ensures
            old(self).ops().is_prefix_of(final(self).ops()),
            r matches Ok(b) ==> final(self).ops() == old(self).ops() + read_frame(
                Register::WHO_AM_I.spec_addr(),
                b,
            ),
            (r matches Err(e) && e is Spi) ==> released_after(old(self).ops(), final(self).ops()),
    {
        self.read_reg(Register::WHO_AM_I)
    }

    /// Burst read: sets the auto-increment flag in CTRL2, reads `count`
    /// consecutive registers starting at `register` inside one single
    /// select/deselect bracket, then clears the flag again so that later
    /// single-register accesses do not walk the device's address pointer.
    /// The deselect and the flag-clearing cycle are attempted even when the
    /// transfer fails partway, and a failure there is still reported.
    pub fn read_regs(&mut self, register: Register, count: usize) -> (r: Result<
        Vec<u8>,
        Lis2dw12Error<SPI::BusError, CS::PinError>,
    >)
        ensures
            old(self).ops().is_prefix_of(final(self).ops()),
            r matches Ok(bs) ==> bs@.len() == count && burst_frames(
                old(self).ops(),
                final(self).ops(),
                Register::CTRL2.spec_addr(),
                IF_ADD_INC,
                register.spec_addr(),
                bs@,
            ),
            (r matches Err(e) && e is Spi) ==> released_after(old(self).ops(), final(self).ops()),
    {
        if let Err(e) = self.reg_set_bits(Register::CTRL2, IF_ADD_INC) {
            return Err(e);
        }
        let ghost t0 = self.ops();
        if let Err(e) = self.chip_select() {
            return Err(Lis2dw12Error::Pin(e));
        }
        let request = register.addr() | 0x80;
        let mut buf: Vec<u8> = Vec::new();
        let mut transfer = self.write(request);
        let mut i: usize = 0;
        while i < count && transfer.is_ok()
            invariant
                i <= count,
                request == register.spec_addr() | 0x80,
                old(self).ops().is_prefix_of(t0),
                transfer is Ok ==> buf@.len() == i && self.ops() == t0 + seq![
                    BusOp::Select,
                    BusOp::WriteByte(register.spec_addr() | 0x80),
                ] + read_ops(buf@),
                transfer is Err ==> {
                    ||| self.ops() == t0.push(BusOp::Select)
                    ||| self.ops() == t0 + seq![
                        BusOp::Select,
                        BusOp::WriteByte(register.spec_addr() | 0x80),
                    ] + read_ops(buf@)
                },
                transfer matches Err(e) ==> e is Spi,
            decreases count - i + (if transfer is Ok {
                1int
            } else {
                0int
            }),
        {
            match self.read() {
                Ok(b) => {
                    proof {
                        assert(read_ops(buf@.push(b)) =~= read_ops(buf@).push(BusOp::ReadByte(b)));
                        assert((t0 + seq![
                            BusOp::Select,
                            BusOp::WriteByte(register.spec_addr() | 0x80),
                        ] + read_ops(buf@)).push(BusOp::ReadByte(b)) =~= t0 + seq![
                            BusOp::Select,
                            BusOp::WriteByte(register.spec_addr() | 0x80),
                        ] + read_ops(buf@).push(BusOp::ReadByte(b)));
                    }
                    buf.push(b);
                    i += 1;
                },
                Err(e) => {
                    transfer = Err(e);
                },
            }
        }
        if let Err(e) = self.chip_deselect() {
            proof {
                lemma_prefix_concat(t0, seq![BusOp::Select]);
                lemma_prefix_concat(
                    t0,
                    seq![
                        BusOp::Select,
                        BusOp::WriteByte(register.spec_addr() | 0x80),
                    ] + read_ops(buf@),
                );
                assert(t0.push(BusOp::Select) =~= t0 + seq![BusOp::Select]);
                assert(t0 + seq![
                    BusOp::Select,
                    BusOp::WriteByte(register.spec_addr() | 0x80),
                ] + read_ops(buf@) =~= t0 + (seq![
                    BusOp::Select,
                    BusOp::WriteByte(register.spec_addr() | 0x80),
                ] + read_ops(buf@)));
                lemma_prefix_trans(old(self).ops(), t0, self.ops());
            }
            return Err(Lis2dw12Error::Pin(e));
        }
        let ghost t1 = self.ops();
        proof {
            assert(t1 == t0.push(BusOp::Select).push(BusOp::Deselect) || t1 == (t0 + seq![
                BusOp::Select,
                BusOp::WriteByte(register.spec_addr() | 0x80),
            ] + read_ops(buf@)).push(BusOp::Deselect));
            assert(t0.push(BusOp::Select).push(BusOp::Deselect) =~= t0 + (seq![
                BusOp::Select,
                BusOp::Deselect,
            ]));
            assert((t0 + seq![
                BusOp::Select,
                BusOp::WriteByte(register.spec_addr() | 0x80),
            ] + read_ops(buf@)).push(BusOp::Deselect) =~= t0 + (seq![
                BusOp::Select,
                BusOp::WriteByte(register.spec_addr() | 0x80),
            ] + read_ops(buf@) + seq![BusOp::Deselect]));
            lemma_prefix_concat(t0, seq![BusOp::Select, BusOp::Deselect]);
            lemma_prefix_concat(
                t0,
                seq![
                    BusOp::Select,
                    BusOp::WriteByte(register.spec_addr() | 0x80),
                ] + read_ops(buf@) + seq![BusOp::Deselect],
            );
            lemma_prefix_trans(old(self).ops(), t0, t1);
            assert(t1.len() > t0.len() && t1.last() == BusOp::Deselect);
        }
        let clear_result = self.reg_reset_bits(Register::CTRL2, IF_ADD_INC);
        proof {
            lemma_prefix_trans(old(self).ops(), t1, self.ops());
            if clear_result is Ok {
                let v = choose|v: u8|
                    self.ops() == t1 + #[trigger] read_frame(Register::CTRL2.spec_addr(), v)
                        + write_frame(Register::CTRL2.spec_addr(), rmw(v, IF_ADD_INC, 0));
                assert(self.ops().last() == BusOp::Deselect && self.ops().len() > t1.len());
            }
        }
        if let Err(e) = clear_result {
            return Err(e);
        }
        match transfer {
            Ok(()) => {
                proof {
                    assert(t1 =~= t0 + seq![
                        BusOp::Select,
                        BusOp::WriteByte(register.spec_addr() | 0x80),
                    ] + read_ops(buf@) + seq![BusOp::Deselect]);
                    assert(burst_frames(
                        old(self).ops(),
                        self.ops(),
                        Register::CTRL2.spec_addr(),
                        IF_ADD_INC,
                        register.spec_addr(),
                        buf@,
                    ));
                }
                Ok(buf)
            },
            Err(e) => Err(e),
        }
    }

    /// Reads the six axis-output registers in one burst starting at the
    /// X-axis low byte and reassembles the three axes, each from two
    /// consecutive bytes taken little-endian as a signed 16-bit value.
    pub fn get_raw(&mut self) -> (r: Result<RawSample, Lis2dw12Error<SPI::BusError, CS::PinError>>)
        ensures
            old(self).ops().is_prefix_of(final(self).ops()),
            r matches Ok(s) ==> exists|bs: Seq<u8>|
                {
                    &&& bs.len() == 6
                    &&& #[trigger] burst_frames(
                        old(self).ops(),
                        final(self).ops(),
                        Register::CTRL2.spec_addr(),
                        IF_ADD_INC,
                        Register::OUT_X_L.spec_addr(),
                        bs,
                    )
                    &&& s.x == decode_axis(bs[0], bs[1])
                    &&& s.y == decode_axis(bs[2], bs[3])
                    &&& s.z == decode_axis(bs[4], bs[5])
                },
            (r matches Err(e) && e is Spi) ==> released_after(old(self).ops(), final(self).ops()),
    {
        let buf = match self.read_regs(Register::OUT_X_L, 6) {
            Ok(b) => b,
            Err(e) => {
                return Err(e);
            },
        };
        proof {
            lemma_axis_arith(buf@[0], buf@[1]);
            lemma_axis_arith(buf@[2], buf@[3]);
            lemma_axis_arith(buf@[4], buf@[5]);
        }
        let x = ((buf[0] as u16) + ((buf[1] as u16) << 8)) as i16;
        let y = ((buf[2] as u16) + ((buf[3] as u16) << 8)) as i16;
        let z = ((buf[4] as u16) + ((buf[5] as u16) << 8)) as i16;
        Ok(RawSample { x, y, z })
    }
}

/// Every low-power sub-mode code lies inside the field's mask unshifted.
pub proof fn lemma_low_power_mode_code_in_field(low_power_mode: LowPowerMode)
    ensures
        low_power_mode.spec_code() & !LOW_POWER_MODE_MASK == 0,
{
    let c = low_power_mode.spec_code();
    assert(c & !LOW_POWER_MODE_MASK == 0) by (bit_vector)
        requires
            c <= 3,
    ;
}

/// Every operating-mode code, shifted into place, lies inside the field's
/// mask.
pub proof fn lemma_mode_code_in_field(mode: OperatingMode)
    ensures
        (mode.spec_code() << 2) & !OPERATING_MODE_MASK == 0,
{
    let c = mode.spec_code();
    assert((c << 2) & !OPERATING_MODE_MASK == 0) by (bit_vector)
        requires
            c <= 2,
    ;
}

/// Every full-scale code, shifted into place, lies inside the field's mask.
pub proof fn lemma_full_scale_code_in_field(full_scale_selection: FullScaleSelection)
    ensures
        (full_scale_selection.spec_code() << 4) & !FULL_SCALE_MASK == 0,
{
    let c = full_scale_selection.spec_code();
    assert((c << 4) & !FULL_SCALE_MASK == 0) by (bit_vector)
        requires
            c <= 3,
    ;
}

/// Every output-data-rate code, shifted into place, lies inside the field's
/// mask.
pub proof fn lemma_odr_code_in_field(odr: OutputDataRate)
    ensures
        (odr.spec_code() << 4) & !ODR_MASK == 0,
{
    let c = odr.spec_code();
    assert((c << 4) & !ODR_MASK == 0) by (bit_vector)
        requires
            c <= 9,
    ;
}

/// Read-modify-write isolation for the low-noise setter, whose single cycle
/// either sets or clears one bit: the bit ends at the requested level and
/// every other bit of `v` is untouched.
pub proof fn lemma_low_noise_isolation(v: u8)
    ensures
        rmw(v, 0, LOW_NOISE_BIT) & !LOW_NOISE_BIT == v & !LOW_NOISE_BIT,
        rmw(v, 0, LOW_NOISE_BIT) & LOW_NOISE_BIT == LOW_NOISE_BIT,
        rmw(v, LOW_NOISE_BIT, 0) & !LOW_NOISE_BIT == v & !LOW_NOISE_BIT,
        rmw(v, LOW_NOISE_BIT, 0) & LOW_NOISE_BIT == 0,
{
    assert(LOW_NOISE_BIT & !LOW_NOISE_BIT == 0 && 0 & !LOW_NOISE_BIT == 0) by (bit_vector);
    lemma_set_only_rmw(v, LOW_NOISE_BIT);
    lemma_rmw_isolation(v, LOW_NOISE_BIT, LOW_NOISE_BIT);
    lemma_rmw_isolation(v, LOW_NOISE_BIT, 0);
}

/// Read-modify-write isolation for a two-cycle setter, with the mask and new
/// bits of any of the driver's configuration setters: against a device that
/// answers the second read with what the first cycle stored, the two cycles
/// starting from register value `v` leave the register at
/// `rmw(v, clear, set)` — the field holds exactly the new bits, and every bit
/// outside the mask still holds what `v` held. Setting the same value again
/// leaves the register unchanged.
pub proof fn lemma_setter_isolation(v: u8, clear: u8, set: u8)
    requires
        set & !clear == 0,
    ensures
        rmw(rmw(v, clear, 0), 0, set) == rmw(v, clear, set),
        rmw(v, clear, set) & !clear == v & !clear,
        rmw(v, clear, set) & clear == set,
        rmw(rmw(v, clear, set), clear, set) == rmw(v, clear, set),
{
    lemma_setter_two_step(v, clear, set);
    lemma_rmw_isolation(v, clear, set);
    lemma_rmw_idempotent(v, clear, set);
}

/// What a raw-axis read means against a faithful device: if the history a
/// successful [`Lis2dw12::get_raw`] appended ran against a faithful device,
/// the returned sample decodes the six axis-output registers pairwise
/// little-endian, exactly as the device held them.
pub proof fn lemma_sample_reads_output_registers(
    d: DeviceModel,
    pre: Seq<BusOp>,
    post: Seq<BusOp>,
    s: RawSample,
)
    requires
        device_wf(d),
        pre.is_prefix_of(post),
        faithful(d, post.skip(pre.len() as int)),
        exists|bs: Seq<u8>|
            {
                &&& bs.len() == 6
                &&& #[trigger] burst_frames(
                    pre,
                    post,
                    Register::CTRL2.spec_addr(),
                    IF_ADD_INC,
                    Register::OUT_X_L.spec_addr(),
                    bs,
                )
                &&& s.x == decode_axis(bs[0], bs[1])
                &&& s.y == decode_axis(bs[2], bs[3])
                &&& s.z == decode_axis(bs[4], bs[5])
            },
    ensures
        s.x == decode_axis(d.regs[0x28], d.regs[0x29]),
        s.y == decode_axis(d.regs[0x2A], d.regs[0x2B]),
        s.z == decode_axis(d.regs[0x2C], d.regs[0x2D]),
{
    let delta = post.skip(pre.len() as int);
    lemma_prefix_skip(pre, post);
    let bs = choose|bs: Seq<u8>|
        {
            &&& bs.len() == 6
            &&& #[trigger] burst_frames(
                pre,
                post,
                Register::CTRL2.spec_addr(),
                IF_ADD_INC,
                Register::OUT_X_L.spec_addr(),
                bs,
            )
            &&& s.x == decode_axis(bs[0], bs[1])
            &&& s.y == decode_axis(bs[2], bs[3])
            &&& s.z == decode_axis(bs[4], bs[5])
        };
    assert(Register::CTRL2.spec_addr() == 0x21 && IF_ADD_INC == 0x04
        && Register::OUT_X_L.spec_addr() == 0x28);
    assert(0x28u8 & 0x80 == 0) by (bit_vector);
    lemma_burst_frames_effect(d, pre, delta, 0x28, bs);
    let shadow = d.regs.update(0x21, rmw(d.regs[0x21], 0, 0x04));
    assert(bs[0] == shadow[0x28int + 0] && shadow[0x28] == d.regs[0x28]);
    assert(bs[1] == shadow[0x28int + 1] && shadow[0x29] == d.regs[0x29]);
    assert(bs[2] == shadow[0x28int + 2] && shadow[0x2A] == d.regs[0x2A]);
    assert(bs[3] == shadow[0x28int + 3] && shadow[0x2B] == d.regs[0x2B]);
    assert(bs[4] == shadow[0x28int + 4] && shadow[0x2C] == d.regs[0x2C]);
    assert(bs[5] == shadow[0x28int + 5] && shadow[0x2D] == d.regs[0x2D]);
}

/// Assembling an axis value does not overflow, and adding the shifted high
/// byte is the same as OR-ing it in, since the two halves occupy disjoint
/// bits.
proof fn lemma_axis_arith(lo: u8, hi: u8)
    by (bit_vector)
    ensures
        (lo as u16) + ((hi as u16) << 8) < 0x10000,
        (lo as u16) + ((hi as u16) << 8) == (((hi as u16) << 8) | (lo as u16)),
{
}

} // verus!

