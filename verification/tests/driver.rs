//! Tests driving the driver against a simulated device: a register file
//! behind the two capability traits, which also keeps a log of everything
//! that happened at its pins and can be told to fail a given byte exchange
//! or select-line drive.

use std::cell::RefCell;
use std::rc::Rc;

use lis2dw12::{
    FullScaleSelection, Lis2dw12, Lis2dw12Error, LowPowerMode, OperatingMode, OutputDataRate,
    RawSample, Register, SelectPin, SpiBus, DEVICE_ID,
};

/// One observable event at the simulated device's pins.
#[derive(Clone, Copy, Debug, PartialEq, Eq)]
enum WireOp {
    /// Select line driven low (active).
    Low,
    /// Select line driven high (inactive).
    High,
    /// One byte exchange: (byte shifted in, byte shifted out).
    Xfer(u8, u8),
}

const SPI_FAULT: u8 = 0xEE;
const PIN_FAULT: u8 = 0xDD;

struct DeviceState {
    regs: [u8; 0x40],
    selected: bool,
    /// Latched (address, read-mode) once the first byte of a bracket landed.
    latched: Option<(u8, bool)>,
    log: Vec<WireOp>,
    xfer_failures: Vec<usize>,
    xfer_count: usize,
    pin_failures: Vec<usize>,
    pin_count: usize,
}

impl DeviceState {
    fn auto_increment(&self) -> bool {
        self.regs[0x21] & 0x04 != 0
    }

    fn exchange(&mut self, mosi: u8) -> Result<u8, u8> {
        let n = self.xfer_count;
        self.xfer_count += 1;
        if self.xfer_failures.contains(&n) {
            return Err(SPI_FAULT);
        }
        let miso = if !self.selected {
            0
        } else {
            match self.latched {
                None => {
                    self.latched = Some((mosi & 0x7F, mosi & 0x80 != 0));
                    0
                }
                Some((a, read)) => {
                    let idx = (a as usize) & 0x3F;
                    let out = if read {
                        self.regs[idx]
                    } else {
                        self.regs[idx] = mosi;
                        0
                    };
                    if self.auto_increment() {
                        self.latched = Some((a.wrapping_add(1), read));
                    }
                    out
                }
            }
        };
        self.log.push(WireOp::Xfer(mosi, miso));
        Ok(miso)
    }

    fn drive(&mut self, high: bool) -> Result<(), u8> {
        let n = self.pin_count;
        self.pin_count += 1;
        if self.pin_failures.contains(&n) {
            return Err(PIN_FAULT);
        }
        self.selected = !high;
        self.latched = None;
        self.log.push(if high { WireOp::High } else { WireOp::Low });
        Ok(())
    }
}

#[derive(Clone)]
struct SharedDevice(Rc<RefCell<DeviceState>>);

impl SharedDevice {
    fn new() -> Self {
        SharedDevice(Rc::new(RefCell::new(DeviceState {
            regs: [0; 0x40],
            selected: false,
            latched: None,
            log: Vec::new(),
            xfer_failures: Vec::new(),
            xfer_count: 0,
            pin_failures: Vec::new(),
            pin_count: 0,
        })))
    }

    fn set_reg(&self, addr: u8, value: u8) {
        self.0.borrow_mut().regs[addr as usize] = value;
    }

    fn reg(&self, addr: u8) -> u8 {
        self.0.borrow().regs[addr as usize]
    }

    fn log(&self) -> Vec<WireOp> {
        self.0.borrow().log.clone()
    }

    fn clear_log(&self) {
        self.0.borrow_mut().log.clear();
    }

    fn fail_xfer(&self, n: usize) {
        self.0.borrow_mut().xfer_failures.push(n);
    }

    fn fail_pin(&self, n: usize) {
        self.0.borrow_mut().pin_failures.push(n);
    }
}

struct MockSpi(SharedDevice);

impl SpiBus for MockSpi {
    type BusError = u8;

    fn exchange(&mut self, byte: u8) -> Result<u8, u8> {
        self.0 .0.borrow_mut().exchange(byte)
    }
}

struct MockPin(SharedDevice);

impl SelectPin for MockPin {
    type PinError = u8;

    fn set_high(&mut self) -> Result<(), u8> {
        self.0 .0.borrow_mut().drive(true)
    }

    fn set_low(&mut self) -> Result<(), u8> {
        self.0 .0.borrow_mut().drive(false)
    }
}

type MockDriver = Lis2dw12<MockSpi, MockPin>;

fn driver(dev: &SharedDevice) -> MockDriver {
    match Lis2dw12::new(MockSpi(dev.clone()), MockPin(dev.clone())) {
        Ok(d) => d,
        Err(_) => panic!("construction failed"),
    }
}

#[test]
fn new_drives_select_inactive() {
    let dev = SharedDevice::new();
    let _driver = driver(&dev);
    assert_eq!(dev.log(), vec![WireOp::High]);
    assert!(!dev.0.borrow().selected);
}

#[test]
fn new_reports_pin_failure() {
    let dev = SharedDevice::new();
    dev.fail_pin(0);
    let r = Lis2dw12::new(MockSpi(dev.clone()), MockPin(dev.clone()));
    assert!(matches!(r, Err(Lis2dw12Error::Pin(PIN_FAULT))));
}

#[test]
fn get_device_id_framing_and_value() {
    let dev = SharedDevice::new();
    dev.set_reg(0x0F, DEVICE_ID);
    let mut d = driver(&dev);
    dev.clear_log();
    let id = d.get_device_id().unwrap();
    assert_eq!(id, DEVICE_ID);
    // Exactly one write of the address with the read flag, one read, inside
    // one select/deselect bracket, in that order.
    assert_eq!(
        dev.log(),
        vec![
            WireOp::Low,
            WireOp::Xfer(0x8F, 0x00),
            WireOp::Xfer(0x00, DEVICE_ID),
            WireOp::High,
        ]
    );
}

#[test]
fn get_device_id_returns_byte_unmodified() {
    let dev = SharedDevice::new();
    dev.set_reg(0x0F, 0xA7);
    let mut d = driver(&dev);
    assert_eq!(d.get_device_id().unwrap(), 0xA7);
}

#[test]
fn set_mode_preserves_sibling_bits() {
    let dev = SharedDevice::new();
    dev.set_reg(0x20, 0b1010_1011);
    let mut d = driver(&dev);
    d.set_mode(OperatingMode::HighPerformance).unwrap();
    // Bits 2-3 now hold the mode code 0b01; every other bit is untouched.
    assert_eq!(dev.reg(0x20), 0b1010_0111);
}

#[test]
fn set_low_power_mode_preserves_sibling_bits() {
    let dev = SharedDevice::new();
    dev.set_reg(0x20, 0b1111_1111);
    let mut d = driver(&dev);
    d.set_low_power_mode(LowPowerMode::Mode2).unwrap();
    assert_eq!(dev.reg(0x20), 0b1111_1101);
}

#[test]
fn set_full_scale_preserves_sibling_bits() {
    let dev = SharedDevice::new();
    dev.set_reg(0x20, 0b0100_1011);
    let mut d = driver(&dev);
    d.set_full_scale_selection(FullScaleSelection::PlusMinus16).unwrap();
    assert_eq!(dev.reg(0x20), 0b0111_1011);
}

#[test]
fn set_output_data_rate_preserves_sibling_bits() {
    let dev = SharedDevice::new();
    dev.set_reg(0x20, 0b1111_1010);
    let mut d = driver(&dev);
    d.set_output_data_rate(OutputDataRate::PowerDown).unwrap();
    assert_eq!(dev.reg(0x20), 0b0000_1010);
    d.set_output_data_rate(OutputDataRate::Hp100Hz_Lp100Hz).unwrap();
    assert_eq!(dev.reg(0x20), 0b0101_1010);
}

#[test]
fn set_low_noise_sets_and_clears_only_its_bit() {
    let dev = SharedDevice::new();
    dev.set_reg(0x20, 0b1000_0001);
    let mut d = driver(&dev);
    d.set_low_noise(true).unwrap();
    assert_eq!(dev.reg(0x20), 0b1000_0101);
    d.set_low_noise(false).unwrap();
    assert_eq!(dev.reg(0x20), 0b1000_0001);
}

#[test]
fn setting_same_value_twice_is_idempotent() {
    let dev = SharedDevice::new();
    dev.set_reg(0x20, 0b1001_0110);
    let mut d = driver(&dev);
    d.set_full_scale_selection(FullScaleSelection::PlusMinus8).unwrap();
    let after_once = dev.reg(0x20);
    d.set_full_scale_selection(FullScaleSelection::PlusMinus8).unwrap();
    assert_eq!(dev.reg(0x20), after_once);
}

#[test]
fn setter_uses_read_modify_write_not_blind_overwrite() {
    let dev = SharedDevice::new();
    dev.set_reg(0x20, 0b0000_0000);
    let mut d = driver(&dev);
    d.set_output_data_rate(OutputDataRate::Hp25Hz_Lp25Hz).unwrap();
    d.set_mode(OperatingMode::SingleOnDemand).unwrap();
    d.set_low_power_mode(LowPowerMode::Mode4).unwrap();
    // Three setters on the shared register leave all three fields in place.
    assert_eq!(dev.reg(0x20), 0b0011_1011);
}

#[test]
fn get_raw_decodes_little_endian_pairs() {
    let dev = SharedDevice::new();
    let bytes = [0x10, 0x00, 0x00, 0x80, 0xFF, 0xFF];
    for (i, b) in bytes.iter().enumerate() {
        dev.set_reg(0x28 + i as u8, *b);
    }
    let mut d = driver(&dev);
    let raw = d.get_raw().unwrap();
    assert_eq!(raw, RawSample { x: 16, y: -32768, z: -1 });
    // The auto-increment flag was cleared again afterwards.
    assert_eq!(dev.reg(0x21) & 0x04, 0);
}

#[test]
fn burst_framing_is_one_bracket_with_flag_toggled_around() {
    let dev = SharedDevice::new();
    let bytes = [0x10, 0x00, 0x00, 0x80, 0xFF, 0xFF];
    for (i, b) in bytes.iter().enumerate() {
        dev.set_reg(0x28 + i as u8, *b);
    }
    let mut d = driver(&dev);
    dev.clear_log();
    d.get_raw().unwrap();
    let expected = vec![
        // Read-modify-write cycle setting the auto-increment flag in CTRL2.
        WireOp::Low,
        WireOp::Xfer(0xA1, 0x00),
        WireOp::Xfer(0x00, 0x00),
        WireOp::High,
        WireOp::Low,
        WireOp::Xfer(0x21, 0x00),
        WireOp::Xfer(0x04, 0x00),
        WireOp::High,
        // The burst: six bytes inside a single select/deselect bracket.
        WireOp::Low,
        WireOp::Xfer(0xA8, 0x00),
        WireOp::Xfer(0x00, 0x10),
        WireOp::Xfer(0x00, 0x00),
        WireOp::Xfer(0x00, 0x00),
        WireOp::Xfer(0x00, 0x80),
        WireOp::Xfer(0x00, 0xFF),
        WireOp::Xfer(0x00, 0xFF),
        WireOp::High,
        // Read-modify-write cycle clearing the flag again.
        WireOp::Low,
        WireOp::Xfer(0xA1, 0x00),
        WireOp::Xfer(0x00, 0x04),
        WireOp::High,
        WireOp::Low,
        WireOp::Xfer(0x21, 0x00),
        WireOp::Xfer(0x00, 0x00),
        WireOp::High,
    ];
    assert_eq!(dev.log(), expected);
}

#[test]
fn read_regs_returns_count_bytes_in_order() {
    let dev = SharedDevice::new();
    dev.set_reg(0x0D, 0x11);
    dev.set_reg(0x0E, 0x22);
    let mut d = driver(&dev);
    let bytes = d.read_regs(Register::OUT_T_L, 2).unwrap();
    assert_eq!(bytes, vec![0x11, 0x22]);
}

#[test]
fn read_regs_zero_count_still_brackets_and_toggles_flag() {
    let dev = SharedDevice::new();
    let mut d = driver(&dev);
    let bytes = d.read_regs(Register::OUT_X_L, 0).unwrap();
    assert_eq!(bytes, Vec::<u8>::new());
    assert_eq!(dev.reg(0x21) & 0x04, 0);
    assert_eq!(dev.log().last(), Some(&WireOp::High));
}

#[test]
fn spi_failure_reports_transport_error_and_still_deselects() {
    let dev = SharedDevice::new();
    dev.fail_xfer(0);
    let mut d = driver(&dev);
    dev.clear_log();
    let r = d.get_device_id();
    assert!(matches!(r, Err(Lis2dw12Error::Spi(SPI_FAULT))));
    // The select line was still driven back to inactive.
    assert_eq!(dev.log(), vec![WireOp::Low, WireOp::High]);
    assert!(!dev.0.borrow().selected);
}

#[test]
fn spi_failure_inside_burst_still_deselects_and_clears_flag() {
    let dev = SharedDevice::new();
    let mut d = driver(&dev);
    // Exchanges 0-3 are the flag-setting cycle, 4 is the burst address,
    // 5 and 6 are burst data; fail the third data byte.
    dev.fail_xfer(7);
    let r = d.get_raw();
    assert!(matches!(r, Err(Lis2dw12Error::Spi(SPI_FAULT))));
    assert_eq!(dev.reg(0x21) & 0x04, 0);
    assert_eq!(dev.log().last(), Some(&WireOp::High));
    assert!(!dev.0.borrow().selected);
}

#[test]
fn select_failure_reports_pin_error_before_any_transfer() {
    let dev = SharedDevice::new();
    let mut d = driver(&dev);
    // Pin drive 0 was construction's deselect; fail the next one, the select.
    dev.fail_pin(1);
    dev.clear_log();
    let r = d.get_device_id();
    assert!(matches!(r, Err(Lis2dw12Error::Pin(PIN_FAULT))));
    assert_eq!(dev.log(), vec![]);
}

#[test]
fn deselect_failure_reported_even_after_successful_transfer() {
    let dev = SharedDevice::new();
    dev.set_reg(0x0F, DEVICE_ID);
    let mut d = driver(&dev);
    // Pin drives: 0 construction, 1 select, 2 deselect; fail the deselect.
    dev.fail_pin(2);
    dev.clear_log();
    let r = d.get_device_id();
    assert!(matches!(r, Err(Lis2dw12Error::Pin(PIN_FAULT))));
    // The data transfer itself had succeeded before the failing deselect.
    assert_eq!(
        dev.log(),
        vec![
            WireOp::Low,
            WireOp::Xfer(0x8F, 0x00),
            WireOp::Xfer(0x00, DEVICE_ID),
        ]
    );
}

#[test]
fn error_kinds_stay_distinct() {
    let dev = SharedDevice::new();
    let mut d = driver(&dev);
    dev.fail_xfer(0);
    assert!(matches!(d.get_device_id(), Err(Lis2dw12Error::Spi(_))));
    let dev2 = SharedDevice::new();
    let mut d2 = driver(&dev2);
    dev2.fail_pin(1);
    assert!(matches!(d2.get_device_id(), Err(Lis2dw12Error::Pin(_))));
}

#[test]
fn identity_constant_is_fixed() {
    assert_eq!(DEVICE_ID, 0x44);
}

#[test]
fn register_addresses_match_the_map() {
    assert_eq!(Register::OUT_T_L.addr(), 0x0D);
    assert_eq!(Register::WHO_AM_I.addr(), 0x0F);
    assert_eq!(Register::CTRL1.addr(), 0x20);
    assert_eq!(Register::CTRL2.addr(), 0x21);
    assert_eq!(Register::OUT_X_L.addr(), 0x28);
    assert_eq!(Register::OUT_Z_H.addr(), 0x2D);
    assert_eq!(Register::CTRL7.addr(), 0x3F);
}
