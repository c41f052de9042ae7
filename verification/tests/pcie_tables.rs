//! The tables and formulas of the PCIe host, on exact values.
use rk3588_drivers::fdt::{PciRange, PciSpace, RegFixed};
use rk3588_drivers::hiword::{field_word, mmio_update32, single_bit_word};
use rk3588_drivers::pcie::clock::{controller_clock_id, rk3588_pcie_1l_index};
use rk3588_drivers::pcie::error::ProbeError;
use rk3588_drivers::pcie::gpio::{
    gpio_base, rk3588_gpio_bank_from_phandle, RegisterWrite, Rk3588GpioOutput, Rk3588GpioReset,
};
use rk3588_drivers::pcie::host::{
    bus_range_info, config_window, is_config_range, program_memory_windows, set_bar_ranges,
    set_rk3588_bar_range,
};
use rk3588_drivers::pcie::phy::{grf_param_write, rk3588_naneng_combphy, Rk3588Combphy};
use rk3588_drivers::pcie::power::fixed_regulator_gpio;
use rk3588_drivers::pcie::probe::{
    pcie_reset_gpio, reset_gpio_bank, reset_gpio_cells, reset_numbers, rk3588_pcie_reset_pin,
    Rk3588ResetPin,
};
use rk3588_drivers::pcie::reset::{
    assert_reset_id, deassert_reset_id, rk3588_reset_location, write_reset_id, ResetWrite,
};
use rk3588_drivers::script::{Action, OutboundWindow, Slot, Window};

fn memory(space: PciSpace, cpu_address: u64, bus_address: u64, size: u64) -> PciRange {
    PciRange {
        space,
        bus_address,
        cpu_address,
        size,
        prefetchable: false,
    }
}

#[test]
fn single_bit_words() {
    assert_eq!(single_bit_word(0, true), 0x0001_0001);
    assert_eq!(single_bit_word(0, false), 0x0001_0000);
    assert_eq!(single_bit_word(15, true), 0x8000_8000);
    assert_eq!(single_bit_word(5, false), 0x0020_0000);
}

#[test]
fn field_words() {
    assert_eq!(field_word(15, 0, 0x1000), 0xffff_1000);
    assert_eq!(field_word(14, 13, 0x02), 0x6000_4000);
    assert_eq!(field_word(1, 1, 0), 0x0002_0000);
    assert_eq!(field_word(31, 0, 0x1234), 0xffff_1234);
    assert_eq!(field_word(40, 4, 1), 0xffff_0010);
}

#[test]
fn field_update_keeps_the_other_bits() {
    assert_eq!(mmio_update32(0xffff_ffff, 0x1c, 0x10), 0xffff_fff3);
    assert_eq!(mmio_update32(0, 0x1c, 0xff), 0x1c);
    assert_eq!(mmio_update32(0x1234_5678, 0, 0xffff_ffff), 0x1234_5678);
}

#[test]
fn default_reset_pins() {
    assert_eq!(
        rk3588_pcie_reset_pin(0xfe18_0000),
        Some(Rk3588ResetPin {
            bank: 3,
            pin: 11,
            active_high: true
        })
    );
    assert_eq!(
        rk3588_pcie_reset_pin(0xfe19_0000),
        Some(Rk3588ResetPin {
            bank: 4,
            pin: 2,
            active_high: true
        })
    );
    assert_eq!(rk3588_pcie_reset_pin(0xfe15_0000), None);
}

#[test]
fn gpio_banks() {
    assert_eq!(gpio_base(0), Some(0xfd8a_0000));
    assert_eq!(gpio_base(1), Some(0xfec2_0000));
    assert_eq!(gpio_base(4), Some(0xfec5_0000));
    assert_eq!(gpio_base(5), None);
    assert_eq!(rk3588_gpio_bank_from_phandle(0xf8), Some(0));
    assert_eq!(rk3588_gpio_bank_from_phandle(0x107), Some(3));
    assert_eq!(rk3588_gpio_bank_from_phandle(0x108), Some(4));
    assert_eq!(rk3588_gpio_bank_from_phandle(0x10e), Some(4));
    assert_eq!(rk3588_gpio_bank_from_phandle(0xfd), None);
    assert_eq!(rk3588_gpio_bank_from_phandle(0x10d), None);
}

#[test]
fn gpio_bank_that_does_not_exist() {
    assert_eq!(
        Rk3588GpioOutput::map(5, 0, true),
        Err(ProbeError::InvalidGpioBank(5))
    );
    assert_eq!(
        Rk3588GpioReset::map(0, 9, 0, true),
        Err(ProbeError::InvalidGpioBank(9))
    );
}

#[test]
fn gpio_line_low_half() {
    let line = Rk3588GpioOutput::map(0, 14, true).unwrap();
    assert_eq!(line.base, 0xfd8a_0000);
    assert_eq!(
        line.set_logical(true),
        [
            RegisterWrite {
                offset: 0,
                value: 0x4000_4000
            },
            RegisterWrite {
                offset: 8,
                value: 0x4000_4000
            },
        ]
    );
}

#[test]
fn gpio_line_high_half_active_low() {
    let line = Rk3588GpioOutput::map(4, 20, false).unwrap();
    assert_eq!(
        line.set_logical(true),
        [
            RegisterWrite {
                offset: 4,
                value: 0x0010_0000
            },
            RegisterWrite {
                offset: 0xc,
                value: 0x0010_0010
            },
        ]
    );
    assert_eq!(
        line.write_masked_pair(0x20, 0x24, true),
        RegisterWrite {
            offset: 0x24,
            value: 0x0010_0010
        }
    );
}

#[test]
fn perst_is_asserted_and_released() {
    let line = Rk3588GpioReset::map(0xfe18_0000, 3, 11, true).unwrap();
    assert_eq!(line.assert_perst()[0].value, 0x0800_0800);
    assert_eq!(line.deassert_perst()[0].value, 0x0800_0000);
    assert_eq!(line.deassert_perst()[1].value, 0x0800_0800);
    let inverted = Rk3588GpioReset::map(0xfe18_0000, 3, 11, false).unwrap();
    assert_eq!(inverted.assert_perst(), line.deassert_perst());
    assert_eq!(
        line.write_masked_pair(0, 4, true),
        RegisterWrite {
            offset: 0,
            value: 0x0800_0800
        }
    );
}

#[test]
fn reset_line_from_the_node() {
    let cells = Some(vec![0xfc, 6, 1]);
    assert_eq!(reset_gpio_cells(&cells), Some((6, false)));
    assert_eq!(reset_gpio_bank(&cells), Some(4));
    assert_eq!(
        pcie_reset_gpio(&cells, 0xfe15_0000),
        Some(Rk3588GpioReset {
            pin: 6,
            active_high: false,
            base: 0xfec5_0000
        })
    );
}

#[test]
fn reset_line_falls_back_piecewise() {
    // Unknown bank: the pin of the node, the bank of the host.
    assert_eq!(
        pcie_reset_gpio(&Some(vec![0x999, 6]), 0xfe18_0000),
        Some(Rk3588GpioReset {
            pin: 6,
            active_high: true,
            base: 0xfec4_0000
        })
    );
    // No pin: the bank of the node, the pin of the host.
    assert_eq!(
        pcie_reset_gpio(&Some(vec![0xf8]), 0xfe19_0000),
        Some(Rk3588GpioReset {
            pin: 2,
            active_high: true,
            base: 0xfd8a_0000
        })
    );
    assert_eq!(
        pcie_reset_gpio(&None, 0xfe18_0000),
        Some(Rk3588GpioReset {
            pin: 11,
            active_high: true,
            base: 0xfec4_0000
        })
    );
    assert_eq!(pcie_reset_gpio(&None, 0xfe15_0000), None);
    assert_eq!(pcie_reset_gpio(&Some(vec![0x999, 6]), 0xfe15_0000), None);
}

#[test]
fn reset_gpio_cells_that_name_no_pin() {
    assert_eq!(reset_gpio_cells(&None), None);
    assert_eq!(reset_gpio_cells(&Some(vec![])), None);
    assert_eq!(reset_gpio_cells(&Some(vec![0xf8])), None);
    assert_eq!(reset_gpio_cells(&Some(vec![0xf8, 256])), None);
    assert_eq!(reset_gpio_cells(&Some(vec![0xf8, 255])), Some((255, true)));
    assert_eq!(reset_gpio_cells(&Some(vec![0xf8, 3, 2])), Some((3, true)));
    assert_eq!(reset_gpio_bank(&Some(vec![])), None);
    assert_eq!(reset_gpio_bank(&None), None);
}

#[test]
fn reset_numbers_are_every_second_cell() {
    assert_eq!(reset_numbers(&[2, 10, 2, 11, 2, 12]), vec![10, 11, 12]);
    assert_eq!(reset_numbers(&[2, 10, 2]), vec![10]);
    assert_eq!(reset_numbers(&[2]), Vec::<u32>::new());
}

#[test]
fn controller_indices() {
    assert_eq!(rk3588_pcie_1l_index(0xfe15_0000), Some(0));
    assert_eq!(rk3588_pcie_1l_index(0xfe18_0000), Some(1));
    assert_eq!(rk3588_pcie_1l_index(0xfe19_0000), Some(2));
    assert_eq!(rk3588_pcie_1l_index(0xfe16_0000), None);
}

#[test]
fn controller_clocks() {
    let expected = [
        ("aclk_mst", [322, 323, 324]),
        ("aclk_slv", [327, 328, 329]),
        ("aclk_dbi", [317, 318, 319]),
        ("pclk", [332, 333, 334]),
        ("aux", [337, 338, 339]),
        ("pipe", [687, 688, 371]),
    ];
    let bases = [0xfe15_0000, 0xfe18_0000, 0xfe19_0000];
    for (name, ids) in expected {
        for (base, id) in bases.into_iter().zip(ids) {
            assert_eq!(controller_clock_id(base, Some(name)), Some(id));
        }
    }
    assert_eq!(controller_clock_id(0xfe15_0000, Some("ref")), None);
    assert_eq!(controller_clock_id(0xfe15_0000, None), None);
    assert_eq!(controller_clock_id(0xfe16_0000, Some("pclk")), None);
}

#[test]
fn combphys() {
    assert_eq!(
        rk3588_naneng_combphy(0x110),
        Some(Rk3588Combphy {
            id: 0,
            mmio_base: 0xfee0_0000,
            phy_grf_base: 0xfd5b_c000,
            pipe_grf_base: 0xfd5b_0000,
            apb_reset: 0x20005,
            phy_reset: 0x4d6
        })
    );
    assert_eq!(
        rk3588_naneng_combphy(0x1c5),
        Some(Rk3588Combphy {
            id: 1,
            mmio_base: 0xfee1_0000,
            phy_grf_base: 0xfd5c_0000,
            pipe_grf_base: 0xfd5b_0000,
            apb_reset: 0x20006,
            phy_reset: 0x4d7
        })
    );
    assert_eq!(
        rk3588_naneng_combphy(0x71),
        Some(Rk3588Combphy {
            id: 2,
            mmio_base: 0xfee2_0000,
            phy_grf_base: 0xfd5c_4000,
            pipe_grf_base: 0xfd5b_0000,
            apb_reset: 0x20007,
            phy_reset: 0x4d8
        })
    );
    assert_eq!(rk3588_naneng_combphy(0x72), None);
}

#[test]
fn control_register_write() {
    assert_eq!(
        grf_param_write(Slot::PhyGrf, 0x4, 14, 13, 2),
        Action::Write {
            slot: Slot::PhyGrf,
            offset: 4,
            value: 0x6000_4000
        }
    );
}

#[test]
fn reset_locations() {
    assert_eq!(rk3588_reset_location(0x4d6), Some((0xfd7c_0000, 77, 6)));
    assert_eq!(rk3588_reset_location(0), Some((0xfd7c_0000, 0, 0)));
    assert_eq!(rk3588_reset_location(0xffff), Some((0xfd7c_0000, 4095, 15)));
    assert_eq!(rk3588_reset_location(0x20006), Some((0xfd7c_8000, 0, 6)));
    assert_eq!(rk3588_reset_location(0x10000), None);
    assert_eq!(rk3588_reset_location(0x20004), None);
    assert_eq!(rk3588_reset_location(0x20008), None);
}

#[test]
fn reset_writes() {
    let window = Window {
        base: 0xfd7c_0000,
        size: 0x5c000,
    };
    assert_eq!(
        assert_reset_id(0x4d6),
        Some(ResetWrite {
            window,
            offset: 0xb34,
            value: 0x0040_0040
        })
    );
    assert_eq!(
        deassert_reset_id(0x4d6),
        Some(ResetWrite {
            window,
            offset: 0xb34,
            value: 0x0040_0000
        })
    );
    assert_eq!(write_reset_id(0x30000, true), None);
    assert_eq!(write_reset_id(0x4d6, true), assert_reset_id(0x4d6));
}

#[test]
fn regulators() {
    assert_eq!(fixed_regulator_gpio(0x1c2), Some((0, 14, true, 5_000)));
    assert_eq!(fixed_regulator_gpio(0x1c6), Some((0, 21, true, 50_000)));
    assert_eq!(fixed_regulator_gpio(0x4a4), Some((4, 20, false, 50_000)));
    assert_eq!(fixed_regulator_gpio(0x1c3), None);
}

#[test]
fn bus_ranges() {
    assert_eq!(bus_range_info(None), (0, 255));
    assert_eq!(bus_range_info(Some(0x30..0x3f)), (0x30, 0xf));
    assert_eq!(bus_range_info(Some(0x40..0x40)), (0x40, 1));
    assert_eq!(bus_range_info(Some(core::ops::Range { start: 7, end: 3 })), (7, 1));
    assert_eq!(bus_range_info(Some(0..1000)), (0, 255));
    assert_eq!(bus_range_info(Some(300..302)), (255, 2));
}

#[test]
fn config_window_from_the_third_register() {
    let reg = |address, size| RegFixed { address, size };
    let regs = [
        reg(1, Some(2)),
        reg(3, Some(4)),
        reg(0xf300_0000, Some(0x4000)),
    ];
    assert_eq!(config_window(&regs, &[]), Ok((0xf300_0000, 0x4000)));
    let unsized_regs = [reg(1, None), reg(3, None), reg(0xf300_0000, None)];
    assert_eq!(config_window(&unsized_regs, &[]), Ok((0xf300_0000, 0x10_0000)));
}

#[test]
fn config_window_from_the_ranges() {
    let ranges = [
        memory(PciSpace::IO, 0x10, 0x10, 0x10_0000),
        memory(PciSpace::Memory64, 0x20, 0x20, 0x10_0000),
        memory(PciSpace::Memory32, 0x30, 0x31, 0x10_0000),
        memory(PciSpace::Memory32, 0x40, 0x40, 0x20_0000),
        memory(PciSpace::Memory32, 0xf300_0000, 0xf300_0000, 0x10_0000),
        memory(PciSpace::Memory32, 0xf400_0000, 0xf400_0000, 0x10_0000),
    ];
    assert_eq!(config_window(&[], &ranges), Ok((0xf300_0000, 0x10_0000)));
    assert_eq!(
        config_window(&[], &ranges[..4]),
        Err(ProbeError::NoConfigWindow)
    );
}

#[test]
fn outbound_windows_are_numbered_from_one() {
    let config = memory(PciSpace::Memory32, 0xf300_0000, 0xf300_0000, 0x10_0000);
    let ranges = [
        config,
        memory(PciSpace::IO, 0xf310_0000, 0xf310_0000, 0x10_0000),
        memory(PciSpace::Memory32, 0xf320_0000, 0xe320_0000, 0xe0_0000),
        memory(PciSpace::Memory64, 0x9_0000_0000, 0x9_0000_0000, 0x4000_0000),
    ];
    assert!(is_config_range(&config, 0xf300_0000, 0x10_0000));
    assert!(!is_config_range(&ranges[1], 0xf300_0000, 0x10_0000));
    let script = program_memory_windows(&ranges, 0xf300_0000, 0x10_0000);
    let actions: Vec<Action> = script.iter().map(|instr| instr.action).collect();
    assert_eq!(
        actions,
        vec![
            Action::ProgramWindow {
                region: 1,
                outbound: OutboundWindow {
                    cpu_base: 0xf320_0000,
                    pci_base: 0xe320_0000,
                    size: 0xe0_0000
                }
            },
            Action::ProgramWindow {
                region: 2,
                outbound: OutboundWindow {
                    cpu_base: 0x9_0000_0000,
                    pci_base: 0x9_0000_0000,
                    size: 0x4000_0000
                }
            },
        ]
    );
}

#[test]
fn outbound_window_numbers_stop_at_the_highest() {
    let ranges = vec![memory(PciSpace::Memory32, 0, 0, 1); 300];
    let script = program_memory_windows(&ranges, 5, 5);
    assert_eq!(script.len(), 300);
    let region = |i: usize| match script[i].action {
        Action::ProgramWindow { region, .. } => region,
        _ => unreachable!(),
    };
    assert_eq!(region(0), 1);
    assert_eq!(region(254), 255);
    assert_eq!(region(255), 255);
    assert_eq!(region(299), 255);
}

#[test]
fn bar_ranges_leave_the_config_window_out() {
    let config = memory(PciSpace::Memory32, 0xf300_0000, 0xf300_0000, 0x10_0000);
    let io = memory(PciSpace::IO, 1, 1, 1);
    let low = memory(PciSpace::Memory32, 2, 2, 2);
    let high = memory(PciSpace::Memory64, 3, 3, 3);
    let script = set_bar_ranges(&[config, io, low, high], 0xf300_0000, 0x10_0000);
    let actions: Vec<Action> = script.iter().map(|instr| instr.action).collect();
    assert_eq!(
        actions,
        vec![
            Action::SetBarRange {
                range: io,
                mem64: false
            },
            Action::SetBarRange {
                range: low,
                mem64: true
            },
            Action::SetBarRange {
                range: high,
                mem64: false
            },
        ]
    );
    assert_eq!(set_rk3588_bar_range(&low), script[1]);
}
