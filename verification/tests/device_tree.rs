//! Reading real nodes of a device tree.
use fdt_edit::{Fdt, Node, Property};
use rk3588_drivers::fdt::{
    bridge, clocks, first_cell, phandle_array, property_cells, registers, single_phandle_property,
    Clock, PciRange, PciSpace, RegFixed,
};
use rk3588_drivers::mmc::clock::{core_clock, init_core_clock, CoreClock};
use rk3588_drivers::mmc::probe::{probe, Step};
use rk3588_drivers::pcie::error::ProbeError;
use rk3588_drivers::pcie::probe::{plan_host, probe_rk3588, reset_ids, PcieNode};
use rk3588_drivers::script::Action;

fn cells(values: &[u32]) -> Vec<u8> {
    values.iter().flat_map(|value| value.to_be_bytes()).collect()
}

fn strings(values: &[&str]) -> Vec<u8> {
    values
        .iter()
        .flat_map(|value| value.bytes().chain([0]))
        .collect()
}

fn node(name: &str, properties: Vec<(&str, Vec<u8>)>) -> Node {
    let mut node = Node::new(name);
    for (name, data) in properties {
        node.add_property(Property::new(name, data));
    }
    node
}

fn clock_unit() -> Node {
    node(
        "clock-controller",
        vec![("phandle", cells(&[2])), ("#clock-cells", cells(&[1]))],
    )
}

fn host_node() -> Node {
    node(
        "pcie@fe190000",
        vec![
            ("device_type", strings(&["pci"])),
            (
                "reg",
                cells(&[
                    0, 0xfe19_0000, 0, 0x1_0000, 0xa, 0x4100_0000, 0, 0x40_0000, 0, 0xf400_0000, 0,
                    0x10_0000,
                ]),
            ),
            ("bus-range", cells(&[0x40, 0x4f])),
            ("reset-gpios", cells(&[0xfc, 2, 0])),
            ("vpcie3v3-supply", cells(&[0x4a4])),
            ("resets", cells(&[2, 0x21e, 2, 0x223])),
            ("clocks", cells(&[2, 324, 2, 99])),
            ("clock-names", strings(&["aclk_mst", "ref"])),
            ("phys", cells(&[0x71, 2])),
            ("#address-cells", cells(&[3])),
            ("#size-cells", cells(&[2])),
            (
                "ranges",
                cells(&[
                    0x8100_0000, 0, 0xf410_0000, 0, 0xf410_0000, 0, 0x10_0000, 0x8200_0000, 0,
                    0xf420_0000, 0, 0xf420_0000, 0, 0xe0_0000, 0xc300_0000, 0xa, 0, 0xa, 0, 0,
                    0x4000_0000,
                ]),
            ),
        ],
    )
}

fn tree_with(device: Node) -> (Fdt, usize) {
    let mut fdt = Fdt::new();
    let root = fdt.root_id();
    let top = fdt.node_mut(root).unwrap();
    top.set_property(Property::new("#address-cells", cells(&[2])));
    top.set_property(Property::new("#size-cells", cells(&[2])));
    fdt.add_node(root, clock_unit());
    let id = fdt.add_node(root, device);
    (fdt, id)
}

#[test]
fn properties_as_cells() {
    let (fdt, id) = tree_with(node(
        "device",
        vec![
            ("numbers", vec![0, 0, 1, 2, 0xff, 0, 0, 0, 9, 9]),
            ("empty", vec![]),
        ],
    ));
    let view = fdt.view_typed(id).unwrap();
    assert_eq!(
        property_cells(&view, "numbers"),
        Some(vec![0x102, 0xff00_0000])
    );
    assert_eq!(property_cells(&view, "empty"), Some(vec![]));
    assert_eq!(property_cells(&view, "missing"), None);
    assert_eq!(single_phandle_property(&view, "numbers"), Some(0x102));
    assert_eq!(single_phandle_property(&view, "empty"), None);
    assert_eq!(single_phandle_property(&view, "missing"), None);
    assert_eq!(phandle_array(&view, "numbers"), vec![0x102, 0xff00_0000]);
    assert_eq!(phandle_array(&view, "missing"), Vec::<u32>::new());
    assert_eq!(first_cell(&[]), None);
    assert_eq!(first_cell(&[4, 5]), Some(4));
}

#[test]
fn clocks_of_a_node() {
    let (fdt, id) = tree_with(host_node());
    let view = fdt.view_typed(id).unwrap();
    let found = clocks(&view);
    assert_eq!(
        found,
        vec![
            Clock {
                name: Some("aclk_mst".to_string()),
                phandle: 2,
                cells: 1,
                specifier: vec![324]
            },
            Clock {
                name: Some("ref".to_string()),
                phandle: 2,
                cells: 1,
                specifier: vec![99]
            },
        ]
    );
    assert_eq!(found[1].select(), Some(99));
    assert!(found[1].is_named("ref"));
    assert!(!found[1].is_named("re"));
}

#[test]
fn clock_of_a_provider_without_cells() {
    let clock = Clock {
        name: None,
        phandle: 1,
        cells: 0,
        specifier: vec![7],
    };
    assert_eq!(clock.select(), None);
    assert!(!clock.is_named(""));
}

#[test]
fn bridge_of_a_host() {
    let (fdt, id) = tree_with(host_node());
    let found = bridge(&fdt.view_typed(id).unwrap()).unwrap();
    assert_eq!(found.bus_range, Some((0x40, 0x4f)));
    assert_eq!(
        found.ranges,
        vec![
            PciRange {
                space: PciSpace::IO,
                bus_address: 0xf410_0000,
                cpu_address: 0xf410_0000,
                size: 0x10_0000,
                prefetchable: false
            },
            PciRange {
                space: PciSpace::Memory32,
                bus_address: 0xf420_0000,
                cpu_address: 0xf420_0000,
                size: 0xe0_0000,
                prefetchable: false
            },
            PciRange {
                space: PciSpace::Memory64,
                bus_address: 0xa_0000_0000,
                cpu_address: 0xa_0000_0000,
                size: 0x4000_0000,
                prefetchable: true
            },
        ]
    );
}

#[test]
fn no_bridge_of_another_device() {
    let (fdt, id) = tree_with(node("device", vec![("bus-range", cells(&[1, 2]))]));
    let view = fdt.view_typed(id).unwrap();
    assert!(bridge(&view).is_none());
    assert_eq!(
        PcieNode::read(&view, vec![]),
        Err(ProbeError::NotMatch)
    );
}

#[test]
fn bridge_with_incomplete_ranges() {
    let (fdt, id) = tree_with(node(
        "pcie",
        vec![
            ("device_type", strings(&["pci"])),
            ("ranges", cells(&[0x8200_0000, 0])),
            ("bus-range", cells(&[5])),
        ],
    ));
    let found = bridge(&fdt.view_typed(id).unwrap()).unwrap();
    assert_eq!(found.ranges, vec![]);
    assert_eq!(found.bus_range, None);
}

#[test]
fn resets_of_a_node() {
    let (fdt, id) = tree_with(host_node());
    assert_eq!(
        reset_ids(&fdt.view_typed(id).unwrap()),
        vec![0x21e, 0x223]
    );
}

#[test]
fn host_of_a_node() {
    let (fdt, id) = tree_with(host_node());
    let view = fdt.view_typed(id).unwrap();
    let regs = vec![
        RegFixed {
            address: 0xfe19_0000,
            size: Some(0x1_0000),
        },
        RegFixed {
            address: 0xa_4100_0000,
            size: Some(0x40_0000),
        },
        RegFixed {
            address: 0xf400_0000,
            size: Some(0x10_0000),
        },
    ];
    assert_eq!(registers(&view), Some(regs.clone()));
    let read = PcieNode::read(&view, regs.clone()).unwrap();
    assert_eq!(read.regs, regs);
    assert_eq!(read.reset_gpios, Some(vec![0xfc, 2, 0]));
    assert_eq!(read.supply, Some(0x4a4));
    assert_eq!(read.resets, vec![0x21e, 0x223]);
    assert_eq!(read.phys, vec![0x71, 2]);
    assert_eq!(read.clocks.len(), 2);
    let script = probe_rk3588(&view, 1).unwrap().unwrap();
    assert_eq!(script, plan_host(&read, 1).unwrap());
    assert_eq!(script.last().unwrap().action, Action::RegisterController);
}

#[test]
fn hosts_that_are_not_probed() {
    let (fdt, id) = tree_with(node("device", vec![]));
    assert_eq!(
        probe_rk3588(&fdt.view_typed(id).unwrap(), 1),
        Some(Err(ProbeError::NotMatch))
    );
    let (fdt, id) = tree_with(node("pcie", vec![("device_type", strings(&["pci"]))]));
    assert_eq!(
        probe_rk3588(&fdt.view_typed(id).unwrap(), 1),
        Some(Err(ProbeError::NoApbRegister))
    );
}

/// A device with one register range, on a bus with those properties.
fn device_on_bus(properties: Vec<(&str, Vec<u8>)>) -> (Fdt, usize) {
    let (mut fdt, bus) = tree_with(node("bus", properties));
    let id = fdt.add_node(
        bus,
        node(
            "pcie",
            vec![
                ("device_type", strings(&["pci"])),
                ("reg", cells(&[0x1000, 0x20])),
            ],
        ),
    );
    (fdt, id)
}

#[test]
fn registers_behind_a_bus() {
    let one_cell = |name| (name, cells(&[1]));
    let (fdt, id) = device_on_bus(vec![
        one_cell("#address-cells"),
        one_cell("#size-cells"),
        ("ranges", cells(&[0x1000, 0x5, 0x8000_0000, 0x100])),
    ]);
    assert_eq!(
        registers(&fdt.view_typed(id).unwrap()),
        Some(vec![RegFixed {
            address: 0x5_8000_0000,
            size: Some(0x20)
        }])
    );
}

/// The properties of a bus of one cell each, with those ranges.
fn bus_with_ranges(ranges: &[u32]) -> Vec<(&'static str, Vec<u8>)> {
    vec![
        ("#address-cells", cells(&[1])),
        ("#size-cells", cells(&[1])),
        ("ranges", cells(ranges)),
    ]
}

#[test]
fn registers_that_cannot_be_decoded() {
    let (fdt, id) = device_on_bus(vec![("#address-cells", cells(&[0]))]);
    let view = fdt.view_typed(id).unwrap();
    assert_eq!(registers(&view), None);
    assert_eq!(probe_rk3588(&view, 1), None);
    assert_eq!(probe(&view), None);
    // The address is moved past the last one.
    let (fdt, id) = device_on_bus(bus_with_ranges(&[0xff0, 0xffff_ffff, 0xffff_ffff, 0x100]));
    assert_eq!(registers(&fdt.view_typed(id).unwrap()), None);
    // The end of a range that starts below the address is past the last one.
    let mut properties = bus_with_ranges(&[]);
    properties[0].1 = cells(&[2]);
    properties[1].1 = cells(&[2]);
    properties[2].1 = cells(&[0, 0x1000, 0, 0, 0xffff_ffff, 0xffff_ffff]);
    let (mut fdt, bus) = tree_with(node("bus", properties));
    let id = fdt.add_node(bus, node("device", vec![("reg", cells(&[0, 0x1000, 0, 4]))]));
    assert_eq!(registers(&fdt.view_typed(id).unwrap()), None);
}

#[test]
fn registers_moved_to_the_last_address() {
    let (fdt, id) =
        device_on_bus(bus_with_ranges(&[0x1000, 0xffff_ffff, 0xffff_ffff, 0x100]));
    assert_eq!(
        registers(&fdt.view_typed(id).unwrap()),
        Some(vec![RegFixed {
            address: u64::MAX,
            size: Some(0x20)
        }])
    );
}

#[test]
fn ranges_that_no_register_reaches() {
    let mut properties = bus_with_ranges(&[]);
    properties[0].1 = cells(&[2]);
    // The first range holds the address, the second starts above it and the
    // third comes too late: none of their ends is looked at.
    properties[2].1 = cells(&[
        0, 0x1000, 0x7, 0, 0x100, 0xffff_ffff, 0xffff_ff00, 0, 0, 0x200, 0, 0, 0xffff_ffff,
        0xffff_ffff, 0x1000,
    ]);
    let (mut fdt, bus) = tree_with(node("bus", properties));
    let id = fdt.add_node(bus, node("device", vec![("reg", cells(&[0, 0x1010, 4]))]));
    assert_eq!(
        registers(&fdt.view_typed(id).unwrap()),
        Some(vec![RegFixed {
            address: 0x7_0000_0010,
            size: Some(4)
        }])
    );
}

#[test]
fn addresses_of_many_cells_and_a_missing_size() {
    let mut properties = bus_with_ranges(&[]);
    properties[0].1 = cells(&[3]);
    properties[2].1 = cells(&[9, 0, 0x1000, 0x7, 0, 0x100]);
    let (mut fdt, bus) = tree_with(node("bus", properties));
    let id = fdt.add_node(
        bus,
        node(
            "device",
            vec![("reg", cells(&[5, 0, 0x1000, 8, 6, 1, 0x1000]))],
        ),
    );
    assert_eq!(
        registers(&fdt.view_typed(id).unwrap()),
        Some(vec![
            RegFixed {
                address: 0x7_0000_0000,
                size: Some(8)
            },
            RegFixed {
                address: 0x1_0000_1000,
                size: None
            },
        ])
    );
}

#[test]
fn nodes_without_registers_below_a_bus_without_addresses() {
    let (mut fdt, bus) = tree_with(node("bus", vec![("#address-cells", cells(&[0]))]));
    let host = fdt.add_node(bus, node("pcie", vec![("device_type", strings(&["pci"]))]));
    let view = fdt.view_typed(host).unwrap();
    assert_eq!(registers(&view), Some(vec![]));
    assert_eq!(
        probe_rk3588(&view, 1),
        Some(Err(ProbeError::NoApbRegister))
    );
    assert_eq!(
        probe(&view),
        Some(Err(rk3588_drivers::mmc::error::ProbeError::NoRegister))
    );
}

#[test]
fn registers_of_a_node_without_any() {
    let (fdt, id) = tree_with(node("device", vec![]));
    assert_eq!(registers(&fdt.view_typed(id).unwrap()), Some(vec![]));
    assert_eq!(
        registers(&fdt.view_typed(fdt.root_id()).unwrap()),
        Some(vec![])
    );
}

#[test]
fn core_clock_of_a_controller() {
    let (fdt, id) = tree_with(node(
        "mmc",
        vec![
            ("reg", cells(&[0, 0xfe2e_0000])),
            ("clocks", cells(&[2, 12, 2, 34, 2, 56])),
            ("clock-names", strings(&["bus", "core", "core"])),
        ],
    ));
    let view = fdt.view_typed(id).unwrap();
    let core = Some(CoreClock { phandle: 2, id: 34 });
    assert_eq!(init_core_clock(&view), core);
    let begun = probe(&view).unwrap().unwrap();
    assert_eq!(begun.core, core);
    assert_eq!(begun.address, 0xfe2e_0000);
    assert_eq!(begun.size, 0x1000);
    assert_eq!(begun.step, Step::MapRegisters);
}

#[test]
fn core_clock_without_number() {
    let clock = |name: Option<&str>, cells, specifier| Clock {
        name: name.map(|text| text.to_string()),
        phandle: 9,
        cells,
        specifier,
    };
    assert_eq!(
        core_clock(&[clock(None, 1, vec![4]), clock(Some("core"), 0, vec![])]),
        Some(CoreClock { phandle: 9, id: 0 })
    );
    assert_eq!(core_clock(&[clock(Some("cores"), 1, vec![4])]), None);
    assert_eq!(core_clock(&[]), None);
}
