//! Reading a node of the device tree.
//!
//! `fdt_edit` holds the tree. The functions of this module take from one node
//! what the drivers look at, and decode it into plain values.
use crate::text::same_text;
use vstd::prelude::*;

verus! {

/// The view of one device-tree node that `fdt_edit` hands out.
#[verifier::external_type_specification]
#[verifier::external_body]
pub struct ExNodeType<'a>(fdt_edit::NodeType<'a>);

/// The address space that a range of a PCI bridge lies in.
#[derive(Clone, Copy, Debug, PartialEq, Eq)]
pub enum PciSpace {
    IO,
    Memory32,
    Memory64,
}

/// One entry of the `ranges` property of a PCI bridge.
#[derive(Clone, Copy, Debug, PartialEq, Eq)]
pub struct PciRange {
    pub space: PciSpace,
    pub bus_address: u64,
    pub cpu_address: u64,
    pub size: u64,
    pub prefetchable: bool,
}

/// One entry of a `reg` property, with the address as the CPU sees it.
#[derive(Clone, Copy, Debug, PartialEq, Eq)]
pub struct RegFixed {
    pub address: u64,
    pub size: Option<u64>,
}

/// One entry of the `ranges` property of a bus.
#[derive(Clone, Copy, Debug, PartialEq, Eq)]
pub struct BusRange {
    pub child_address: u64,
    pub parent_address: u64,
    pub length: u64,
}

/// One entry of a `clocks` property.
#[derive(Debug, PartialEq, Eq)]
pub struct Clock {
    /// Its entry in `clock-names`, where there is one.
    pub name: Option<String>,
    /// The node that provides the clock.
    pub phandle: u32,
    /// The provider's `#clock-cells`.
    pub cells: u32,
    /// The cells that select one of the provider's clocks.
    pub specifier: Vec<u32>,
}

/// What a [`Clock`] says.
pub struct ClockView {
    pub name: Option<Seq<char>>,
    pub phandle: u32,
    pub cells: u32,
    pub specifier: Seq<u32>,
}

pub open spec fn text_view(text: Option<String>) -> Option<Seq<char>> {
    match text {
        Some(text) => Some(text@),
        None => None,
    }
}

impl View for Clock {
    type V = ClockView;

    open spec fn view(&self) -> ClockView {
        ClockView {
            name: text_view(self.name),
            phandle: self.phandle,
            cells: self.cells,
            specifier: self.specifier@,
        }
    }
}

/// What each clock of a list says.
pub open spec fn clock_views(clocks: Seq<Clock>) -> Seq<ClockView> {
    Seq::new(clocks.len(), |i: int| clocks[i]@)
}

/// The properties of a node: the bytes of each property by its name.
pub uninterp spec fn node_properties(node: fdt_edit::NodeType<'_>) -> Map<Seq<char>, Seq<u8>>;

/// The clocks that a node refers to, in the order of its `clocks` property.
pub uninterp spec fn node_clocks(node: fdt_edit::NodeType<'_>) -> Seq<ClockView>;

/// Whether a node has been classified as a PCI bridge.
pub uninterp spec fn node_is_pci(node: fdt_edit::NodeType<'_>) -> bool;

/// The decoded `ranges` property of a node that is a PCI bridge.
pub uninterp spec fn node_ranges(node: fdt_edit::NodeType<'_>) -> Option<Seq<PciRange>>;

/// The node above a node.
pub uninterp spec fn node_parent(node: fdt_edit::NodeType<'_>) -> Option<fdt_edit::NodeType<'_>>;

/// The decoded `ranges` property of a node that is a bus, whose parent
/// addresses take that many cells.
pub uninterp spec fn node_bus_ranges(
    node: fdt_edit::NodeType<'_>,
    parent_cells: u32,
) -> Option<Seq<BusRange>>;

/// The decoded `reg` property of a node, with the addresses as the CPU sees
/// them.
pub uninterp spec fn node_regs(node: fdt_edit::NodeType<'_>) -> Seq<RegFixed>;

/// Whether every parent and every phandle that the tree of a node records leads
/// to a node of that tree. It does in a tree that has been parsed.
pub uninterp spec fn node_is_linked(node: fdt_edit::NodeType<'_>) -> bool;

/// Calls `fdt_edit::Node::get_property` on the node that `node` shows. Claimed:
/// it finds a property exactly where the node has one of that name, and its
/// data are the bytes of that property.
#[verifier::external_body]
fn get_property(node: &fdt_edit::NodeType<'_>, name: &str) -> (data: Option<Vec<u8>>)
    ensures
        data is Some <==> node_properties(*node).dom().contains(name@),
        data matches Some(bytes) ==> bytes@ == node_properties(*node)[name@],
{
    node.as_node().get_property(name).map(|property| property.data.clone())
}

/// Calls `fdt_edit::NodeType::clocks`. Claimed: it returns the clocks that the
/// node refers to, each with its name, provider and selecting cells. The call
/// sets memory aside for as many cells as a provider's `#clock-cells` says. It
/// panics on a phandle that leads to a node no longer there.
#[verifier::external_body]
fn get_clocks(node: &fdt_edit::NodeType<'_>) -> (clocks: Vec<Clock>)
    requires
        node_is_linked(*node),
    ensures
        clock_views(clocks@) == node_clocks(*node),
{
    node.clocks().into_iter().map(|clock| Clock {
        name: clock.name,
        phandle: clock.phandle.raw(),
        cells: clock.cells,
        specifier: clock.specifier,
    }).collect()
}

/// Tells the variant `fdt_edit::NodeType::Pci` apart from the others. Claimed:
/// which variant a node is does not change.
#[verifier::external_body]
fn is_pci(node: &fdt_edit::NodeType<'_>) -> (pci: bool)
    ensures
        pci == node_is_pci(*node),
{
    matches!(node, fdt_edit::NodeType::Pci(_))
}

/// Calls `fdt_edit::PciNodeView::ranges`. Claimed: it returns the decoded
/// `ranges` property of the bridge, and nothing where the property is missing
/// or ends inside an entry; a node that is no bridge has none. The call panics
/// below a parent that is not there.
#[verifier::external_body]
fn get_ranges(node: &fdt_edit::NodeType<'_>) -> (ranges: Option<Vec<PciRange>>)
    requires
        node_is_linked(*node),
    ensures
        match ranges {
            Some(list) => node_ranges(*node) == Some(list@),
            None => node_ranges(*node) is None,
        },
        !node_is_pci(*node) ==> ranges is None,
{
    let fdt_edit::NodeType::Pci(pci) = node else { return None };
    pci.ranges().map(|list| list.into_iter().map(|range| PciRange {
        space: match range.space {
            fdt_edit::PciSpace::IO => PciSpace::IO,
            fdt_edit::PciSpace::Memory32 => PciSpace::Memory32,
            fdt_edit::PciSpace::Memory64 => PciSpace::Memory64,
        },
        bus_address: range.bus_address,
        cpu_address: range.cpu_address,
        size: range.size,
        prefetchable: range.prefetchable,
    }).collect())
}

/// The big-endian number in four bytes of `data` from `at` on.
pub open spec fn big_endian_u32(data: Seq<u8>, at: int) -> int {
    data[at] * 0x100_0000 + data[at + 1] * 0x1_0000 + data[at + 2] * 0x100 + data[at + 3]
}

/// The cells of a property: its bytes as big-endian 32-bit numbers. Up to
/// three bytes left over at the end belong to no cell.
pub open spec fn cells_of(data: Seq<u8>) -> Seq<u32> {
    Seq::new(data.len() / 4, |i: int| big_endian_u32(data, 4 * i) as u32)
}

/// The cells of the property of that name, where there is one.
pub open spec fn property_cells_of(
    properties: Map<Seq<char>, Seq<u8>>,
    name: Seq<char>,
) -> Option<Seq<u32>> {
    if properties.dom().contains(name) {
        Some(cells_of(properties[name]))
    } else {
        None
    }
}

/// Calls `fdt_edit::Property::get_u32_iter`. Claimed: it yields the bytes of
/// the property as big-endian 32-bit numbers, and stops where fewer than four
/// bytes are left.
#[verifier::external_body]
fn u32_cells(data: Vec<u8>) -> (cells: Vec<u32>)
    ensures
        cells@ == cells_of(data@),
{
    fdt_edit::Property::new("", data).get_u32_iter().collect()
}

/// The first and the second cell of `bus-range`, where the property has both.
pub open spec fn bus_range_of(properties: Map<Seq<char>, Seq<u8>>) -> Option<(u32, u32)> {
    match property_cells_of(properties, "bus-range"@) {
        Some(cells) if cells.len() >= 2 => Some((cells[0], cells[1])),
        _ => None,
    }
}

/// Calls `fdt_edit::PciNodeView::bus_range`. Claimed: it returns the first two
/// cells of the property `bus-range`, and nothing where there are fewer; a node
/// that is no bridge has none.
#[verifier::external_body]
fn get_bus_range(node: &fdt_edit::NodeType<'_>) -> (range: Option<(u32, u32)>)
    ensures
        node_is_pci(*node) ==> range == bus_range_of(node_properties(*node)),
        !node_is_pci(*node) ==> range is None,
{
    let fdt_edit::NodeType::Pci(pci) = node else { return None };
    pci.bus_range().map(|range| (range.start, range.end))
}

/// The cells of a property of `node`, where it has one of that name.
pub fn property_cells(node: &fdt_edit::NodeType<'_>, name: &str) -> (cells: Option<Vec<u32>>)
    ensures
        match cells {
            Some(list) => property_cells_of(node_properties(*node), name@) == Some(list@),
            None => property_cells_of(node_properties(*node), name@) is None,
        },
{
    match get_property(node, name) {
        Some(data) => Some(u32_cells(data)),
        None => None,
    }
}

/// The first cell of a list, where there is one.
pub open spec fn first_cell_of(cells: Option<Seq<u32>>) -> Option<u32> {
    match cells {
        Some(list) if list.len() > 0 => Some(list[0]),
        _ => None,
    }
}

/// The first cell of a property of `node`: the phandle in a property that
/// holds one.
pub fn single_phandle_property(node: &fdt_edit::NodeType<'_>, name: &str) -> (phandle: Option<u32>)
    ensures
        phandle == first_cell_of(property_cells_of(node_properties(*node), name@)),
{
    match property_cells(node, name) {
        Some(cells) => first_cell(&cells),
        None => None,
    }
}

/// The first of `cells`, where there is one.
pub fn first_cell(cells: &[u32]) -> (cell: Option<u32>)
    ensures
        cell == first_cell_of(Some(cells@)),
{
    if cells.len() > 0 {
        Some(cells[0])
    } else {
        None
    }
}

/// The cells of a property, none where the property is missing.
pub open spec fn cells_or_none(cells: Option<Seq<u32>>) -> Seq<u32> {
    match cells {
        Some(list) => list,
        None => seq![],
    }
}

/// The cells of a property of `node`, none where the property is missing.
pub fn phandle_array(node: &fdt_edit::NodeType<'_>, name: &str) -> (cells: Vec<u32>)
    ensures
        cells@ == cells_or_none(property_cells_of(node_properties(*node), name@)),
{
    match property_cells(node, name) {
        Some(cells) => cells,
        None => Vec::new(),
    }
}

/// The clocks that `node` refers to.
pub fn clocks(node: &fdt_edit::NodeType<'_>) -> (clocks: Vec<Clock>)
    requires
        node_is_linked(*node),
    ensures
        clock_views(clocks@) == node_clocks(*node),
{
    get_clocks(node)
}

impl ClockView {
    /// The first selecting cell, for a provider that wants any.
    pub open spec fn selected(self) -> Option<u32> {
        if self.cells > 0 && self.specifier.len() > 0 {
            Some(self.specifier[0])
        } else {
            None
        }
    }
}

impl Clock {
    /// The first selecting cell. A provider whose `#clock-cells` is 0 wants
    /// none.
    pub fn select(&self) -> (cell: Option<u32>)
        ensures
            cell == self@.selected(),
    {
        if self.cells > 0 && self.specifier.len() > 0 {
            Some(self.specifier[0])
        } else {
            None
        }
    }

    /// Whether the clock carries that name.
    pub fn is_named(&self, name: &str) -> (named: bool)
        ensures
            named == (self@.name == Some(name@)),
    {
        match &self.name {
            Some(text) => same_text(text.as_str(), name),
            None => false,
        }
    }
}

/// What a PCI bridge's node says beside its plain properties.
pub struct Bridge {
    pub ranges: Vec<PciRange>,
    pub bus_range: Option<(u32, u32)>,
}

/// The ranges of a bridge, none where it has no (complete) `ranges`.
pub open spec fn ranges_or_none(ranges: Option<Seq<PciRange>>) -> Seq<PciRange> {
    match ranges {
        Some(list) => list,
        None => seq![],
    }
}

/// The ranges and the bus range of `node`, where it is a PCI bridge.
pub fn bridge(node: &fdt_edit::NodeType<'_>) -> (bridge: Option<Bridge>)
    requires
        node_is_linked(*node),
    ensures
        bridge is Some <==> node_is_pci(*node),
        bridge matches Some(found) ==> {
            &&& found.ranges@ == ranges_or_none(node_ranges(*node))
            &&& found.bus_range == bus_range_of(node_properties(*node))
        },
{
    if is_pci(node) {
        let ranges = match get_ranges(node) {
            Some(list) => list,
            None => Vec::new(),
        };
        Some(Bridge { ranges, bus_range: get_bus_range(node) })
    } else {
        None
    }
}

/// The number in a property of exactly one cell.
pub open spec fn number_of(properties: Map<Seq<char>, Seq<u8>>, name: Seq<char>) -> Option<u32> {
    if properties.dom().contains(name) && properties[name].len() == 4 {
        Some(cells_of(properties[name])[0])
    } else {
        None
    }
}

/// The number in a property of exactly one cell.
fn number(node: &fdt_edit::NodeType<'_>, name: &str) -> (number: Option<u32>)
    ensures
        number == number_of(node_properties(*node), name@),
{
    match get_property(node, name) {
        Some(data) => if data.len() == 4 {
            Some(u32_cells(data)[0])
        } else {
            None
        },
        None => None,
    }
}

/// The cells of an address below a bus: 2 where it does not say.
pub open spec fn address_cells_of(properties: Map<Seq<char>, Seq<u8>>) -> u32 {
    match number_of(properties, "#address-cells"@) {
        Some(cells) => cells,
        None => 2,
    }
}

/// The cells of an address below `node`: 2 where it does not say.
fn address_cells(node: &fdt_edit::NodeType<'_>) -> (cells: u32)
    ensures
        cells == address_cells_of(node_properties(*node)),
{
    match number(node, "#address-cells") {
        Some(cells) => cells,
        None => 2,
    }
}

/// The cells of a size below a bus: 1 where it does not say.
pub open spec fn size_cells_of(properties: Map<Seq<char>, Seq<u8>>) -> u32 {
    match number_of(properties, "#size-cells"@) {
        Some(cells) => cells,
        None => 1,
    }
}

/// The cells of a size below `node`: 1 where it does not say.
fn size_cells(node: &fdt_edit::NodeType<'_>) -> (cells: u32)
    ensures
        cells == size_cells_of(node_properties(*node)),
{
    match number(node, "#size-cells") {
        Some(cells) => cells,
        None => 1,
    }
}

/// Calls `fdt_edit::NodeType::parent`. Claimed: it returns the node above, which
/// belongs to the same tree. The call panics where that node is not there.
#[verifier::external_body]
fn get_parent<'a>(node: &fdt_edit::NodeType<'a>) -> (parent: Option<fdt_edit::NodeType<'a>>)
    requires
        node_is_linked(*node),
    ensures
        parent == node_parent(*node),
        parent matches Some(above) ==> node_is_linked(above),
{
    node.parent()
}

/// Calls `fdt_edit::Node::ranges` on the node that `node` shows. Claimed: it
/// returns the decoded `ranges` property, and nothing where there is none. Where
/// an address below the bus takes no cell, the call may not return.
#[verifier::external_body]
fn get_bus_ranges(node: &fdt_edit::NodeType<'_>, parent_cells: u32) -> (ranges: Option<Vec<BusRange>>)
    requires
        address_cells_of(node_properties(*node)) != 0,
    ensures
        match ranges {
            Some(list) => node_bus_ranges(*node, parent_cells) == Some(list@),
            None => node_bus_ranges(*node, parent_cells) is None,
        },
        ranges is Some <==> node_properties(*node).dom().contains("ranges"@),
{
    node.as_node().ranges(parent_cells).map(|list| list.into_iter().map(|range| BusRange {
        child_address: range.child_bus_address,
        parent_address: range.parent_bus_address,
        length: range.length,
    }).collect())
}

/// Whether an address below a bus can be looked up in its ranges within 64
/// bits: a range that starts at or below the address has an end that can be
/// written, and the first that holds the address moves it to one that can.
pub open spec fn fits_ranges(address: u64, ranges: Seq<BusRange>) -> bool
    decreases ranges.len(),
{
    if ranges.len() == 0 {
        true
    } else {
        let range = ranges[0];
        if address < range.child_address {
            fits_ranges(address, ranges.drop_first())
        } else {
            let end = range.child_address + range.length;
            end <= u64::MAX && if address < end {
                address - range.child_address + range.parent_address <= u64::MAX
            } else {
                fits_ranges(address, ranges.drop_first())
            }
        }
    }
}

/// Whether an address below a bus can be looked up in its ranges.
fn can_look_up(address: u64, ranges: &[BusRange]) -> (fits: bool)
    ensures
        fits == fits_ranges(address, ranges@),
{
    let mut i: usize = 0;
    assert(ranges@.skip(0) =~= ranges@);
    while i < ranges.len()
        invariant
            i <= ranges@.len(),
            fits_ranges(address, ranges@) == fits_ranges(address, ranges@.skip(i as int)),
        decreases ranges@.len() - i,
    {
        let range = ranges[i];
        assert(ranges@.skip(i as int)[0] == range);
        assert(ranges@.skip(i as int).drop_first() =~= ranges@.skip(i + 1));
        if address >= range.child_address {
            match range.child_address.checked_add(range.length) {
                Some(end) => if address < end {
                    return (address - range.child_address).checked_add(
                        range.parent_address,
                    ).is_some();
                },
                None => return false,
            }
        }
        i = i + 1;
    }
    true
}

/// The number in the `count` cells from `at` on: 64 bits of it count.
pub open spec fn address_at(cells: Seq<u32>, at: int, count: int) -> u64 {
    let low = cells[at + count - 1];
    if count >= 2 {
        (cells[at + count - 2] * 0x1_0000_0000 + low) as u64
    } else {
        low as u64
    }
}

/// Whether the addresses in a `reg` property can be looked up in the ranges of
/// the bus above, from the entry at `at` on. An entry is an address and a size;
/// the size of the last may be missing.
pub open spec fn addresses_fit(
    cells: Seq<u32>,
    address_cells: u32,
    size_cells: u32,
    ranges: Seq<BusRange>,
    at: int,
) -> bool
    decreases cells.len() - at,
{
    if address_cells > 0 && 0 <= at && at + address_cells <= cells.len() {
        let next = at + address_cells + size_cells;
        &&& fits_ranges(address_at(cells, at, address_cells as int), ranges)
        &&& next <= cells.len() ==> addresses_fit(cells, address_cells, size_cells, ranges, next)
    } else {
        true
    }
}

/// Whether the addresses in a `reg` property can be looked up in the ranges of
/// the bus above.
fn can_look_up_all(
    cells: &[u32],
    address_cells: u32,
    size_cells: u32,
    ranges: &[BusRange],
) -> (fit: bool)
    requires
        address_cells > 0,
    ensures
        fit == addresses_fit(cells@, address_cells, size_cells, ranges@, 0),
{
    let count: usize = address_cells as usize;
    let mut at: usize = 0;
    while count <= cells.len() - at
        invariant
            count == address_cells,
            address_cells > 0,
            at <= cells@.len(),
            addresses_fit(cells@, address_cells, size_cells, ranges@, 0) == addresses_fit(
                cells@,
                address_cells,
                size_cells,
                ranges@,
                at as int,
            ),
        decreases cells@.len() - at,
    {
        let low: u64 = cells[at + (count - 1)] as u64;
        let address: u64 = if count >= 2 {
            cells[at + (count - 2)] as u64 * 0x1_0000_0000 + low
        } else {
            low
        };
        if !can_look_up(address, ranges) {
            return false;
        }
        let next: usize = at + count;
        if size_cells as usize > cells.len() - next {
            return true;
        }
        at = next + size_cells as usize;
    }
    true
}

/// The cells of an address above `node`: 2 where nothing says.
pub open spec fn outer_cells_of(node: fdt_edit::NodeType<'_>) -> u32 {
    match node_parent(node) {
        Some(parent) => address_cells_of(node_properties(parent)),
        None => 2,
    }
}

/// Whether the registers of a node can be decoded. They can where it has none;
/// else an address below its bus has to take a cell, and the addresses have to
/// be such as can be looked up in the ranges of the bus.
pub open spec fn is_decodable(node: fdt_edit::NodeType<'_>) -> bool {
    !node_properties(node).dom().contains("reg"@) || match node_parent(node) {
        Some(bus) => {
            &&& address_cells_of(node_properties(bus)) != 0
            &&& node_bus_ranges(bus, outer_cells_of(bus)) matches Some(ranges) ==> addresses_fit(
                cells_of(node_properties(node)["reg"@]),
                address_cells_of(node_properties(bus)),
                size_cells_of(node_properties(bus)),
                ranges,
                0,
            )
        },
        None => true,
    }
}

/// Calls `fdt_edit::NodeType::regs`. Claimed: it returns the decoded `reg`
/// property, its addresses moved by the ranges of the bus above, and nothing
/// where there is no such property. The call panics below a parent that is not
/// there; it does not return where the addresses take no cell; and it overflows
/// where an address cannot be looked up in the ranges within 64 bits.
#[verifier::external_body]
fn get_regs(node: &fdt_edit::NodeType<'_>) -> (regs: Vec<RegFixed>)
    requires
        node_is_linked(*node),
        is_decodable(*node),
    ensures
        regs@ == node_regs(*node),
        !node_properties(*node).dom().contains("reg"@) ==> regs@.len() == 0,
{
    node.regs().into_iter().map(|reg| RegFixed { address: reg.address, size: reg.size }).collect()
}

/// The registers of `node`, where they can be decoded.
pub fn registers(node: &fdt_edit::NodeType<'_>) -> (regs: Option<Vec<RegFixed>>)
    requires
        node_is_linked(*node),
    ensures
        regs is Some <==> is_decodable(*node),
        regs matches Some(list) ==> list@ == node_regs(*node),
        !node_properties(*node).dom().contains("reg"@) ==> node_regs(*node).len() == 0,
{
    let cells = match property_cells(node, "reg") {
        Some(cells) => cells,
        None => return Some(get_regs(node)),
    };
    if let Some(bus) = get_parent(node) {
        let count: u32 = address_cells(&bus);
        if count == 0 {
            return None;
        }
        let outer: u32 = match get_parent(&bus) {
            Some(above) => address_cells(&above),
            None => 2,
        };
        if let Some(ranges) = get_bus_ranges(&bus, outer) {
            if !can_look_up_all(&cells, count, size_cells(&bus), &ranges) {
                return None;
            }
        }
    }
    Some(get_regs(node))
}

/// The selecting cell of a clock is the first one, where its provider wants any
/// and there is any.
pub proof fn lemma_selecting_cell(clock: ClockView)
    ensures
        clock.cells > 0 && clock.specifier.len() > 0 ==> clock.selected() == Some(
            clock.specifier[0],
        ),
        clock.cells == 0 || clock.specifier.len() == 0 ==> clock.selected() is None,
{
}

/// The cells of a property are its bytes, four by four, the highest first; what
/// is left over at the end belongs to none.
pub proof fn lemma_cells(data: Seq<u8>, i: int)
    ensures
        cells_of(data).len() == data.len() / 4,
        0 <= i < data.len() / 4 ==> cells_of(data)[i] == data[4 * i] * 0x100_0000 + data[4 * i + 1]
            * 0x1_0000 + data[4 * i + 2] * 0x100 + data[4 * i + 3],
{
}

/// How many cells an address and a size take below a bus: what its two
/// properties say, where they hold one cell; else 2 and 1.
pub proof fn lemma_bus_cells(properties: Map<Seq<char>, Seq<u8>>)
    ensures
        ({
            let says_address = properties.dom().contains("#address-cells"@)
                && properties["#address-cells"@].len() == 4;
            let says_size = properties.dom().contains("#size-cells"@)
                && properties["#size-cells"@].len() == 4;
            &&& says_address ==> address_cells_of(properties) == cells_of(
                properties["#address-cells"@],
            )[0]
            &&& !says_address ==> address_cells_of(properties) == 2
            &&& says_size ==> size_cells_of(properties) == cells_of(properties["#size-cells"@])[0]
            &&& !says_size ==> size_cells_of(properties) == 1
        }),
{
}

/// Whether a range holds an address.
pub open spec fn holds(range: BusRange, address: u64) -> bool {
    range.child_address <= address < range.child_address + range.length
}

/// An address can be looked up within 64 bits exactly if no range that starts at
/// or below it, up to the first that holds it, ends past them, and the address is
/// not moved past them. The first range that holds the address is the one at
/// `i`; there is none where `i` is past the last.
pub proof fn lemma_look_up(address: u64, ranges: Seq<BusRange>, i: int)
    requires
        0 <= i <= ranges.len(),
        forall|k: int| 0 <= k < i ==> !holds(#[trigger] ranges[k], address),
        i < ranges.len() ==> holds(ranges[i], address),
    ensures
        fits_ranges(address, ranges) <==> {
            &&& forall|k: int|
                0 <= k <= i && k < ranges.len() && (#[trigger] ranges[k]).child_address <= address
                    ==> ranges[k].child_address + ranges[k].length <= u64::MAX
            &&& i < ranges.len() ==> address - ranges[i].child_address + ranges[i].parent_address
                <= u64::MAX
        },
    decreases i,
{
    if i > 0 {
        let rest = ranges.drop_first();
        assert(!holds(ranges[0], address));
        assert forall|k: int| 0 <= k < i - 1 implies !holds(#[trigger] rest[k], address) by {
            assert(rest[k] == ranges[k + 1]);
        }
        lemma_look_up(address, rest, i - 1);
        assert(forall|k: int|
            #![trigger rest[k]]
            0 <= k <= i - 1 && k < rest.len() ==> rest[k] == ranges[k + 1]);
        assert(forall|k: int|
            #![trigger ranges[k]]
            1 <= k <= i && k < ranges.len() ==> ranges[k] == rest[k - 1]);
    }
}

/// The number in some cells: one cell is the number, and of more the last two
/// count, the first of them for the upper half.
pub proof fn lemma_address_in_cells(cells: Seq<u32>, at: int, count: int)
    ensures
        count == 1 ==> address_at(cells, at, count) == cells[at],
        count >= 2 ==> address_at(cells, at, count) == cells[at + count - 2] * 0x1_0000_0000
            + cells[at + count - 1],
{
}

/// The first cell of entry `entry`, where an entry takes `width` cells.
pub open spec fn entry_start(at: int, entry: int, width: int) -> int {
    at + entry * width
}

/// The addresses of a `reg` property can be looked up exactly if that of each
/// entry can: the entries follow one another, each of an address and a size.
pub proof fn lemma_all_looked_up(
    cells: Seq<u32>,
    address_cells: u32,
    size_cells: u32,
    ranges: Seq<BusRange>,
    at: int,
)
    requires
        address_cells > 0,
        at >= 0,
    ensures
        addresses_fit(cells, address_cells, size_cells, ranges, at) <==> forall|entry: int|
            #![trigger entry_start(at, entry, address_cells + size_cells)]
            0 <= entry && entry_start(at, entry, address_cells + size_cells) + address_cells
                <= cells.len() ==> fits_ranges(
                address_at(
                    cells,
                    entry_start(at, entry, address_cells + size_cells),
                    address_cells as int,
                ),
                ranges,
            ),
    decreases cells.len() - at,
{
    let width = address_cells + size_cells;
    let next = at + width;
    assert(entry_start(at, 0, width) == at);
    if at + address_cells <= cells.len() {
        if next <= cells.len() {
            lemma_all_looked_up(cells, address_cells, size_cells, ranges, next);
            assert forall|entry: int|
                #![trigger entry_start(next, entry, width)]
                entry_start(next, entry, width) == entry_start(at, entry + 1, width) by {
                assert((entry + 1) * width == entry * width + width) by (nonlinear_arith);
            }
            assert forall|entry: int|
                #![trigger entry_start(at, entry, width)]
                entry_start(at, entry, width) == entry_start(next, entry - 1, width) by {
                assert(entry * width == (entry - 1) * width + width) by (nonlinear_arith);
            }
        } else {
            assert forall|entry: int|
                #![trigger entry_start(at, entry, width)]
                entry >= 1 implies entry_start(at, entry, width) >= next by {
                assert(entry * width >= width) by (nonlinear_arith)
                    requires
                        entry >= 1,
                        width >= 0,
                ;
            }
        }
    } else {
        assert forall|entry: int|
            #![trigger entry_start(at, entry, width)]
            entry >= 0 implies entry_start(at, entry, width) >= at by {
            assert(entry * width >= 0) by (nonlinear_arith)
                requires
                    entry >= 0,
                    width >= 0,
            ;
        }
    }
}

/// When the registers of a node can be decoded: always where it has none, or
/// nothing above it, or a bus above it that passes addresses on as they are and
/// whose addresses take cells; never where these take none.
pub proof fn lemma_decodable(node: fdt_edit::NodeType<'_>)
    ensures
        !node_properties(node).dom().contains("reg"@) ==> is_decodable(node),
        node_parent(node) is None ==> is_decodable(node),
        node_properties(node).dom().contains("reg"@) ==> (node_parent(node) matches Some(bus) ==> {
            let count = address_cells_of(node_properties(bus));
            let outer = match node_parent(bus) {
                Some(above) => address_cells_of(node_properties(above)),
                None => 2,
            };
            &&& count == 0 ==> !is_decodable(node)
            &&& count > 0 && node_bus_ranges(bus, outer) is None ==> is_decodable(node)
            &&& count > 0 ==> (node_bus_ranges(bus, outer) matches Some(ranges) ==> is_decodable(
                node,
            ) == addresses_fit(
                cells_of(node_properties(node)["reg"@]),
                count,
                size_cells_of(node_properties(bus)),
                ranges,
                0,
            ))
        }),
{
}

} // verus!
