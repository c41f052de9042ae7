# rk3588_drivers

Drivers for the PCIe hosts and the SD/MMC hosts of the Rockchip RK3588, written
and proved in Verus.

The library decides what the hardware has to do; it touches none itself.

- `src/fdt.rs` reads nodes of the device tree, which `fdt_edit` holds.
- `src/script.rs` and `src/guard.rs` are scripts of hardware actions, and what
  can be said of every run of one.
- `src/hiword.rs` is about the registers whose upper half enables writes.
- `src/pcie/` turns the node of a PCIe host into the script that brings it up:
  power, resets, clocks, PHY, windows, link, announcement. `src/pcie/laws.rs`
  proves what holds of that script however its actions go.
- `src/mmc/` holds two state machines, for probing a controller and for one
  request to its card, and the blocks that buffers are cut into.
- `app/` performs the actions, on top of `rdrive` and the host crates.
- `tests/` runs the library on real device trees and modelled registers.
