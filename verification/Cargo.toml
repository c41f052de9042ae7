[package]
name = "rk3588_drivers"
version = "0.1.0"
edition = "2021"
publish = false

[dependencies]
axklib = "=0.5.9"
dma-api = "=0.7.3"
fdt-edit = "=0.2.3"
mmio-api = "=0.2.4"
rd-block = "=0.1.2"
rdif-clk = "=0.5.3"
rdif-pcie = "=0.2.7"
rdrive = "=0.20.1"
rk3588-pci = ">=0.2.0, <0.2.1"
rockchip-pm = "=0.4.4"
sdhci-host = ">=0.1.0, <0.1.1"
sdmmc-protocol = ">=0.1.0, <0.1.1"
spin = "=0.10.1"
