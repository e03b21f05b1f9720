[package]
name = "somehal"
version = "0.1.0"
edition = "2021"
publish = false

[dependencies]
heapless = "=0.8.0"
num-align = "=0.1.0"
pie-boot-if = "=0.8.0"
kdef-pgtable = "=0.1.5"
spin = "=0.12.3"
fdt-parser = "=0.5.1"
page-table-generic = "=0.9.1"
log = "=0.4.35"
aarch64-cpu-ext = "=0.1.4"
smccc = "=0.2.3"
any-uart = "=0.2.12"
uefi-raw = "=0.17.0"
