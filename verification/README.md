# sinowealth_isp

The Sinowealth 8051 HID ISP bootloader protocol, as a Verus-verified library.

- `src/` — the verified library: the platform table (`platform_spec`), read
  sections (`read_section`), report layouts (`protocol`), the reset-vector
  patch of a write (`firmware`), image comparison (`verify`), and the read and
  write cycles as step machines (`cycle`, `read_cycle`, `write_cycle`) whose
  every step is specified exactly, with whole-run laws for successful cycles.
- `app/` — the HID I/O around it: the device handles, the loops that carry
  out each step with `hidra`, the settle delay, and a terminal progress bar.
- `tests/` — runs of the cycles against a simulated bootloader, and checks
  of the tables and report layouts.
