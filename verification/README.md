# SmartCool

SmartCool drives the fans of a Linux machine from its temperature sensors. The
decisions are a verified library; everything that touches sysfs, D-Bus, sockets and
the terminal is ordinary Rust around it.

- `src/` is the library. Every function in it carries a contract that Verus proves.
- `app/` is the `sc` program. Called as `sc-nixgen` it detects hardware, measures it
  and writes configurations.
- `tests/` runs the library on concrete values.

The library never reads a file. It is given what was seen of sysfs (`sysfs::Sysfs`)
and gives back what is to be written (`sysfs::SysfsWrite`). Temperatures are whole
thousandths of a degree, PWM values are bytes, and floating-point numbers are carried
as their bit patterns (`scalar::Scalar`), which the library compares but does not
calculate with. Slopes and correlations are exact fractions; dividing them out,
exponentials and square roots are left to `app/`.

| Modules | What they decide |
| --- | --- |
| `config`, `asusd_config` | which configurations are acceptable, and fan curves |
| `sysfs`, `hwmon`, `detect` | what the machine has, and how it is put back |
| `controller`, `interrupt` | what a fan is told in a tick |
| `derivative`, `analytics`, `correlation`, `coupling`, `steps`, `integral`, `tuning` | what is learnt from ticks |
| `asusd` | firmware curves as a transaction |
| `autoconfig`, `optimize`, `pkl_format` | configurations from what was detected and measured |
| `benchmark`, `course`, `sweep`, `stress`, `identify` | measuring a machine |
| `ipc`, `display` | what is told to the user |
| `names`, `regression`, `scalar`, `text`, `wide` | what the others stand on |
