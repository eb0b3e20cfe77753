# OpenBarista

Firmware for an espresso machine: pressure, temperature, a Bluetooth scale, shot recording, a
crash log, over-the-air updates and a web interface.

- `src/` is the logic, verified with Verus. Numbers of the sensors are single-precision numbers
  held as bit patterns (`binary32`), with arithmetic stated over exact values (`rounding`, `ieee`).
- `tests/` runs the logic on concrete values.
- `app/` is the rest: threads, storage, radio, sensors' buses and web server. `app/firmware/` is
  built for the device alone.
