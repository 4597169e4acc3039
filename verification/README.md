# autd3-link-visualizer

A link for AUTD3 that emulates the devices in software, so that what they were told to
output can be read back, turned into an acoustic field and plotted.

- `src/` is the verified library (Verus):
  - `emulator.rs`: the emulated devices and their replies, and the trusted items through
    which the library reaches the firmware emulator and the driver;
  - `visualizer.rs`: the link state (open/closed, timeout), the devices it holds in order,
    the replies it writes, the drives, phases, intensities and modulation it reads back from
    devices that hold sequences of gains, the laying out of per-device drive lists into
    phases and intensities, and the builder;
  - `plot_range.rs`: which points a plot range observes, in which order, and how the range is
    drawn (line or plane);
  - `backend.rs`, `error.rs`: the backend trait and the null backend, and the error type.
- `app/` is the unverified layer: the driver's `Link`/`LinkBuilder` traits (handing
  datagrams to the emulated devices and advancing their clocks happen there, between
  `take_devices` and `restore_devices`), reads from devices that hold sequences of foci, the
  plot range with floating-point bounds, the acoustic field computation and the plotting
  calls.
- `tests/` runs the library against the real emulator.
