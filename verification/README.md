# async_in_embedded

The logic of a small STM32 data logger, verified with Verus.

- `src/` — the verified library: BCD conversion (`bcd`), calendar dates and
  times checked through `chrono` (`calendar`), the real-time clock's register
  image (`clock_serde`) and I2C frames (`blocking_clock`), running byte
  statistics (`statistics`), the send buffer (`writer`) and the parsing of
  build-time settings (`utils`).
- `app/` — the hardware side: the ADC, the blocking I2C transfers, and the
  `core::fmt` adapters for the statistics and the send buffer.
- `tests/` — tests of the library on concrete values.
