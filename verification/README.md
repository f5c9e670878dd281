# temp_monitor

Firmware for a pool-temperature monitor on an ESP32: DS18B20 probes on a
1-Wire bus, and Wi-Fi credentials provisioned through a captive portal
(open access point `PoolMon-XXXX`, DNS hijack, HTTP form).

- `src/` is the verified library (Verus): the 1-Wire scan and Wi-Fi start-up
  state machines, the captive portal's DNS answers, the provisioning form
  parser and percent-decoder, the radio settings and the saved credentials.
  Contracts state each function's result exactly; the `lemma_*` proof
  functions state the properties across calls (replies echo the question,
  decoding undoes a browser's form encoding, a submitted form reads back as
  typed, start-up always ends and reaches station or portal mode only along
  the documented paths, a scan reads exactly the DS18B20s).
- `app/` is the firmware binary: it owns the hardware (GPIO, radio, flash
  storage, sockets, HTTP server) and performs the actions the library's
  state machines ask for.
- `tests/` exercises the library on concrete values.
