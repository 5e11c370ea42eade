# rs1030

Decoding of Mode S 1030 MHz uplink interrogations (UF0, 4, 5, 11, 16, 20, 21,
24), verified with Verus.

- `src/` is the library. `bits` reads MSB-first bit fields; `crc` computes the
  Mode S CRC and inverts the uplink AP overlay to recover the interrogated
  address; `decode` parses each uplink format; `dsp` holds the sample timing
  and the integer side of the DPSK demodulator; `source` parses source
  specifications (`file://`, `hackrf://`, `soapy://`); `stream` keeps the
  bookkeeping for decoding a continuous sample stream; `text` holds the
  text parsing and formatting they need.
- `app/` is the `uplink1030` program: command line, file and device input,
  the floating-point detector and bit decisions, and JSON output.
  `uplink1030 jet ...` decodes single-frame CF32 snippets.
- `tests/` exercises the library.
