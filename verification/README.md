# oxideav_g722

An SB-ADPCM codec for ITU-T G.722 wideband audio (64 / 56 / 48 kbit/s),
written in Verus: every routine of the codec carries a contract and is
proved against it.

## Layout

- `src/` — the verified library.
  - `tables`, `predictor`, `decoder`, `encoder`, `mode`: the coding tables,
    the shared pole-zero predictor and scale-factor adaptation, the
    receive and transmit paths with their QMF banks, and the octet
    layout of the three modes.
  - `aux_data`: the auxiliary data channel of Modes 2 and 3.
  - `band_low`, `band_high`, `qmf`: self-contained sub-band coders and
    a polyphase QMF pair.
  - `basicop`, `plc_tables`, `plc_analysis`: the 16/32-bit basic
    operators and the fixed-point analysis blocks of the packet-loss
    concealment.
  - `plc`: the concealment decoder (`PlcDecoder`): good frames through
    the ADPCM decoder with the post-erasure cross-fade and post filter,
    erased frames through the lower-band analysis, residual
    extrapolation and adaptive muting and the pitch-synchronous
    higher-band repetition. Without erasures it is proved to give the
    plain decoder's 16-bit output.
  - `test_harness`: the QMF-bypass test configurations and the
    synthesisable test sequence.
  - `transmission`: the integer clocks, band edges and mask bands of
    the transmission characteristics.
- `tests/` — the test suites, run against the compiled library.
- `app/` — the runtime-registry hook, the std error traits, and the
  floating-point evaluation of the transmission masks and the end-to-end
  measurements.
