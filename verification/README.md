# horchd

Verified core of horchd, a wakeword detection daemon with a Wyoming
protocol server, a command-line client and a training front end.

- `src/` is the library, verified with Verus: the Wyoming frame layout and
  event readers, the per-connection Wyoming state machine, the detector
  (rising edge, cooldown), audio framing and device configuration choice,
  configuration rules, reload reconciliation and the wakeword registry,
  configuration edits through `toml_edit`, name and path rules, model
  import and download guarding, listen addresses and the socket address
  text they carry, the addresses a listener is announced
  under, and the training front end's rules.
- `app/` is the I/O around it: async Wyoming streams, configuration and
  training files, WAV replay, model staging.
- `tests/` exercises the library on concrete values.

Floating-point work (audio scaling, score thresholds) stays at the edge:
the library takes the outcome of a comparison, never a float.
