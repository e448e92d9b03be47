# stalker

Fault-injection analysis of dynamic libraries: every instruction of the
chosen symbols is replaced by its mutants under a hardware fault model
(bit flips, bytes stuck at a value), the target program is run against each
patched library, and the outputs are classified.

- `src/` is the verified library: the instruction parser and comparison,
  instruction records and database keys, the fault models and their
  mutant enumerations, the injection state machine, the reading of run
  outputs into fields, the tallies and classes of the effect models, and the
  reports.
- `app/` is the command-line program around it: configuration files, the
  disassembler session, the databases, the processes that run the mutants,
  and the floating-point rates of the effect classes.
- `tests/` runs the library on concrete values.
