# holyrig

Rig control for amateur radio transceivers: a small language for describing
how a rig is driven over its serial line, schemas that say which commands a
kind of rig offers, OmniRig description files turned into rig files, and
the network front ends (rigctld, a UDP debug interface) that hand commands
to a rig.

The library in `src/` is written in Verus: each public function states what
it returns in `requires`/`ensures`, and Verus proves the code against it.

- `lexer`, `grammar`, `rig_parser`, `schema_parser`, `interpolation`:
  reading rig and schema files; `report` shows their errors.
- `semantic_analyzer`: checking a rig file against its schema.
- `data_format`, `format_laws`, `commands`, `mask_laws`: byte encodings of
  numbers and binary command masks, with their laws.
- `interpreter`: values, scoped environments, the enums a run knows,
  binary operations and variable interpolation.
- `omnirig_parser`, `translator`, `rig_file`: OmniRig descriptions and their
  translation into rig files.
- `rigctld`, `udp_server`, `messaging`, `rig`: the decisions of the network
  front ends and of the device manager.
- `numbers`, `fields`, `text`, `name_map`: reading integers, splitting and
  trimming text, and a map keyed by name.

`app/` is the command-line tool around the library: checking rig and schema
files, converting OmniRig files, loading TOML schemas, and serving the
rigctld and UDP interfaces. `tests/` holds the tests.
