# snmpsim

An SNMP agent simulator: it answers SNMP v1/v2c GET, GETNEXT, GETBULK and
SET requests from simulation data files (`.snmprec`, `.snmprec.bz2`,
`.snmpwalk`, `.dump`), and converts data files between formats.

## Layout

- `src/` — the library, verified with Verus:
  - `text`, `hex_codec`, `oid`, `snmp_value`: characters, integers, hex text,
    OIDs and their order, SNMP values;
  - `ber`: the BER codec of SNMP messages, with its round-trip laws in
    `ber/laws.rs`;
  - `grammar`: the line grammars of the data file formats;
  - `record`: evaluation and formatting of records, with the laws that what is
    written is read back in `record/laws.rs`;
  - `variation`: the built-in variation modules (delay, error, numeric,
    writecache);
  - `datafile`: indexing of data files and lookups (exact, next, subtree);
  - `server`: the engine configuration and the processing of datagrams;
  - `reporting`, `endpoint`, `confdir`, `daemon`, `convert`: metrics,
    listening endpoints, default directories, privilege rules and the
    line-by-line conversion of data files.
- `tests/` — tests of the library.
- `app/` — the programs around the library: the command responder (UDP
  sockets, the file system, daemonising, logging) and the converter
  (`rec2rec`), which reads and writes files and leaves each decision to the
  library.
