# Red Robin

A configurable network connectivity and diagnostics tester.

- `src/` is the verified library: configuration and its validation, latency
  ratings, test results, the test runner, connection statistics (counts,
  totals and order statistics), the report's rows and JSON form (with a reader for JSON that proves the
  report's JSON reads back as the results), and the
  parsers for `ip route` output, `resolv.conf` and the interface files under
  `/sys/class/net`. Every function there carries a contract that Verus
  proves.
- `app/` is the `redrobin` command: argument parsing, reading the YAML
  configuration, the async runtime, the system probes, floating-point
  statistics and printing.
- `tests/` exercises the library on concrete values.
