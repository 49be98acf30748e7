# Zenith

Real-time operations interface for Apex CSF applications: a server that connects to
targets, commands them, decodes and stores their telemetry, and edits their parameters.

The rules of the server are a library written in Verus (`src/`): every function there
carries a contract, and the contracts are proved. Sockets, files, SQLite and HTTP are in
`app/`, which asks the library what to do and carries it out.

## Library

| Modules                                                   | What they decide                                            |
| --------------------------------------------------------- | ----------------------------------------------------------- |
| `protocol::{slip, aproto, ccsds_spp, ccsds_tm}`           | Framing and packets, both directions                        |
| `aproto_client`, `stream_link`, `transport`               | Command round trips, uploads, library swaps, stream decoding |
| `config_manager`, `telemetry`, `json`                     | Struct dictionaries, decoding of payloads, sample routing   |
| `params`, `param_update`, `tprm`, `staged_update`, `sequence` | Parameter edits, payload stamping, verify-before-apply      |
| `storage::{telemetry_db, retention, writer, layouts}`     | Evictions, the tier ladder, batching, saved layouts         |
| `auth`, `rate_limit`, `requests`, `reports`, `metrics`, `config` | Credentials, request checks, reports, counters, defaults    |
| `wire`, `crc`, `codec`, `text`, `text_map`                | Bytes, checksums, hexadecimal and base64, text              |

Floating-point values are carried as their bit patterns; `app/` turns them into numbers.

What is taken on trust is small and marked: the `hex`, `base64`, `argon2` and
`jsonwebtoken` calls in `codec` and `auth`, and a few functions of the standard library
in `text` and `telemetry`. Each says above its contract what is claimed.

## Server

`app/main.rs` is the program: `zenith --config config.toml`, with `--port` to override
the port and `--hash-password` to make a password hash for the config file.
