# sulltec_remote

The decisions of a remote-management agent, verified with Verus: what a device trusts, which jobs
it runs and how often, how it answers for them, what it reports, and which packages it installs.

- `src/` is the library. Every function states in its contract what it returns or changes, and the
  public proof functions state what holds across functions: that trust never falls back, that a
  finished job is never run again, that paging a set loses and repeats no row, that under
  enforcement only signed and newer packages are installed.
- `tests/` runs the library on concrete values, with the crates that it calls.
- `app/` is ordinary Rust around it: threads, files, processes and requests. What the surrounding
  program and the operating system supply comes in through the `Host` trait. Shares and sizes in
  floating point are computed there and reach the library as the texts of numbers.

## Modules

| Modules | What they decide |
| --- | --- |
| `text`, `num`, `json`, `crypto` | texts, numbers, JSON values, digests and signatures |
| `trust`, `policy` | the trusted key and its rotations, forced settings |
| `seen`, `dispatch`, `settle`, `runs` | the record of the jobs, the queue, runs that outlived the client |
| `hosted`, `keyset`, `argv`, `command`, `script`, `runner` | what a job brings, how it is run, and its answer |
| `files`, `fs`, `glob`, `sessions`, `wol`, `perf`, `services` | the procedures of the client |
| `inventory`, `smbios`, `snapshot`, `scripts`, `ad`, `console_ad` | what the machine is |
| `sync`, `heartbeat` | reporting, and the replies of the console |
| `update`, `updater`, `offer`, `naming` | updating and installing the client |
| `logon`, `connection` | logging on with the console's signature |

## What is believed without proof

The contracts of the wrappers marked `external_body`, and of `String::push`: digests (`sha2`),
base64 and Ed25519 (`sodiumoxide`, `base64`), JSON (`serde_json`), addresses (`url`), dates
(`chrono`), and the conversions of bytes and letters of the standard library.
