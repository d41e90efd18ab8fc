# cloudflare-dyndns

Dynamic DNS for domains whose DNS Cloudflare manages. The program keeps the
A and AAAA records of a set of domains in line with the host's public
addresses, either by calling the Cloudflare API itself (client mode), or by
sending its addresses to a relay server (relay mode) that makes the calls
(server mode). A second, standalone client can also export Prometheus
metrics.

## Layout

- `src/` is the library, written in Verus. Every function states what it
  does in `requires` / `ensures`, and Verus proves it, except two small
  functions that call outside code and whose contracts are trusted
  (`str::to_lowercase` in `config`, humantime's `format_duration` in
  `standalone::config`):
  - `address`: the textual forms of IPv4 and IPv6 addresses;
  - `dyndns`: the client's state (domains, proxy flag, addresses);
  - `client`: the Cloudflare requests, and in `client::sync` the plan of
    record changes for a domain and the run that applies it to every
    domain, with the laws that the plan brings the records in line;
  - `relay`, `server`: what the relay sends, which requests the server
    admits and what it answers;
  - `config`: the configuration of the three modes and its checks;
  - `standalone`: the standalone client (requests, update run, address
    intake, configuration, environment references);
  - `text`, `version`: text helpers and the version text.
- `app/` is the program around the library: command line, runtimes, HTTP
  calls and the HTTP server, TLS, signals, logging, reading configuration
  files and metrics. It hands the library plain values and performs the
  steps the library's update runs ask for.
- `tests/` exercises the library on concrete values.
