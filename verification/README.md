# Happy IP Scanner

An IP address and port scanner with a command line and a desktop window. The scanning
rules live in a library whose behaviour is stated in `requires`/`ensures` contracts and
proved with Verus; the program around it does the network, file and window work.

## Layout

- `src/` — the verified library.
  - `text.rs`: white space, trimming, splitting, line breaking, substring search and
    decimal numbers, specified over `Seq<char>`.
  - `ports.rs`: port lists such as `80, 443, 8000-8010`, and their display.
  - `arp.rs`: MAC address normalisation and the ARP cache formats of BSD, Linux and Windows.
  - `web_banner.rs`: the summary of an HTTP response (title, `Server:` header, status).
  - `vendor.rs`: the device vendor from a MAC address's OUI prefix.
  - `ip_range.rs`: CIDR blocks, address ranges, target expressions, public addresses and
    the random address generator.
  - `limits.rs`: the open-file limit to ask for and the socket budget.
  - `pinger.rs`, `scanner.rs`: which probes run, when ports are scanned, when a host is
    alive, which fetchers run, and the tally a front end keeps of a running scan.
  - `cli.rs`: what a command line asks for, output formats and where results go.
  - `export.rs`: spreadsheet-safe text cells.
  - `gui.rs`: scan modes, preferences, result filtering and sorting, subnet sizes.
- `tests/` — tests of the library on concrete values.
- `app/` — the program: argument parsing, sockets, `ping`/`arp`, DNS, files, the
  progress bar, the results table and the egui window.
