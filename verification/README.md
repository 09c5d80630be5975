# vmlab

A single-host virtual machine lab orchestrator, with its logic verified by
[Verus](https://github.com/verus-lang/verus).

A *lab* is a named group of virtual machines and virtual networks, written down
in WCL. The library reads and validates lab files, plans networks, hardware
addresses, disks and boot order, switches and filters frames, answers DHCP, DNS,
ARP and ICMP, translates TCP and UDP flows, follows the power state of guests,
and decides what the command line asks of the daemons.

## Layout

- `src/` is the library. All but the calls into other crates is verified:
  functions state in `ensures` what they return or change, over mathematical
  models of the data.
  - `config`: the lab file, from the blocks of its text to a model, and the
    rules that a sound lab obeys.
  - `net`: frames, the switch, DHCP, DNS, filter rules, the gateway and the NAT
    engine with its TCP state machine.
  - `labd`: networks, state, boot order, power control, shares, snapshots and
    the requests of a lab daemon.
  - `media`: ISO and floppy images, and the cache that they are kept in.
  - `logs`, `cli`: logs and the command line.
- `tests/` runs the library on concrete values.
- `app/` is the program around it: arguments, sockets, files and processes. It
  evaluates configuration text with `wcl_lang`, which reads imports from disk.

## What is trusted

Calls into other crates stand behind small functions whose contracts are stated
and not proved: `ipnet` (CIDR notation and blocks), `sha2`, `hex` and `base64`
(encodings), `rand` (initial sequence numbers), and three string operations of
std. Their doc comments say what is claimed of them.

Properties that relate several functions stand as public proof functions beside
them, for instance that a frame that was built parses to what it was built from,
that a lab without reported problems never deadlocks while it comes up, or that
replies to a redirected flow are restored to the address that the guest dialled.
