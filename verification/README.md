# singsing_rs

The logic of a Linux IPv4 SYN scanner, verified with Verus.

The library under `src/` parses targets, ports and services files, checks and
prepares a scan, builds probes, paces their transmission, correlates responses and
formats what is reported. Every function states in its contract what it returns or
changes, and the `law_` functions state what holds across functions, among them:

- a probe is a well-formed packet with valid checksums, and each pair of host and
  port is probed exactly once;
- a response is reported only if it comes from a probed pair, goes to the address and
  port that the probes came from and acknowledges the probe's sequence number, and no
  pair is reported twice;
- a response to a probe, a SYN/ACK or a RST where closed ports are asked for, is
  reported whatever else arrives, and the first one of a pair decides its state;
- the results are sorted by host and port, in a way that the order of arrival does not
  change;
- progress is reported each minute for ten minutes, each ten minutes for an hour and
  each half hour after that.

What is trusted stands beside the calls it speaks of: the packet fields and checksums
of `pnet` (`src/packet.rs`), the network notation of `ipnet` (`src/targets.rs`), two
calculations of `chrono` (`src/progress.rs`), and the clock, the sort and the formatting
of the standard library (`src/nonce.rs`, `src/scan.rs`, `src/text.rs`).

The programs under `app/` open the raw socket, run the sender and the receiver, and
print. They drive the state machines `Transmission` and `Reception`, which decide what
is sent, how long to wait and what is reported. Addresses are `u32` numbers, the first
octet in the most significant byte.
