# muta

Android USB tethering for macOS, in userspace, as a verified library with a thin
program around it.

The library (`src/`) holds what decides: the RNDIS control channel and framing,
matching a phone's USB descriptors, Ethernet, ARP, IPv4/UDP and DHCP, the batching
of outbound frames and the handling of inbound ones, addresses, routes and DNS of
the tunnel, the state machines of the daemon, and the plan for the launchd service.
Its functions carry contracts that Verus proves, and the public proof functions state
what holds across them: frames go out once and in order and in transfers that the
device takes, a device's keepalives are answered, a DHCP exchange ends in a lease,
every route that was added is deleted again. Where the library calls on what a user
supplies (a USB backend, a command runner, a key store), a recorder stands in between
that makes one call at a time and notes it, so that contracts can say what was called,
in which order, and that nothing else was.

The program (`app/`) moves bytes: USB through `nusb` or `rusb`, `utun`, sockets,
threads, signals and child processes. It asks the library what to do next and does
it.

| Module | What it covers |
| --- | --- |
| `addr`, `bytes`, `text`, `time` | addresses, big- and little-endian fields, text, instants |
| `rndis` | control messages, bring-up, keepalives, data packets |
| `usb`, `bus` | backend traits, descriptors, the RNDIS matcher, recorded calls |
| `netstack` | Ethernet, ARP, IPv4/UDP, DHCP client |
| `link` | batching, the receive path, the DHCP timer, the packet sink |
| `tun`, `tunnel` | `utun` framing, interface commands, routes, DNS, the tunnel's plan |
| `device`, `transport`, `probe` | opening a phone, its control transport, the bus report |
| `daemon`, `status` | watching the bus, holding a session, the status line |
| `service`, `cli` | installing the daemon, the command line |

A few functions are not proved but taken on trust, each for one outside call: a handful
of standard library calls in `text`, `time` and `netstack::dhcp`, and
`rusb::request_type` in `usb::adapter`.
