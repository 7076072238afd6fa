# rish_softvm_core

The core of a software virtual machine for x86-64 guests, verified with Verus: an
instruction interpreter without a JIT, and a user-mode network backend for the guest's
virtio-net device.

- `src/` is the library. Every function in it carries a contract over a mathematical
  reading of the state: `Machine` for the processor, `BackendView` for the network.
  - `arch/`, `cpu/`: registers, segments, memory, page walks, interrupts, the step.
  - `decode/`: instructions as plain values. The decoder itself is the crate `iced-x86`;
    what it reports is named, not described.
  - `ops/`: the instructions by family. Floating-point numbers are bit patterns;
    arithmetic on them is asked for as an `Effect` and its result handed back.
  - `net/`: Ethernet, ARP, IPv4, ICMP, UDP and DNS, TCP, and the backend over them. Time
    is a number of milliseconds, and sockets are the host's.
- `app/` is the host around the library: floating-point arithmetic, ports, sockets,
  threads and the clock.
- `tests/` runs the library.

What holds of several functions together stands in public proof functions beside them,
and for connections in `net/tcp_laws.rs`.
