# pshred router

Demultiplexes Solana Constellation pshreds by proposer. An XDP program checks
the pshred header in the UDP payload of each frame and redirects the frame to
the AF_XDP socket of the proposer that the header names. A loader sets the
sockets up, drains them and reports.

`src/` is the library, with contracts that Verus proves: the wire format, the
rule that ties pslices to cycles, the routing policy, the counters, the buffers
and tallies of the loader, its loops, and the developer tasks. The functions named `law_..` state what holds across functions.

The readers of the Ethernet, IPv4 and UDP headers in `src/packet.rs` call the
`network-types` crate; their contracts are trusted.

`app/` is ordinary Rust around the library, which makes the system calls: the XDP program, the loader, the
task runner and a baseline receiver, in one binary that acts by the name it is
called by. `app/xdp.rs` shows what the XDP program does with the library; it is
compiled for the host. The eBPF object that the loader attaches is a build of
its own. The loader reads it from the path that `PSHRED_ROUTER_OBJECT` held when
the loader was built.

`Cargo.toml` names `aya-build` only to hold it to a version that builds with
Rust 1.95: the build scripts of `aya-ebpf` use it.
