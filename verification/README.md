# polygone

The logic of a post-quantum ephemeral transit network, with contracts
proved by Verus.

- `src/` — the verified library: key encapsulation and signatures
  (ML-KEM-1024, ML-DSA-87, BLAKE3 key derivation) behind stated wrappers,
  wire packets and replay checks, the session state machine, topology
  derivation, ephemeral relay nodes, the drive (erasure coding, chunked
  storage, the file index, local shard storage), the server's
  bookkeeping (quotas, rate-limit decisions, the service registry), the
  terminal interface's state, and first-time setup.
- `tests/` — tests of the library through its public interface.
- `app/` — the command line, file and terminal I/O, and the parts that
  compute with floating point (token buckets, usage percentages, prices
  and ratings) or run processes (containers).
