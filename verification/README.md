# cap_consensus

A partition-tolerant network simulation with iterative state updates and
economic incentives. `src/` is the verified library:

- `partition`: the partition table (groups of node ids), its invariant that
  every node is in exactly one group, partition detection, peer selection,
  and the random split into halves.
- `simulation`: what each step of the simulation decides (reconfiguring
  partitions, picking active nodes, building actions, reacting to failed
  sends, stopping, shutting down, the final result).
- `protocol`: the traits that users implement (state machine, incentive
  mechanism, consensus protocol) and the node update step written over them.
- `types`, `error`: messages, actions and errors.

`app/` holds the tokio-based network and nodes, the floating-point default
protocols, and the serde / `Display` forms of the messages and errors.
