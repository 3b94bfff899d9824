# bevy_r_place

A peer-to-peer collaborative pixel canvas, with an on-chain program that keeps a
board of pixels for a fee.

`src/` is the library, verified with Verus:

- `canvas` — the chunked canvas as a last-writer-wins register per pixel, its RGBA
  image, and the conversions to and from chunk lists.
- `network` — pixel update messages, local painting, the request-response size limit,
  and the swarm's decisions as a state machine from event to action.
- `snapshot` — snapshot and stream file names, timestamps parsed back from them, the
  choice of the latest snapshot, and the bookkeeping of the pixel stream.
- `program` — the on-chain program: account layouts on the wire, instruction decoding,
  and the processor for placing pixels, merging diffs into chunks, and the fee vault.
- `args`, `codec`, `time` — settings and bootstrap peer selection, codec limits, the
  wall clock.

A node bootstraps from the local addresses listed in its settings unless it is a
bootstrap node itself; `--mainnet` selects the public network's nodes instead.

`app/` runs the node around the library: the command line, libp2p, bevy, image files,
S3, and the on-chain entry that hands the runtime's accounts to the processor.

`tests/` exercises the library on concrete values.
