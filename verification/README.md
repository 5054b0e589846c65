# mosaic_contracts

Smart contracts of a pixel mosaic on a CosmWasm chain, with their logic
verified by Verus.

- `src/` is the verified library: tile geometry and colour packing (`grid`),
  fee checks (`funds`), the tile NFT contract (`tile_nft`), the colouring
  contract with its permissions and rate limit (`tile_coloring`), the two
  vending minters (`vending`, row by row; `random_vending`, drawing positions
  at random), the pixel canvas (`canvas`), the pixel factory, collection and
  colouring contracts (`pixel_factory`, `pixel_collection`, `pixel_coloring`)
  and the decisions of the end-to-end harness (`e2e`). Each contract is a
  state type with `from_parts` / `into_parts` and one method per message,
  whose contract states the response and the new state exactly.
- `app/` is the chain plumbing: entry points, storage, serialisation, replies,
  the NFT base contracts, and the harness that runs the chain's client.
- `tests/` runs the library on concrete scenarios.
