# coretime_market

A market for bulk coretime, written and verified in Verus.

Cores are sold for periods of time in sales that follow each other. A sale has
three phases. In the Market phase bids are placed at or below a price that
descends from an opening price to a reserve price; they are binding and can
only be raised. When it ends, the highest bids win and all winners pay one
price, that of the bid on the last core. In the Renewal phase tenants renew,
and may displace the lowest winner without renewal rights. Where the auction
sold out, tenants that did not win in it pay a penalty. In the Settlement
phase the next sale is awaited. Its reserve price follows from how many cores
were sold.

## Layout

- `src/arithmetic.rs`: fixed-point numbers and parts per billion, over `sp-arithmetic`.
- `src/core_mask.rs`, `src/primitives.rs`: masks, regions and their numbers.
- `src/records.rs`, `src/market.rs`: the records of a sale and what a market offers.
- `src/price.rs`, `src/auction.rs`, `src/renewal.rs`: how prices are set, auctions
  settled and renewals decided.
- `src/storage.rs`: the order in which bids are walked, over `frame-support`.
- `src/model.rs`: the state of a market and how each operation changes it.
- `src/pallet.rs`: the market itself.
- `src/price_laws.rs`, `src/auction_laws.rs`, `src/market_laws.rs`: what holds of
  every price, auction and market.
- `src/sale_laws.rs`: what holds over a whole sale, and from sale to sale.
- `src/broker.rs`: a market that sells at once, without bids.
- `src/xcm.rs`, `src/assets.rs`: places, assets and services over them.
- `src/table.rs`, `src/psm.rs`: how a peg stability module is set up for measuring.
- `app/`: the library in the types and behind the traits of a runtime.

What is computed by `sp-arithmetic` and `frame-support` is called through a few
functions whose contracts are stated and not proved; they are marked
`external_body`, in `src/arithmetic.rs`, `src/psm.rs` and `src/storage.rs`.
