# spark_codecs

Codecs and buffers of a communication stack, verified with Verus.

- `buffer`: scattered views of bytes, the contracts of readable and writable buffers, and a pool that
  lends storage and takes it back.
- `line`: lines of text that end in a newline.
- `rtp`, `rtcp`: media packets, telephone events, and control packets with the statistics behind them.
- `sdp`: session descriptions, and answers to an audio offer.
- `sip`: messages, addresses, INVITE transactions, and SIP over WebSocket.
- `script`: small scripts that exercise the codecs.
- `tck`, `mock`: suites of contract tests, and a transport in memory.
- `text`, `wire`, `error`: what the others share.

A view of lent storage has a share of its lease, which a split halves; the lease ends when all shares
have come back, by `Lease::release` or `SlabBufferPool::release`.

Every verified function of `src/` states what it returns in its `ensures`. Properties that relate several
functions are the public proof functions whose names begin with `law_`. Calls into `bytes`,
`smallvec` and `syn`, and a few of the standard library, stand in small functions whose contracts are
taken on trust; each says so in its comment.

`app/` holds what is not verified: floating point, shared ownership, clocks, files, formatting traits
and token streams.
