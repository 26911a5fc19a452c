# oxidns

The DNS protocol layer of the OxiDNS server and a few of its control-plane
rules, written in Verus: the verified functions under `src/` carry contracts
that the verifier proves, the few trusted wrappers around `ahash`, `base64`,
`http` and std carry contracts that it takes on trust, and the library's laws
are proof functions checked by the verifier.

## Layout

- `src/name.rs`, `src/header.rs`, `src/question.rs`, `src/types.rs`: domain
  names, the message header, questions and the record-type, class and code
  registries.
- `src/rdata/`: typed RDATA payloads, EDNS options, type bitmaps, TXT
  character-strings and client-subnet text.
- `src/wire/`: the wire codec. Each RDATA type has a decoder, an encoder and a
  read-back law; `rdata_len.rs` and `length.rs` compute encoded sizes and prove
  them equal to the encoders' output; `compression.rs` holds the name
  compression maps over `ahash` collections and the compressing name
  writer; `rdata_compress.rs` writes RDATA into a message with compression
  and proves its length equal to the recorded sizing; `opt_law.rs` reads back
  OPT options.
- `src/cache/`: cache-key normalisation and client-subnet digests.
- `src/v2ray_dat.rs`: geosite/geoip selector rules over decoded data files.
- `src/api_auth.rs`, `src/api_cors.rs`: management API basic authentication
  and CORS decisions.
- `src/init_plan.rs`: plugin dependency planning.
- `src/diagnostic.rs`, `src/names.rs`, `src/payload_text.rs`,
  `src/payload_fields.rs`, `src/edns_summary.rs`: configuration error
  locations, registry names, record payload summaries, the recorded fields of
  record payloads and the recorded form of EDNS options.
- `app/`: what cannot be verified: protobuf decoding of data files, the error
  type with `thiserror`, HTTP header plumbing, address text parsing and the
  JSON rendering of recorded EDNS options and record payloads.
- `tests/`: executable tests of the library.
