# tams

A Time-addressable Media Store (TAMS) metadata service, written in Verus.

The library under `src/` holds the service's logic with machine-checked
contracts: the `secs:nanos` timestamp and time-range notations, rationals,
tags and tag filters, JSON resource documents, the metadata store (sources,
flows, segments, object instances, webhooks, deletion requests) and the
events it records, webhook matching and delivery status, pagination tokens,
credentials and bearer tokens, and the request-level validation the HTTP
API applies before it touches the store.

`app/` is the program around it: the HTTP servers (the TAMS API and the
authentication service), MongoDB persistence, S3 client configuration,
webhook delivery and command-line handling.

## Layout

- `src/timestamp.rs`, `src/timerange.rs`, `src/rational.rs`: the time model.
- `src/tags.rs`, `src/docs.rs`, `src/json.rs`, `src/strmap.rs`: tags, JSON
  values and string-keyed maps.
- `src/source.rs`, `src/flow.rs`, `src/flowdoc.rs`, `src/collection.rs`,
  `src/segment.rs`, `src/object.rs`, `src/service.rs`: the resources.
- `src/store.rs`: the store and its operations.
- `src/webhook.rs`: events, their payloads and webhook matching.
- `src/auth.rs`, `src/pagination.rs`, `src/api.rs`: credentials, paging and
  request handling.
- `src/presign.rs`, `src/sys.rs`, `src/text.rs`: calls into S3 presigning,
  the clock, random identifiers and string conversions, behind trusted
  items with stated contracts (base64 likewise, in `src/auth.rs` and
  `src/pagination.rs`).
- `src/error.rs`, `src/order.rs`: store errors and deletion requests; the
  order of identifiers in listings.
