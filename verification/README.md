# s3_offload

Files that cannot be handed to the agent as text, image or audio are stored
in an object-store bucket, and the prompt gets a short hint that says where.
This crate holds the verified part of that feature:

- `src/text.rs`: character classes, trimming, substring search.
- `src/paths.rs`: splitting and sanitizing path components, the working path
  and the object key of a file, the session key; laws on sanitizing (no
  component is empty, `.` or `..`, or holds an unsafe character) and on how
  keys split back into exactly their components.
- `src/hints.rs`: the offload record and the hint blocks (one per file, never
  duplicated, at most ten per message); laws on offering hints.
- `src/offload.rs`: the decisions around an upload (whether to upload, the
  record before and after the store answers) and the upload error text.
- `src/config.rs`: the bucket settings and the conversation reference.

`app/lib.rs` builds the AWS client, performs the upload and logs; it calls
the library for every decision.
