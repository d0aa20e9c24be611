# aruna_proxy

The verified core of the Aruna data proxy, written in Verus.

- `src/` is the library. Its functions are verified, except the small
  trusted wrappers (`#[verifier::external_body]`) through which it calls
  `diesel_ulid`, `jsonwebtoken`, `tonic`, `aruna_file` and `String::push`;
  each states in its contract what it claims of the outside code:
  - `auth`: actions and intents (their text form, read and written), the
    bearer token of a gRPC request, the key id of a token, and the check
    that a token's claims permit creating secrets on this proxy;
  - `cache`: the public keys that tokens are checked against;
  - `ranges`: from an S3 `Range` request to the byte ranges read from
    storage, through a chunk footer where there is one;
  - `footer`: chunk footers, built only where they can be parsed safely;
  - `storage`: object locations, multipart upload parts, and the steps of
    making sure a bucket exists;
  - `proxy`: the gRPC service's state;
  - `ids`, `decimal`, `text`: identifiers in Crockford base-32, decimal
    numbers, and small text helpers.
- `app/` holds what cannot be verified: the requests to S3, the S3 and gRPC
  servers, and the serde forms of token claims with signature checking.
- `tests/` runs the library on concrete values.
