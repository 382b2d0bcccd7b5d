# spacekit_stdlib

Verified logic of the SpaceKit smart contracts: tokens, payments, agents,
identity, storage and the app store, written in Verus.

Each contract is a module of `src/`. Its state lives in a `KvStore` (a map
from byte keys to byte values), its caller and payment in a `HostEnv`, and
each call is a function from store, environment and input bytes to the new
store and a reply. Contracts state what they do as spec functions over the
store's map; calls that announce themselves append `Event`s (a name and a
payload) to a log the caller passes. The executable code is proved to match
the spec functions, and the laws (what a read gives back of a write, what a
refused call leaves unchanged) stand beside them as public proof functions.

Layout:

- `src/` the verified library. Shared pieces are `wire` (the call
  encoding), `store`, `host`, `codec`, `text`, `utf8` and `crypto` (SHA-256
  through the `sha2` crate). `arena` holds the bump reservation used by the
  WASM heap.
- `tests/` runs the library on concrete calls.
- `app/` holds what talks to the outside: the host services (language
  models, signature checks, the compressor, the fact registry), the serde
  copies of the forum types, and the loop that answers host requests.
