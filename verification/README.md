# guild_network

The verified core of the Guild Network, written in Verus.

- `pallet_oracle`, `pallet_guild_identity`, `pallet_guild`: the runtime
  logic of the oracle, identity and guild pallets as state machines over
  their storage, with `balances` for the reserved oracle fees. Every call
  states when it is refused and with which error (a refused call changes
  nothing), and what it changes otherwise; the storage invariants are kept
  by every call.
- `requests`, `codec`: the payloads of oracle requests and their encoding.
- `identity`, `gate`, `dummy`: identities and their authentication by
  ECDSA, Ed25519 and Sr25519 signatures.
- `pad`, `utils`, `filter`, `merkle`, `allowlist`, `chains`, `common`,
  `hash`, `collections`, `dispatch`, `oracle_client`: the shared types and
  helpers.

`app/` holds what stands around the library: Merkle trees over allowlists
(they need a `hash_db::Hasher`), serde forms of the library's types and a
source of random identifiers.

Merkle allowlists are therefore split: `create_role_with_allowlist` takes the
allowlist's Merkle root from its caller, and `join_role_with_allowlist` takes
from its caller whether the signer's Merkle proof verified (`proof_valid`).
The library states what happens for each value of these two arguments, but
nothing in `src/` checks that the root belongs to the allowlist or that the
proof is of the signer's encoded account: that is done in `app/merkle.rs`.
