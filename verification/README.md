# Memoria

A memory service for agents, whose rules are verified with Verus. Agents write
memories into namespaces, search them, link them into a graph of entities, and send
each other messages; every call is authenticated, charged to a quota and audited.

## Layout

- `src/` is the library. Every function in it is verified against its contract.
  - `mcp_server`, `dispatch`, `gates`, `permissions`, `tools`, `server`, `replies`:
    the protocol, who may call what, and what is answered.
  - `auth`, `quota`: badges, access to namespaces, masking of secrets, limits.
  - `search`: keyword, semantic, temporal and other signals, their fusion, the walk
    along relations, reranking by entities and by dates and numbers in the texts.
  - `document`: extracting, splitting and storing documents.
  - `ontology`, `turtle`: runs of a reasoner, and the edges in its Turtle output.
  - `backup`, `health`, `service`, `session_watcher`, `consolidation`, `engine`:
    running the service.
  - `text`, `json`, `dates`, `clock`, `hash`, `paths`, `table`: what the others build on.
- `tests/` runs the library.
- `app/` is the program around it: databases, files, processes, HTTP, and the
  arithmetic on floating point scores.

Functions named `law_...` state what holds of the library as a whole: for instance
that a namespace is never left, that a search shows only what is current, that all
below a sensitive name is masked in what the audit log holds of a JSON value, that an
archive verifies exactly while it is unchanged.

The few facts that are taken on trust stand above the functions marked
`external_body`: each names the function of another crate that it calls.
