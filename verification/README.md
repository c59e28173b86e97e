# cognets_broker

An NGSI-LD context broker whose rules are written and proved with Verus.

The library (`src/`) holds the broker's logic with its contracts: JSON
values and merge patches, request headers, the `q` and `scopeQ` query
languages and their evaluation, query planning, JSON-LD context
resolution (a state machine that asks its caller to fetch remote
contexts), entity operations and batch operations on an entity store,
projection and simplification of entities, discovery listings,
subscriptions and their delivery counters, the replicated entity mutation
log and the swarm mutation log (kept once per mutation id, in recording
order), temporal documents, SWIM peer membership and the entity watcher's
bookkeeping. Outside crates (`serde_json`, `regex`, `url`, `chrono`,
`uuid`, `bson`) are reached through small trusted wrappers whose contracts
say what the library relies on.

`app/` is the HTTP server around the library: it reads the environment,
keeps the repositories in memory behind locks, maps the NGSI-LD routes
(and the listing of swarm mutations) to library calls, fetches remote JSON-LD contexts when the resolution asks
for them, and runs the entity watcher's polling loop.

`tests/` exercises the library on concrete values.
