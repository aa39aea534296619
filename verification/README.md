# CAUSEWAY

CAUSEWAY is a supervised local egress gateway. It offers one stable loopback
endpoint per traffic class and keeps each of them attached to a healthy
upstream, switching upstreams behind the endpoint without a gap for clients.

The project has two parts.

- `src/` is the decision core, written and proved in Verus. It holds every rule
  of the gateway as functions on plain values: the validation of the
  configuration, the parsing of manifests, scoring and candidate selection, the
  debouncing of egress changes, recovery and its pauses, the subscription
  transaction, the persistent state and its migration, the cleanup of adapter
  workspaces, and the answers on the control socket.
- `app/` is the program around it: command line, files, sockets, processes and
  timers. It asks the core what to do, does it, and reports back what happened.

## What is proved

Each public function states in its contract what it returns, for every input.
Properties that span functions are proof functions named `law_*` next to the
definitions they speak of. Among them:

- an accepted configuration listens on loopback only, and no writable path in
  it collides with another role;
- histories of subscription profiles never mix, and a profile whose source
  changed starts from nothing and is not trusted until it was fetched afresh;
- loading a saved state gives the state back;
- whatever happens during a subscription change, a refused one leaves what
  clients see and the state on disk as they were and stops every path that it
  started, and a committed one moves profile, pool, state and every class
  together; its cache never overwrites the generation that the state confirms;
- a class is let go from its node for the sake of a site only after that site
  refused it, and is told to install only nodes that the site has served;
- automatic moves stay inside the configured regions, and a pinned class never
  leaves a node by itself;
- a retired path keeps its connections for the grace period and up to the cap;
- only files and sockets that are surely the gateway's are ever removed.

What the core takes from other crates (YAML and JSON values, SHA-256, the
syntax of server names) stands behind small functions whose doc comments say
what is believed of them.

## Layout

| module | subject |
| --- | --- |
| `text`, `paths`, `names`, `seqs`, `order` | text, paths, ordered maps, sequences |
| `config`, `validate`, `reload` | configuration |
| `node`, `yaml`, `manifest`, `subscription` | nodes and where they come from |
| `score`, `selection`, `switching`, `recovery` | which node to use |
| `state`, `transaction`, `change` | what is remembered, and how it changes |
| `listener`, `peek`, `health`, `egress` | connections, checks and routes |
| `siteprobe`, `sites`, `probe` | tests of nodes and sites |
| `identity`, `workspace`, `json`, `dataplane` | adapter processes |
| `control`, `events`, `supervisor`, `runtime` | the daemon |
| `daemon_lock`, `cli`, `digest` | the rest |
