# hatrack

A general purpose HA tracking proxy that drops requests from all HA ordinals of a
cluster apart from the active one.

`src/` is the verified library:

- `cluster_state` decides for one cluster which replica is active: failover to the
  next ranked replica after silence, probation and failback of the primary;
  `cluster_laws` holds what follows over one request and over runs of them.
- `ranking` orders the replicas of a cluster by highest random weight.
- `replica_selector` keeps the clusters and drops idle ones; `selector_laws` holds
  what follows.
- `proxy` decides what is done with a request; `http`, `util` and `profiles` hold the
  header, address, URL and profiling rules it rests on; `metrics` what is counted.
- `time` and `text` are the time and text they share.

`app/` is the server around it: arguments, sockets, metrics export and profiling.
A selector is shared between requests behind a lock.
