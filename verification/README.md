amo
===

amo runs package operations as a service on the system bus. Operations are transactions:
each is an object of its own on the bus, and one scheduler executes them one at a time,
first come, first served.

`src/` is the library: everything that decides or computes, verified with Verus.

- `transaction` is the scheduler, `transaction::live` the registry of transaction objects,
  `transaction::object` what a call on such an object does, `transaction::reclaim` how
  abandoned objects are removed, `transaction::events` what is announced and in which JSON,
  `transaction::limits` how large arguments may be. `transaction::laws` and
  `transaction::registry_laws` state what holds across operations.
- `shutdown` is the exit protocol, `self_update` the watch for a new binary.
- `refresh` keeps the search index in step, `plan` says in which steps a change is carried
  out, `progress` reads the package manager's progress, `manifest` finds the topic
  updates that an operation carries out and `tum` lists them, `request` numbers requests,
  `service` answers the remaining requests.
- `text`, `keyed`, `sorting`, `clock` and `error` are what the rest is made of.

`app/` is the program around it: the bus, the package manager, files, signals and tasks.

`tests/` runs the library.
