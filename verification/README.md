# LMT

LMT schedules, executes and observes the synchronization of public software mirrors across Linux
hosts. A server holds the configuration, the schedules and the history of runs; an agent on each
node executes what the server hands out and publishes what a run has fetched; a command line talks
to the server.

This repository holds the rules of the three programs as a library that Verus verifies, and the
programs around it.

## Layout

- `src/domain`: names, mirror documents, schedules, the states of runs and attempts, and the
  compilation of a document into what an agent executes.
- `src/store`: the control plane's tables and every operation on them: applying a configuration,
  polling, events, retries, cancellations, credentials, bindings, logs and restores. `wellformed`
  says what always holds of the tables.
- `src/server`: what the server answers: access, requests, logs, retention, metrics, status,
  backups and the steps of a restore.
- `src/agent`: the durable records of attempts, acceptance and cancellation, reconciliation with the
  server, and the publication of a candidate as a machine of steps that survives a crash between any
  two of them.
- `src/cli`: settings, requests, log streams and output of the command line.
- `src/outside.rs`: the calls into other crates, each with the contract that the proofs rest on.
- `tests`: what the library does on given values.
- `app`: the programs: HTTP, SQLite, files, processes and signals.

## Reading the contracts

Functions state their results over spec functions and views of the same module. Facts that span
several operations are public proof functions whose names begin with `law_`; their doc comments say
them in words. An operation on the tables asks for tables that are well formed and leaves them so;
`Store::consistent` tests tables that come from outside.

A step that needs the outside world is a value: a publication, a reconciliation and a restore each
say what they ask for next, and take the answer as an event.
