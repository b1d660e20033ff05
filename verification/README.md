# Forgejo Actions Orchestrator

A daemon that watches an allowlist of Forgejo repositories and rents a single-use
cloud machine for each queued job.

The library under `src/` holds everything the daemon decides, written in Verus and
verified: which configurations are accepted, which class answers to a job, who is
admitted, how machines are named, what is sent to the clouds and to Forgejo, and
the order of a tick. It never touches the network, the disk or a clock.

| Module      | What it holds                                                     |
| ----------- | ----------------------------------------------------------------- |
| `config`    | the configuration, what makes it acceptable, and its classes      |
| `policy`    | which jobs get a machine                                          |
| `naming`    | machine names, and the way back from a name to its class          |
| `reconcile` | a tick: a list of tasks, one request at a time, and their answers |
| `cloudinit` | what a new machine is told to do                                  |
| `provider`  | the requests of each cloud, and what their answers mean           |
| `forgejo`   | the requests to Forgejo, and what their answers mean              |
| `alert`     | which failures are told of, and how often                         |
| `cli`, `secret` | the command line and the credentials                          |
| `text`, `table`, `json`, `http` | what the others are built of              |

A tick is run by calling `Orchestrator::tick` and then `Orchestrator::advance` until
it is over. Where `advance` asks for something, it is done and its outcome handed to
`Orchestrator::answer`. `app/` does this against the real services: it reads the
configuration file, sends the requests and decodes the answers.

What holds of a whole tick is stated in `src/reconcile/`: that it ends in
`ending.rs`, that no repository gets more than it was granted in `grants.rs`, and the
rest in `laws.rs`. The other modules state their laws beside the functions they are
about, in proof functions whose names start with `law_`.
