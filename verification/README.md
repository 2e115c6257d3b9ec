# nbac

**N**ix **b**uilder on **A**pple **c**ontainer: an on-demand, idle-shutdown
`aarch64-linux` remote builder for Nix on macOS, driven by one CLI.

The decisions the CLI makes live in a library verified with Verus; the
command-line program around it only reads files, runs processes and prints.

## Layout

- `src/` — the verified library:
  - `config` — the configuration, its defaults and the paths derived under
    the state directory;
  - `container` — every `container` call's argument vector, the
    classification of failures, version checks, and what a finished call's
    output means;
  - `driver` — the protocol each call runs under: service-start and
    default-kernel recovery, bounded boot backoff; every call finishes;
  - `generation` — the image generation: the message hashed over the
    Containerfile, the build context (in name order) and the baked
    configuration, and the tag derived from its digest;
  - `machine` — memory sizes, and the plans that build the image, create,
    recreate, reconfigure, boot or tear down the machine;
  - `inject` — the key-injection script and the guest address it reports;
  - `keys`, `session`, `transport` — `ssh-keygen`, `ssh` and `nc`
    invocations, the proxy's fast path, confirmations;
  - `status` — the verdicts of the status probes;
  - `text` — verified string and number helpers.
- `tests/` — tests of the library on concrete values.
- `app/` — the `nbac` program: argument parsing, the TOML file, process
  execution for the driver, the filesystem, the lock, and output.
