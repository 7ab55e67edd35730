# pengagent

PengAgent is an admin agent for self-hosted services run with docker-compose
and git. It speaks PengAgent Protocol v1 over HTTP inside a VPN.

- `src/` is the verified library: the restart whitelist and its `*` globs
  (`config`), the configuration built from the `PENGAGENT_*` variables
  (`config::Config::from_env`), the bearer-token check (`auth`), the
  protocol's error body (`error`) and the health answer (`endpoints`).
  String helpers with their specifications are in `text`.
- `app/` is the server: it reads the environment, runs axum with the
  authentication middleware, and serialises error bodies.
- `tests/` runs the library on concrete values.
