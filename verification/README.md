# simple

A small multiplayer arena game with a login platform, with its decision
logic written in Verus and proved against its contracts.

- `src/` is the verified library:
  - `platform`, `sessions`, `crypto`: the login platform's accounts, API key
    checks, logins with one session per user, session renewal and expiry.
  - `platform_client`, `env`: what the game server sends to the platform,
    how it reads the answers, its retry policy, and its `.env` file.
  - `combat`, `bullets`, `server`: melee kills and points, shooting with
    cooldowns and a bullet limit, bullet hits, admitting or refusing joining clients,
    respawns, session checks and departures.
  - `login`, `client`: the client's login screen and connection watch.
  - `scoreboard`, `text`, `shared`: ranking, the texts shown, shared types.
- `app/` holds the programs around it: the platform's HTTPS service, the
  server's calls to the platform, and the floating-point arena geometry.
- `tests/` runs the library on concrete cases.
