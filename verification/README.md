# SpeakLab server

A server for practising spoken languages. It keeps records of practice, recognises
speech and streams cloud games from a browser that nobody sees.

- `src/` is the library: every decision the server makes, with its contract, proved by
  Verus. What is taken on trust is in `json` (`serde_json`), `sql` (`rusqlite` and the
  SQLite in it), `headers` (`axum`'s headers), and in one place each of `text`, `config`
  and `cloud::cdp` (std).
- `app/` is the program around it: it listens, reads the environment, runs the browser
  and talks to it. Speech recognition is built in with the feature `whisper`.
- `tests/` runs the library on concrete values, with the real database.

## The library

| module | what it decides |
|---|---|
| `asr` | what a WAV file holds, and what becomes of it |
| `binary64` | which bits stand for a number from 0 to 1 |
| `cloud::cdp`, `cloud::commands` | how the browser is spoken to |
| `cloud::browser`, `cloud::start` | how a browser and a session come up |
| `cloud::session`, `cloud::pixel` | what a player's input does |
| `cloud::stream` | how the picture is kept coming |
| `cloud::service`, `cloud::target` | which sessions run, and for which sites |
| `config`, `state` | the settings, and who is let in |
| `domain`, `store` | what a record is, and what the store does with it |
| `mean` | the mean of scores |
| `error`, `routes` | what callers are answered |

Floating-point numbers are known to the library by their bits, and what it works out
from them, such as a mean or a pixel, it works out on whole numbers, rounded as the
processor rounds.
