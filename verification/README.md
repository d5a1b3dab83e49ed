# burdbot

The core of a Discord community bot, verified with Verus, and the program
around it.

- `src/` is the verified library: the fuzzy search engine for Discord IDs,
  argument parsing, birthday bookkeeping (stored times, time zones, the
  hourly role window, confirmations), the choice of Forvo recordings by
  accent distance, Vocaroo link handling, banned image checks, staff logs,
  the English class channels, speaking time tracking, obfuscated text and
  the bot's replies. Calls into outside crates (regex, scraper, base64,
  petgraph, blake3, hex, aes, chrono, urlencoding, simsearch, bimap) sit
  behind small trusted wrappers whose contracts state what those crates
  document.
- `app/` is the program: Discord events and commands (serenity), the SQLite
  database, downloads, logging and timers. It hands plain values to the
  library and acts on what comes back.
- `tests/` runs the library on concrete cases.

The bot reads its token from `BURDBOT_TOKEN`, and the staff channel and
role of the Spanish-English server from `BURDBOT_STAFF_CHANNEL_ID` and
`BURDBOT_STAFF_ROLE_ID`.
