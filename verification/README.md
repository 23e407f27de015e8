# meetwo

A chat bot that forwards a Minecraft server's log to a Discord channel and
relays Discord messages back to the server over RCON.

- `src/` is the verified library (Verus): settings from the environment
  (`config`), decimal numbers (`decimal`), text utilities (`text`), compiled
  regular expressions (`pattern`), log line recognition (`log_line`), log
  file following (`tail`), `mcrcon` arguments and output (`rcon`), and the
  decisions and answers of the chat commands (`commands`).
- `app/` is the process around it: reading the environment and files,
  running `mcrcon`, and talking to Discord through poise and serenity.
- `tests/` runs the library on concrete values.
