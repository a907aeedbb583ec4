# rusty_anna

A chat bot for Livechan-based boards (such as kotchan). It polls a board for
new posts, answers the posts that match one of its commands, and posts its
replies one at a time, retrying a reply that the board refuses because of its
posting countdown.

The library under `src/` is verified with Verus:

- `message` — posts, replies, and the message queue (posts read, the bot's
  own posts read back, replies waiting and replies sent), with the queue's
  operations stated as transitions of an abstract state.
- `commands` — commands (a pattern plus replies or an action), the command
  set with its `.help` listing, and the reading of `commands.yml`.
- `connection` — the bot's decisions on each post read and each reply sent,
  the polling URL and the request headers.
- `hangman` — the hangman game and its high-score table.
- `yaml`, `text`, `settings` — YAML documents as plain values, text helpers,
  and the reading of yes/no settings.

`app/` is the program around it: environment settings, the HTTP client,
JSON, files, and the logger.

Commands are configured in `commands.yml`:

```yaml
commands:
    greet:
        description: "says hi"
        regex: "^hi$"
        replies:
            - "hello"
            - "hi"
```
