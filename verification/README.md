# goose_session

Session bookkeeping for an agent CLI, verified with Verus.

- `src/pr_status.rs` — GitHub pull-request links in text and conversations,
  and the session status a PR state stands for.
- `src/mentions.rs` — the "last mention goes last" fold behind the PR lists,
  with its laws (no duplicates, same items, order of last mention,
  idempotence, folding in parts).
- `src/conversation.rs` — the text-carrying parts of a conversation.
- `src/session.rs` — session statuses, timestamps and their UTC text, listing order, lookups by
  name and by id pattern.
- `src/commands.rs` — the texts and decisions of the session commands.
- `src/text.rs` — whitespace trimming, ASCII case folding, decimal numbers,
  truncation and substring search.
- `app/` — the command handlers: prompts, printing, files, `gh`, and a
  session-store trait.
