# KostubetAI

The core of a Telegram assistant backed by a language model, written in Verus:
every function of the library states what it returns or changes, and Verus
proves it.

- `src/` is the library. It decides; it does no input or output.
  - `bot/` and `handlers/`: what to do about a command, a button, a message or a
    file, for the bot of groups and for the assistant with guides.
  - `storage`, `db/` and `memory`: the history of dialogues and chats, the states
    of participants, guides, settings, budgets and limits.
  - `llm/`: requests to the model, streamed answers, retries and prompts.
  - `knowledge/`: the cards of the knowledge base and the search in them.
  - `config`, `commands`, `telegram`, `text`, `utils/`: configuration, the form of
    commands, messages as plain values, and the splitting and cleaning of texts.
  - `strings`, `sort`, `rows`, `limits`, `json`, `clock`: what the rest is built on.
- `tests/` runs the library on concrete values.
- `app/` is the program around it: the messenger, the databases, the network and
  the environment. It hands plain values to the library and carries out what the
  library decides.

Proof functions whose names start with `law_` state what holds of the library as a
whole: that dialogues do not mix, that limits and budgets are kept, that what is
written reads back, that splitting a text loses nothing but white space.

What the library takes from outside and does not prove stands behind a few
functions whose comments say what is claimed: the stemmer (`rust_stemmers`), the
JSON parser (`serde_json`), the clock and some functions on texts of the standard
library.

A change is written to the database first and made in the memory after that, as far
as the write went through: `handlers/writes` says what a command writes, and the
command then takes the errors that the writes ended with.

`takecell` is named in `Cargo.toml` only to hold it at 0.1.1: `teloxide` depends on
it, and 0.1.2 does not build with Rust 1.95.
