# qwen2api

The core of a gateway that offers a chat service under the OpenAI, Anthropic and Gemini
protocols, written in Rust and verified with Verus.

- `src/` is the verified library.
  - `executor`, `stream_model`, `stream_laws`, `body_laws`: a streamed request as a state machine:
    accounts, retries, conversations and their cleanup; and what holds of every run.
  - `framing`: cutting the bytes of an answer into messages.
  - `retry`: what an upstream error says of the account that met it.
  - `stats`, `dashboard`, `percentile`: the queue of request records and the statistics page.
  - `refresh`: which accounts sign in again before their tokens run out.
  - `util`, `calendar`, `text`: token expiry, clock readings, identifiers, dates, text.
  - `outside`: what is believed of other crates and of `std`, without proof.
- `tests/` runs the library on concrete values.
- `app/` is ordinary Rust around the library: the database, JSON, the asynchronous driver, the
  workers and the routes.
