# mohe

The core of 墨衡, a desktop tool for writing long novels with a language
model: the records of a book, the tokenizer and search candidates, the
assembly of the prompt context under a budget, the prompts themselves, the
reading of the model's answers, and the demo book. All of it is verified
with Verus (`src/`).

- `src/models.rs` – the records and settings.
- `src/text.rs` – character-level string operations with their specs.
- `src/retrieval.rs` – tokenizer, name boosts, search documents and candidates.
- `src/score.rs`, `src/order.rs` – order keys of scores, stable sorting, ranking.
- `src/prompt.rs`, `src/texts.rs` – context assembly and prompt text.
- `src/json.rs`, `src/llm.rs`, `src/generation.rs` – model answers, stream lines, follow-ups.
- `src/records.rs`, `src/seed.rs` – stamping records, the demo book.

`app/` holds the I/O around the library: the SQLite store, the HTTP calls
to the model service, the floating-point search score, and the commands.
