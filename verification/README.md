# hookpop

The verified core of HookPop, a service that turns an Amazon product link or ASIN into
product facts (through the Keepa Product API) and then into three TikTok scripts written by a
language model and checked against those facts.

- `src/` is the library, verified with Verus:
  - `marketplace.rs`: normalizing a link or ASIN, and the marketplaces Keepa serves;
  - `keepa.rs`: cleaning Keepa text, mapping a Keepa reply to a product, the request and
    cache rules;
  - `script.rs`: the factual quality gate on scripts and the bounded regeneration of a bundle;
  - `llm.rs`: the model endpoint, the bounded retry of a request, and extracting JSON text;
  - `prompt.rs`: the analysis and bundle prompts;
  - `config.rs`: reading secrets and the Keepa key file;
  - `error.rs`, `product.rs`, `text.rs`: the error type, the product type, text utilities.
- `app/main.rs` is the Axum service around it: configuration, HTTP, JSON (de)serialization.
- `tests/` exercises the library on concrete values.
