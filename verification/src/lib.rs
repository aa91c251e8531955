//! Multi-source bibliographic metadata aggregation engine.
//!
//! The crate gathers candidate records for a search keyword from several
//! rate-limited external sources, enriches them with per-source metadata,
//! filters them by journal-ranking criteria, and fuses the per-source
//! records into one canonical record per work.  The decision logic —
//! retry/backoff state machines, the memoizing rate gate, batch chunking,
//! declarative filters, and the DOI-keyed fusion rules — lives here with
//! machine-checked contracts; network and file I/O drivers live outside.

pub mod cookies;
pub mod crossref;
pub mod decimal;
pub mod error;
pub mod kv;
pub mod gscholar;
pub mod llm_filter;
pub mod openalex;
pub mod pipeline;
pub mod prompts;
pub mod rankings;
pub mod retry;
pub mod semanticscholar;
pub mod text;
pub mod unified;
