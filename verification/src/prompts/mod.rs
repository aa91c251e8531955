//! Prompt templates for the classification source.

pub mod relevance_filter;
