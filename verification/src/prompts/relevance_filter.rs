//! Prompts for relevance classification of records.
//!
//! The wording sent to the classification source is its own concern;
//! what is verified here is the template substitution that builds each
//! request's user prompt.

use crate::text::replace_all;
use crate::text::replace_seq;
use vstd::prelude::*;

verus! {

/// The system prompt framing the classification task.
pub fn system_prompt() -> (r: &'static str) {
    "You are an academic literature relevance classifier. Your task is to determine if a paper is related to the target domain based ONLY on the provided fields (title/abstract/tldr/venue/journal/keywords).\n\nRules you MUST follow:\n- Do NOT fabricate abstract or paper content.\n- Evidence must come from input text; cite the exact keywords/phrases that triggered your judgment.\n- Output \"uncertain\" when unsure; do not guess.\n- Output MUST be valid JSON only (no extra text), for machine parsing.\n\nClassification criteria:\n- relevant: Title or abstract/tldr explicitly mentions core concepts, methods, data, or applications of the target domain.\n- irrelevant: Text clearly belongs to another topic with no explainable connection to the target domain.\n- uncertain: Insufficient information (e.g., no abstract/tldr) or only vague keyword matches without context support.\n\nImportant rules:\n- Evidence priority: abstract_text > tldr > title > venue/journal.\n- If abstract_text and tldr are both empty: use only title + venue/journal; output \"uncertain\" if unsure.\n- Do not mark \"relevant\" just because a word looks similar; there must be contextual support.\n- If both positive and negative signals exist, prefer \"uncertain\" and explain the conflict in reason.\n\nOutput format (strict JSON, no markdown):\n{\n  \"label\": \"relevant\" | \"irrelevant\" | \"uncertain\",\n  \"confidence\": 0.0-1.0,\n  \"evidence\": [\"keyword1\", \"keyword2\"],\n  \"reason\": \"Brief explanation in English\"\n}"
}

/// The user prompt template, with placeholders for the filter keywords
/// and the record's JSON form.
pub fn user_prompt_template() -> (r: &'static str)
    ensures
        r@ == user_prompt_template_text(),
{
    "Determine if the following paper is relevant to the target domain.\n\nTarget domain keywords/phrases:\n{filter_keywords}\n\nPaper data (JSON):\n{paper_json}\n\nOutput strict JSON only (no markdown code blocks, no extra text):\n{\n  \"label\": \"relevant\" | \"irrelevant\" | \"uncertain\",\n  \"confidence\": 0.0-1.0,\n  \"evidence\": [\"triggering keyword1\", \"keyword2\", ...],\n  \"reason\": \"Brief explanation\"\n}"
}

/// The template's text.
pub open spec fn user_prompt_template_text() -> Seq<char> {
    "Determine if the following paper is relevant to the target domain.\n\nTarget domain keywords/phrases:\n{filter_keywords}\n\nPaper data (JSON):\n{paper_json}\n\nOutput strict JSON only (no markdown code blocks, no extra text):\n{\n  \"label\": \"relevant\" | \"irrelevant\" | \"uncertain\",\n  \"confidence\": 0.0-1.0,\n  \"evidence\": [\"triggering keyword1\", \"keyword2\", ...],\n  \"reason\": \"Brief explanation\"\n}"@
}

/// Builds the user prompt for one record: the keyword placeholder is
/// substituted first, then the record placeholder, each replacing every
/// occurrence.
pub fn build_user_prompt(filter_keywords: &str, paper_json: &str) -> (r: String)
    ensures
        r@ == replace_seq(
            replace_seq(user_prompt_template_text(), "{filter_keywords}"@, filter_keywords@),
            "{paper_json}"@,
            paper_json@,
        ),
{
    proof {
        reveal_strlit("{filter_keywords}");
        reveal_strlit("{paper_json}");
    }
    let step = replace_all(user_prompt_template(), "{filter_keywords}", filter_keywords);
    replace_all(step.as_str(), "{paper_json}", paper_json)
}

} // verus!
