//! The two prompts of the generation flow: the product analysis, and the bundle of three
//! scripts in the requested language, tone and goal.

use vstd::prelude::*;
use crate::text::text_eq;

verus! {

/// The language of the scripts.
#[derive(Clone, Copy, Debug)]
pub enum Language {
    En,
    Es,
}

/// The tone of the scripts.
#[derive(Clone, Copy, Debug)]
pub enum Tone {
    Energetic,
    Ugc,
    Premium,
}

impl Default for Tone {
    /// Natural creator style.
    fn default() -> (r: Self)
        ensures
            r == Tone::Ugc,
    {
        Tone::Ugc
    }
}

/// The goal of a request that names none.
pub fn default_goal() -> (r: String)
    ensures
        r@ == "conversion"@,
{
    String::from_str("conversion")
}

/// How the prompt names a language.
pub open spec fn language_label_spec(language: Language) -> Seq<char> {
    match language {
        Language::En => "English"@,
        Language::Es => "Spanish (neutral Latin American)"@,
    }
}

/// How the prompt names a language.
pub fn language_label(language: Language) -> (r: &'static str)
    ensures
        r@ == language_label_spec(language),
{
    match language {
        Language::En => "English",
        Language::Es => "Spanish (neutral Latin American)",
    }
}

/// How the prompt names a tone.
pub open spec fn tone_label_spec(tone: Tone) -> Seq<char> {
    match tone {
        Tone::Energetic => "energetic"@,
        Tone::Ugc => "natural creator-style"@,
        Tone::Premium => "clean premium"@,
    }
}

/// How the prompt names a tone.
pub fn tone_label(tone: Tone) -> (r: &'static str)
    ensures
        r@ == tone_label_spec(tone),
{
    match tone {
        Tone::Energetic => "energetic",
        Tone::Ugc => "natural creator-style",
        Tone::Premium => "clean premium",
    }
}

/// How the prompt names a goal: the two known goals by their aim, any other as conversion.
pub open spec fn goal_label_spec(goal: Seq<char>) -> Seq<char> {
    if goal == "organic"@ {
        "organic engagement and saves"@
    } else if goal == "awareness"@ {
        "product awareness"@
    } else {
        "product clicks and conversion"@
    }
}

/// How the prompt names a goal.
pub fn goal_label(goal: &str) -> (r: &'static str)
    ensures
        r@ == goal_label_spec(goal@),
{
    if text_eq(goal, "organic") {
        "organic engagement and saves"
    } else if text_eq(goal, "awareness") {
        "product awareness"
    } else {
        "product clicks and conversion"
    }
}

/// The system prompt of the script generation.
pub const SYSTEM_PROMPT: &'static str = r#"You are a direct-response TikTok UGC creative strategist for e-commerce products. Write product scripts that sound like a real creator, not a polished advertisement. Accuracy is mandatory: if a claim is absent from the supplied product facts, omit it. Never invent medical, financial, legal, safety, environmental, performance, or comparative claims. Return strict JSON only, without markdown or explanation."#;

/// The system prompt of the product analysis.
pub const ANALYSIS_SYSTEM_PROMPT: &'static str = r#"You are a product positioning strategist. Your job is to transform sparse e-commerce listing facts into a structured creative brief while keeping facts and inferences visibly separate. Never fill missing product information with assumptions. Return strict JSON only, without markdown or explanation."#;

/// The analysis prompt, up to the product facts that follow it.
pub const ANALYSIS_PROMPT_HEAD: &'static str = r#"Analyze the Amazon title and bullet points below before any video script is written. Separate source facts from marketing inferences. Write the analysis fields in concise Simplified Chinese.

Return ONLY one valid JSON object with exactly this schema:
{
  "product_summary": "one-sentence factual positioning",
  "core_selling_points": [
    {"feature":"source-grounded feature", "customer_value":"careful consumer value inference", "evidence":"exact or close paraphrase from source", "confidence":"high|medium|low"}
  ],
  "target_segments": [
    {"segment":"possible audience", "need":"relevant need", "rationale":"why the facts may fit", "confidence":"high|medium|low"}
  ],
  "content_angles": [
    {"name":"short angle name", "insight":"the consumer tension", "hook_direction":"a hook strategy, not final copy", "supporting_features":["features that substantiate this angle"]}
  ],
  "claim_boundaries": ["claims the later script must not make"]
}

Requirements:
- Return 3–5 core selling points, 2–4 possible audience segments, and exactly 3 materially different content angles.
- Evidence must be traceable to the supplied title or bullets. Never treat an inferred benefit, audience, or use case as a product fact.
- Do not invent price, discount, materials, dimensions, ingredients, compatibility, certification, performance, reviews, popularity, safety, or results.
- Add ambiguous, exaggerated, or unsupported claims to claim_boundaries.

Source product JSON:
"#;

/// Opening of the bundle prompt, up to the language.
pub const BUNDLE_PROMPT_INTRO: &'static str = r#"Create exactly three distinctly different, ready-to-film TikTok product scripts in "#;

/// Between the language and the tone.
pub const BUNDLE_PROMPT_TONE: &'static str = r#". The tone is "#;

/// Between the tone and the goal.
pub const BUNDLE_PROMPT_GOAL: &'static str = r#"; the goal is "#;

/// Between the goal and the product facts: directions, schema and creative rules.
pub const BUNDLE_PROMPT_RULES: &'static str = r#". Each script should run 25–35 seconds.

The three creative directions are:
1. relatable_problem — open on a recognizable frustration and resolve it with source-grounded features.
2. product_demo — open mid-demonstration and let observable product details carry the story.
3. quick_discovery — a concise creator-style discovery focused on one specific useful detail, without claiming personal use or endorsement.

Return ONLY this JSON object:
{"scripts":[{
  "title":"short human-readable concept title",
  "angle":"relatable_problem|product_demo|quick_discovery",
  "language":"en|es",
  "hook":"spoken opening, maximum 14 words",
  "voiceover":"complete natural spoken script",
  "scenes":[
    {"seconds":"0–3s","visual":"simple phone-filmable action","narration":"spoken line","chinese_translation":"accurate Simplified Chinese translation of narration","on_screen_text":"short complementary overlay"},
    {"seconds":"3–10s","visual":"...","narration":"...","chinese_translation":"...","on_screen_text":"..."},
    {"seconds":"10–22s","visual":"...","narration":"...","chinese_translation":"...","on_screen_text":"..."},
    {"seconds":"22–30s","visual":"...","narration":"...","chinese_translation":"...","on_screen_text":"..."}
  ],
  "caption":"one conversational caption",
  "hashtags":["3–5 specific relevant tags"],
  "disclosure":"short affiliate or sponsorship disclosure reminder"
}]}

Creative rules:
- The opening visual, spoken hook, and overlay must add three complementary pieces of information.
- Keep every shot achievable by one person with a phone and the product. Avoid production jargon.
- Write like a creator talking to one person: short lines, specific language, no corporate copy.
- Use ONLY the original product facts for factual claims. The analysis may guide framing but cannot add facts.
- Never claim personal ownership, testing, use, preference, endorsement, or results.
- Never invent use cases, price, discount, material, dimensions, ingredients, compatibility, certification, performance, popularity, comparison, safety, or results.
- Respect every claim boundary in the analysis. Do not say viral, best, perfect, guaranteed, life-changing, or use #fyp/#viral.
- For Spanish, write native neutral Latin-American creator copy rather than translating English literally.
- chinese_translation must faithfully translate each narration line into natural Simplified Chinese without adding claims.

Original product facts:
"#;

/// Between the product facts and the creative analysis.
pub const BUNDLE_PROMPT_ANALYSIS: &'static str = r#"

Structured creative analysis:
"#;

/// The analysis prompt for a product given as JSON.
pub fn build_analysis_prompt(product_json: &str) -> (r: String)
    ensures
        r@ == ANALYSIS_PROMPT_HEAD@ + product_json@,
{
    let mut r = String::from_str(ANALYSIS_PROMPT_HEAD);
    r.append(product_json);
    r
}

/// The bundle prompt with its parts filled in.
pub open spec fn bundle_prompt_spec(
    product_json: Seq<char>,
    insights_json: Seq<char>,
    language: Language,
    tone: Tone,
    goal: Seq<char>,
) -> Seq<char> {
    BUNDLE_PROMPT_INTRO@ + language_label_spec(language) + BUNDLE_PROMPT_TONE@ + tone_label_spec(
        tone,
    ) + BUNDLE_PROMPT_GOAL@ + goal_label_spec(goal) + BUNDLE_PROMPT_RULES@ + product_json
        + BUNDLE_PROMPT_ANALYSIS@ + insights_json
}

/// The prompt for a bundle of three scripts from the product facts and the creative analysis
/// (both as JSON), in the given language, tone and goal.
pub fn build_bundle_prompt(
    product_json: &str,
    insights_json: &str,
    language: Language,
    tone: Tone,
    goal: &str,
) -> (r: String)
    ensures
        r@ == bundle_prompt_spec(product_json@, insights_json@, language, tone, goal@),
{
    let mut r = String::from_str(BUNDLE_PROMPT_INTRO);
    r.append(language_label(language));
    r.append(BUNDLE_PROMPT_TONE);
    r.append(tone_label(tone));
    r.append(BUNDLE_PROMPT_GOAL);
    r.append(goal_label(goal));
    r.append(BUNDLE_PROMPT_RULES);
    r.append(product_json);
    r.append(BUNDLE_PROMPT_ANALYSIS);
    r.append(insights_json);
    r
}

} // verus!
