use hookpop::prompt::{
    build_analysis_prompt, build_bundle_prompt, default_goal, goal_label, language_label,
    tone_label, Language, Tone, ANALYSIS_PROMPT_HEAD,
};

#[test]
fn defaults() {
    assert_eq!(default_goal(), "conversion");
    assert!(matches!(Tone::default(), Tone::Ugc));
}

#[test]
fn labels() {
    assert_eq!(language_label(Language::En), "English");
    assert_eq!(language_label(Language::Es), "Spanish (neutral Latin American)");
    assert_eq!(tone_label(Tone::Energetic), "energetic");
    assert_eq!(tone_label(Tone::Ugc), "natural creator-style");
    assert_eq!(tone_label(Tone::Premium), "clean premium");
    assert_eq!(goal_label("organic"), "organic engagement and saves");
    assert_eq!(goal_label("awareness"), "product awareness");
    assert_eq!(goal_label("conversion"), "product clicks and conversion");
    assert_eq!(goal_label("anything"), "product clicks and conversion");
}

#[test]
fn analysis_prompt_ends_with_product() {
    let p = build_analysis_prompt("{\"asin\":\"B0\"}");
    assert!(p.starts_with("Analyze the Amazon title and bullet points below"));
    assert!(p.contains("Return ONLY one valid JSON object with exactly this schema:\n{\n  \"product_summary\""));
    assert!(p.ends_with("Source product JSON:\n{\"asin\":\"B0\"}"));
    assert_eq!(p, format!("{ANALYSIS_PROMPT_HEAD}{{\"asin\":\"B0\"}}"));
}

#[test]
fn bundle_prompt_fills_its_parts() {
    let p = build_bundle_prompt("PRODUCT", "INSIGHTS", Language::Es, Tone::Premium, "awareness");
    assert!(p.starts_with("Create exactly three distinctly different, ready-to-film TikTok product scripts in Spanish (neutral Latin American). The tone is clean premium; the goal is product awareness. Each script should run 25–35 seconds."));
    assert!(p.contains("{\"scripts\":[{\n  \"title\""));
    assert!(p.ends_with("Original product facts:\nPRODUCT\n\nStructured creative analysis:\nINSIGHTS"));
}

