use hookpop::error::BAD_GATEWAY;
use hookpop::product::Product;
use hookpop::script::{
    check_script_bundle, correction_prompt, validate_script_claims, CreativeRounds, RoundStep,
    Scene, TiktokScript, SCRIPTS_REJECTED, SCRIPT_COUNT_WRONG,
};

fn product(title: &str, bullets: &[&str]) -> Product {
    Product {
        asin: "B08N5WRWNW".into(),
        marketplace: "com".into(),
        source_url: "https://www.amazon.com/dp/B08N5WRWNW".into(),
        title: title.into(),
        main_image_url: String::new(),
        bullet_points: bullets.iter().map(|b| b.to_string()).collect(),
    }
}

fn scene(visual: &str, narration: &str, overlay: Option<&str>) -> Scene {
    Scene {
        seconds: "0–3s".into(),
        visual: visual.into(),
        narration: narration.into(),
        chinese_translation: "翻译".into(),
        on_screen_text: overlay.map(String::from),
    }
}

fn script(hook: &str, voiceover: &str, caption: &str, hashtags: &[&str], scenes: Vec<Scene>) -> TiktokScript {
    TiktokScript {
        title: "t".into(),
        angle: "product_demo".into(),
        language: "en".into(),
        hook: hook.into(),
        voiceover: voiceover.into(),
        scenes,
        caption: caption.into(),
        hashtags: hashtags.iter().map(|h| h.to_string()).collect(),
        disclosure: "#ad".into(),
    }
}

fn clean_script() -> TiktokScript {
    script("Watch the zipper", "It opens wide.", "Simple bag", &["#bag"], vec![scene("hands open bag", "look inside", Some("roomy"))])
}

#[test]
fn clean_script_passes() {
    assert_eq!(validate_script_claims(&clean_script(), &product("Travel Bag", &["Water resistant"])), Ok(()));
}

#[test]
fn first_person_claim_is_rejected() {
    let s = script("I tested this bag", "It opens.", "c", &[], vec![]);
    assert_eq!(
        validate_script_claims(&s, &product("Travel Bag", &[])),
        Err("包含无法由产品资料证明的表述：i tested".to_string())
    );
}

#[test]
fn claim_in_product_facts_is_allowed() {
    let s = script("The Best bag", "x", "y", &[], vec![]);
    assert!(validate_script_claims(&s, &product("Travel Bag", &["The best seller in travel"])).is_ok());
    assert_eq!(
        validate_script_claims(&s, &product("Travel Bag", &[])),
        Err("包含无法由产品资料证明的表述：the best".to_string())
    );
}

#[test]
fn phrases_are_checked_in_list_order() {
    let s = script("It went viral, guaranteed", "", "", &[], vec![]);
    assert_eq!(
        validate_script_claims(&s, &product("Bag", &[])),
        Err("包含无法由产品资料证明的表述：guaranteed".to_string())
    );
}

#[test]
fn scenes_and_hashtags_are_checked() {
    let s = script("x", "y", "z", &["#viral"], vec![]);
    assert_eq!(validate_script_claims(&s, &product("Bag", &[])), Err("包含无法由产品资料证明的表述：viral".to_string()));
    let s = script("x", "y", "z", &[], vec![scene("a", "b", Some("Me encanta"))]);
    assert_eq!(validate_script_claims(&s, &product("Bolsa", &[])), Err("包含无法由产品资料证明的表述：me encanta".to_string()));
    let s = script("x", "y", "z", &[], vec![scene("a", "LO PROBÉ hoy", None)]);
    assert_eq!(validate_script_claims(&s, &product("Bolsa", &[])), Err("包含无法由产品资料证明的表述：lo probé".to_string()));
}

#[test]
fn bundle_needs_three_scripts() {
    let p = product("Bag", &[]);
    assert_eq!(check_script_bundle(&vec![clean_script(), clean_script()], &p), Err(SCRIPT_COUNT_WRONG.to_string()));
    assert_eq!(check_script_bundle(&vec![clean_script(), clean_script(), clean_script()], &p), Ok(()));
    let bad = script("my favorite bag", "", "", &[], vec![]);
    assert_eq!(
        check_script_bundle(&vec![clean_script(), bad, clean_script()], &p),
        Err("包含无法由产品资料证明的表述：my favorite".to_string())
    );
}

#[test]
fn correction_prompt_names_the_reason() {
    assert_eq!(
        correction_prompt("BASE", "use viral"),
        "BASE\n\nMANDATORY CORRECTION: The previous scripts failed the factual quality gate because they use viral. Rewrite all three scripts. Replace personal-experience language with neutral, observable product demonstration language. Return only the corrected JSON object."
    );
}

#[test]
fn rounds_give_up_after_three_failures() {
    let mut rounds = CreativeRounds::new("BASE".to_string());
    assert_eq!(rounds.prompt, "BASE");
    assert!(matches!(rounds.record(Err("a".into())), RoundStep::Retry));
    assert_eq!(rounds.prompt, correction_prompt("BASE", "a"));
    assert!(matches!(rounds.record(Err("b".into())), RoundStep::Retry));
    assert_eq!(rounds.prompt, correction_prompt("BASE", "b"));
    match rounds.record(Err("c".into())) {
        RoundStep::GiveUp(e) => {
            assert_eq!(e.status, BAD_GATEWAY);
            assert_eq!(e.message, SCRIPTS_REJECTED);
        }
        _ => panic!("expected to give up"),
    }
    assert_eq!(rounds.failed, 3);
}

#[test]
fn passing_bundle_is_accepted() {
    let mut rounds = CreativeRounds::new("BASE".to_string());
    assert!(matches!(rounds.record(Err("a".into())), RoundStep::Retry));
    assert!(matches!(rounds.record(Ok(())), RoundStep::Accept));
    assert_eq!(rounds.failed, 1);
}

#[test]
fn more_facts_keep_a_script_passing() {
    let s = script("The best bag", "x", "y", &[], vec![]);
    let p = product("Travel Bag", &["The best seller"]);
    assert!(validate_script_claims(&s, &p).is_ok());
    let p2 = product("Travel Bag", &["The best seller", "Water resistant", "I love it"]);
    assert!(validate_script_claims(&s, &p2).is_ok());
}
