//! TikTok scripts and the factual quality gate that they must pass before they are returned.

use vstd::prelude::*;
use crate::error::{ApiError, BAD_GATEWAY};
use crate::product::Product;
use crate::text::{
    chars_of, contains_chars, contains_spec, join, join_strings, strings_view,
    to_lowercase_text, unicode_lowercase, is_prefix, is_ascii_text, ascii_lower_text,
    lemma_contains_extends, lemma_join_prefix,
};

verus! {

/// One shot of a script.
pub struct Scene {
    pub seconds: String,
    pub visual: String,
    pub narration: String,
    pub chinese_translation: String,
    pub on_screen_text: Option<String>,
}

/// A ready-to-film TikTok script.
pub struct TiktokScript {
    pub title: String,
    pub angle: String,
    pub language: String,
    pub hook: String,
    pub voiceover: String,
    pub scenes: Vec<Scene>,
    pub caption: String,
    pub hashtags: Vec<String>,
    pub disclosure: String,
}

/// The number of phrases that a script may only use when the product facts use them too.
pub const UNSUPPORTED_PHRASE_COUNT: usize = 20;

/// The phrases that claim personal experience, endorsement or results, by index.
pub open spec fn unsupported_phrase(i: int) -> Seq<char> {
    if i == 0 {
        "i tested"@
    } else if i == 1 {
        "i've tested"@
    } else if i == 2 {
        "i tried"@
    } else if i == 3 {
        "i've tried"@
    } else if i == 4 {
        "i use"@
    } else if i == 5 {
        "i take it"@
    } else if i == 6 {
        "i love"@
    } else if i == 7 {
        "my favorite"@
    } else if i == 8 {
        "life-changing"@
    } else if i == 9 {
        "life changing"@
    } else if i == 10 {
        "guaranteed"@
    } else if i == 11 {
        "viral"@
    } else if i == 12 {
        "the best"@
    } else if i == 13 {
        "lo probé"@
    } else if i == 14 {
        "he probado"@
    } else if i == 15 {
        "lo uso"@
    } else if i == 16 {
        "me encanta"@
    } else if i == 17 {
        "mi favorito"@
    } else if i == 18 {
        "garantizado"@
    } else {
        "viral"@
    }
}

fn unsupported_phrase_exec(i: usize) -> (r: &'static str)
    requires
        i < UNSUPPORTED_PHRASE_COUNT,
    ensures
        r@ == unsupported_phrase(i as int),
{
    if i == 0 {
        "i tested"
    } else if i == 1 {
        "i've tested"
    } else if i == 2 {
        "i tried"
    } else if i == 3 {
        "i've tried"
    } else if i == 4 {
        "i use"
    } else if i == 5 {
        "i take it"
    } else if i == 6 {
        "i love"
    } else if i == 7 {
        "my favorite"
    } else if i == 8 {
        "life-changing"
    } else if i == 9 {
        "life changing"
    } else if i == 10 {
        "guaranteed"
    } else if i == 11 {
        "viral"
    } else if i == 12 {
        "the best"
    } else if i == 13 {
        "lo probé"
    } else if i == 14 {
        "he probado"
    } else if i == 15 {
        "lo uso"
    } else if i == 16 {
        "me encanta"
    } else if i == 17 {
        "mi favorito"
    } else if i == 18 {
        "garantizado"
    } else {
        "viral"
    }
}

/// The product facts that claims are checked against: title and bullet points, lowercased.
pub open spec fn claim_source(p: Product) -> Seq<char> {
    unicode_lowercase(claim_source_text(p))
}

/// The product facts as one text: the title and the bullet points, separated by spaces.
pub open spec fn claim_source_text(p: Product) -> Seq<char> {
    p.title@ + " "@ + join(strings_view(p.bullet_points@), " "@)
}

/// The text of a scene that a viewer sees or hears: visual, narration and overlay.
pub open spec fn scene_text(sc: Scene) -> Seq<char> {
    sc.visual@ + " "@ + sc.narration@ + " "@ + match sc.on_screen_text {
        Some(t) => t@,
        None => seq![],
    }
}

/// The texts of the scenes, in order.
pub open spec fn scene_texts(scenes: Seq<Scene>) -> Seq<Seq<char>> {
    scenes.map_values(|sc: Scene| scene_text(sc))
}

/// Everything a script says, lowercased: hook, voiceover, caption, hashtags and scenes.
pub open spec fn claim_output(s: TiktokScript) -> Seq<char> {
    unicode_lowercase(
        s.hook@ + " "@ + s.voiceover@ + " "@ + s.caption@ + " "@ + join(
            strings_view(s.hashtags@),
            " "@,
        ) + " "@ + join(scene_texts(s.scenes@), " "@),
    )
}

/// The first phrase, from index `i` on, that the output uses and the source does not.
pub open spec fn first_unsupported_from(output: Seq<char>, source: Seq<char>, i: int) -> Option<
    int,
>
    decreases UNSUPPORTED_PHRASE_COUNT - i,
{
    if i < 0 || i >= UNSUPPORTED_PHRASE_COUNT {
        None
    } else if contains_spec(output, unsupported_phrase(i)) && !contains_spec(
        source,
        unsupported_phrase(i),
    ) {
        Some(i)
    } else {
        first_unsupported_from(output, source, i + 1)
    }
}

/// The message for a script that uses an unsupported phrase.
pub open spec fn unsupported_claim_message(phrase: Seq<char>) -> Seq<char> {
    "包含无法由产品资料证明的表述："@ + phrase
}

/// The verdict of the quality gate on one script: `None` when the script passes, else the
/// reason for the first unsupported phrase that it uses.
pub open spec fn script_claim_verdict(s: TiktokScript, p: Product) -> Option<Seq<char>> {
    match first_unsupported_from(claim_output(s), claim_source(p), 0) {
        Some(i) => Some(unsupported_claim_message(unsupported_phrase(i))),
        None => None,
    }
}

proof fn lemma_first_unsupported_from(output: Seq<char>, source: Seq<char>, i: int)
    ensures
        first_unsupported_from(output, source, i) matches Some(k) ==> {
            &&& i <= k < UNSUPPORTED_PHRASE_COUNT
            &&& contains_spec(output, unsupported_phrase(k))
            &&& !contains_spec(source, unsupported_phrase(k))
        },
    decreases UNSUPPORTED_PHRASE_COUNT - i,
{
    if !(i < 0 || i >= UNSUPPORTED_PHRASE_COUNT) && !(contains_spec(output, unsupported_phrase(i))
        && !contains_spec(source, unsupported_phrase(i))) {
        lemma_first_unsupported_from(output, source, i + 1);
    }
}

/// The quality gate rejects a script only for a listed phrase that the script says and the
/// product facts do not; a script that says none of the listed phrases always passes.
pub proof fn rejection_names_an_unsupported_phrase(s: TiktokScript, p: Product)
    ensures
        script_claim_verdict(s, p) matches Some(m) ==> exists|k: int|
            0 <= k < UNSUPPORTED_PHRASE_COUNT && m == unsupported_claim_message(
                #[trigger] unsupported_phrase(k),
            ) && contains_spec(claim_output(s), unsupported_phrase(k)) && !contains_spec(
                claim_source(p),
                unsupported_phrase(k),
            ),
        (forall|k: int|
            0 <= k < UNSUPPORTED_PHRASE_COUNT ==> !contains_spec(
                claim_output(s),
                #[trigger] unsupported_phrase(k),
            )) ==> script_claim_verdict(s, p) is None,
{
    lemma_first_unsupported_from(claim_output(s), claim_source(p), 0);
    if let Some(k) = first_unsupported_from(claim_output(s), claim_source(p), 0) {
        assert(unsupported_phrase(k) == unsupported_phrase(k));
    }
}

proof fn lemma_first_unsupported_none(output: Seq<char>, source: Seq<char>, i: int)
    requires
        0 <= i <= UNSUPPORTED_PHRASE_COUNT,
    ensures
        first_unsupported_from(output, source, i) is None <==> forall|k: int|
            i <= k < UNSUPPORTED_PHRASE_COUNT ==> !(contains_spec(
                output,
                #[trigger] unsupported_phrase(k),
            ) && !contains_spec(source, unsupported_phrase(k))),
    decreases UNSUPPORTED_PHRASE_COUNT - i,
{
    if i < UNSUPPORTED_PHRASE_COUNT {
        lemma_first_unsupported_none(output, source, i + 1);
    }
}

/// Adding bullet points to the product facts never makes a passing script fail, for product
/// facts written in ASCII.
pub proof fn more_facts_keep_a_script_passing(s: TiktokScript, p: Product, p2: Product)
    requires
        script_claim_verdict(s, p) is None,
        p2.title@ == p.title@,
        is_prefix(strings_view(p.bullet_points@), strings_view(p2.bullet_points@)),
        is_ascii_text(claim_source_text(p2)),
    ensures
        script_claim_verdict(s, p2) is None,
{
    let t1 = claim_source_text(p);
    let t2 = claim_source_text(p2);
    let j1 = join(strings_view(p.bullet_points@), " "@);
    let j2 = join(strings_view(p2.bullet_points@), " "@);
    lemma_join_prefix(strings_view(p.bullet_points@), strings_view(p2.bullet_points@), " "@);
    let head = p.title@ + " "@;
    assert(t1 == head + j1);
    assert(t2 == head + j2);
    assert(t2.take(t1.len() as int) =~= t1) by {
        assert forall|k: int| 0 <= k < t1.len() implies #[trigger] t2.take(t1.len() as int)[k] == t1[k] by {
            if k >= head.len() {
                assert(j2.take(j1.len() as int)[k - head.len()] == j1[k - head.len()]);
            }
        }
    }
    assert(is_ascii_text(t1)) by {
        assert forall|k: int| 0 <= k < t1.len() implies (#[trigger] t1[k] as u32) < 0x80 by {
            assert(t1[k] == t2[k]);
        }
    }
    let l1 = claim_source(p);
    let l2 = claim_source(p2);
    assert(l1 == ascii_lower_text(t1));
    assert(l2 == ascii_lower_text(t2));
    assert(is_prefix(l1, l2)) by {
        assert(l2.take(l1.len() as int) =~= l1) by {
            assert forall|k: int| 0 <= k < l1.len() implies #[trigger] l2.take(l1.len() as int)[k] == l1[k] by {
                assert(t2[k] == t1[k]);
            }
        }
    }
    let out = claim_output(s);
    lemma_first_unsupported_none(out, l1, 0);
    lemma_first_unsupported_none(out, l2, 0);
    assert forall|k: int| 0 <= k < UNSUPPORTED_PHRASE_COUNT implies !(contains_spec(
        out,
        #[trigger] unsupported_phrase(k),
    ) && !contains_spec(l2, unsupported_phrase(k))) by {
        if contains_spec(out, unsupported_phrase(k)) {
            assert(contains_spec(l1, unsupported_phrase(k)));
            lemma_contains_extends(l1, l2, unsupported_phrase(k));
        }
    }
}

fn scene_texts_exec(scenes: &Vec<Scene>) -> (r: Vec<String>)
    ensures
        strings_view(r@) == scene_texts(scenes@),
{
    let mut r: Vec<String> = Vec::new();
    let mut i: usize = 0;
    while i < scenes.len()
        invariant
            i <= scenes@.len(),
            strings_view(r@) == scene_texts(scenes@).take(i as int),
        decreases scenes.len() - i,
    {
        let sc = &scenes[i];
        let mut t = sc.visual.clone();
        t.append(" ");
        t.append(sc.narration.as_str());
        t.append(" ");
        match &sc.on_screen_text {
            Some(o) => t.append(o.as_str()),
            None => {},
        }
        let ghost before = r@;
        let ghost tv = t@;
        assert(tv =~= scene_text(scenes@[i as int]));
        r.push(t);
        assert(strings_view(r@) =~= strings_view(before).push(tv));
        i = i + 1;
        assert(strings_view(r@) =~= scene_texts(scenes@).take(i as int));
    }
    assert(scene_texts(scenes@).take(scenes@.len() as int) =~= scene_texts(scenes@));
    r
}

/// Checks a script against the product facts: `Err` with the reason for the first listed
/// phrase that the script uses (in any case) while the title and bullet points do not; `Ok`
/// when there is none.
pub fn validate_script_claims(script: &TiktokScript, product: &Product) -> (r: Result<(), String>)
    ensures
        r is Ok <==> script_claim_verdict(*script, *product) is None,
        r matches Err(m) ==> script_claim_verdict(*script, *product) == Some(m@),
{
    let mut source = product.title.clone();
    source.append(" ");
    let bullets = join_strings(&product.bullet_points, " ");
    source.append(bullets.as_str());
    let source = to_lowercase_text(source.as_str());

    let mut output = script.hook.clone();
    output.append(" ");
    output.append(script.voiceover.as_str());
    output.append(" ");
    output.append(script.caption.as_str());
    output.append(" ");
    let tags = join_strings(&script.hashtags, " ");
    output.append(tags.as_str());
    output.append(" ");
    let scenes = scene_texts_exec(&script.scenes);
    let scene_part = join_strings(&scenes, " ");
    output.append(scene_part.as_str());
    let output = to_lowercase_text(output.as_str());

    let out_chars = chars_of(output.as_str());
    let src_chars = chars_of(source.as_str());
    let mut i: usize = 0;
    while i < UNSUPPORTED_PHRASE_COUNT
        invariant
            i <= UNSUPPORTED_PHRASE_COUNT,
            out_chars@ == claim_output(*script),
            src_chars@ == claim_source(*product),
            first_unsupported_from(out_chars@, src_chars@, 0) == first_unsupported_from(
                out_chars@,
                src_chars@,
                i as int,
            ),
        decreases UNSUPPORTED_PHRASE_COUNT - i,
    {
        let phrase = unsupported_phrase_exec(i);
        let pc = chars_of(phrase);
        if contains_chars(out_chars.as_slice(), pc.as_slice()) && !contains_chars(
            src_chars.as_slice(),
            pc.as_slice(),
        ) {
            let mut m = String::from_str("包含无法由产品资料证明的表述：");
            m.append(phrase);
            return Err(m);
        }
        i = i + 1;
    }
    Ok(())
}


/// A bundle that does not hold exactly three scripts.
pub const SCRIPT_COUNT_WRONG: &'static str = "没有返回三个完整的创意方向";

/// Every regeneration of the bundle failed the quality gate.
pub const SCRIPTS_REJECTED: &'static str = "脚本没有通过事实校验，请重新生成一组。";

/// The number of scripts in a bundle.
pub const BUNDLE_SIZE: usize = 3;

/// How many bundles are generated at most for one request.
pub const SCRIPT_ROUNDS: u32 = 3;

/// The verdict on the first script, from index `i` on, that fails the quality gate.
pub open spec fn first_script_error(scripts: Seq<TiktokScript>, p: Product, i: int) -> Option<
    Seq<char>,
>
    decreases scripts.len() - i,
{
    if i < 0 || i >= scripts.len() {
        None
    } else {
        match script_claim_verdict(scripts[i], p) {
            Some(m) => Some(m),
            None => first_script_error(scripts, p, i + 1),
        }
    }
}

/// The verdict on a generated bundle: `None` when it holds three scripts that all pass the
/// quality gate; else the reason, the wrong count first, then the first failing script's.
pub open spec fn bundle_verdict(scripts: Seq<TiktokScript>, p: Product) -> Option<Seq<char>> {
    if scripts.len() != BUNDLE_SIZE {
        Some(SCRIPT_COUNT_WRONG@)
    } else {
        first_script_error(scripts, p, 0)
    }
}

/// Checks a generated bundle: exactly three scripts, each passing `validate_script_claims`.
pub fn check_script_bundle(scripts: &Vec<TiktokScript>, product: &Product) -> (r: Result<
    (),
    String,
>)
    ensures
        r is Ok <==> bundle_verdict(scripts@, *product) is None,
        r matches Err(m) ==> bundle_verdict(scripts@, *product) == Some(m@),
{
    if scripts.len() != BUNDLE_SIZE {
        return Err(String::from_str(SCRIPT_COUNT_WRONG));
    }
    let mut i: usize = 0;
    while i < scripts.len()
        invariant
            i <= scripts@.len(),
            scripts@.len() == BUNDLE_SIZE,
            first_script_error(scripts@, *product, 0) == first_script_error(
                scripts@,
                *product,
                i as int,
            ),
        decreases scripts.len() - i,
    {
        match validate_script_claims(&scripts[i], product) {
            Err(m) => {
                return Err(m);
            },
            Ok(()) => {},
        }
        i = i + 1;
    }
    Ok(())
}

/// The prompt that asks for a corrected bundle after `error`.
pub open spec fn correction_prompt_spec(base: Seq<char>, error: Seq<char>) -> Seq<char> {
    base
        + "\n\nMANDATORY CORRECTION: The previous scripts failed the factual quality gate because they "@
        + error
        + ". Rewrite all three scripts. Replace personal-experience language with neutral, observable product demonstration language. Return only the corrected JSON object."@
}

/// The base prompt followed by the instruction to correct the reason `validation_error`.
pub fn correction_prompt(base: &str, validation_error: &str) -> (r: String)
    ensures
        r@ == correction_prompt_spec(base@, validation_error@),
{
    let mut r = String::from_str(base);
    r.append(
        "\n\nMANDATORY CORRECTION: The previous scripts failed the factual quality gate because they ",
    );
    r.append(validation_error);
    r.append(
        ". Rewrite all three scripts. Replace personal-experience language with neutral, observable product demonstration language. Return only the corrected JSON object.",
    );
    r
}

/// The bundle generation of one request: the base prompt, the prompt for the next bundle,
/// and how many bundles have failed the quality gate so far.
pub struct CreativeRounds {
    pub base_prompt: String,
    pub prompt: String,
    pub failed: u32,
}

/// What follows a checked bundle.
pub enum RoundStep {
    /// The bundle passed: return it.
    Accept,
    /// Generate another bundle from the updated prompt.
    Retry,
    /// Stop with this error.
    GiveUp(ApiError),
}

impl CreativeRounds {
    /// The first round: the base prompt is the prompt, and nothing has failed yet.
    pub fn new(base_prompt: String) -> (r: Self)
        ensures
            r.base_prompt@ == base_prompt@,
            r.prompt@ == base_prompt@,
            r.failed == 0,
    {
        let prompt = base_prompt.clone();
        CreativeRounds { base_prompt, prompt, failed: 0 }
    }

    /// Records the verdict on the bundle generated from `self.prompt`: a passing bundle is
    /// accepted; a failing one counts as a failed round and makes the next prompt ask for a
    /// correction of its reason, and the third failed round ends the request with a 502 error.
    pub fn record(&mut self, verdict: Result<(), String>) -> (step: RoundStep)
        requires
            old(self).failed < SCRIPT_ROUNDS,
        ensures
            final(self).base_prompt@ == old(self).base_prompt@,
            verdict is Ok ==> step is Accept && final(self).failed == old(self).failed
                && final(self).prompt@ == old(self).prompt@,
            verdict matches Err(e) ==> final(self).failed == old(self).failed + 1
                && final(self).prompt@ == correction_prompt_spec(old(self).base_prompt@, e@),
            step is Retry <==> (verdict is Err && old(self).failed + 1 < SCRIPT_ROUNDS),
            step is GiveUp <==> (verdict is Err && old(self).failed + 1 == SCRIPT_ROUNDS),
            step matches RoundStep::GiveUp(e) ==> e.status == BAD_GATEWAY && e.message@
                == SCRIPTS_REJECTED@,
    {
        match verdict {
            Ok(()) => RoundStep::Accept,
            Err(e) => {
                self.failed = self.failed + 1;
                self.prompt = correction_prompt(self.base_prompt.as_str(), e.as_str());
                if self.failed == SCRIPT_ROUNDS {
                    RoundStep::GiveUp(ApiError::bad_gateway(String::from_str(SCRIPTS_REJECTED)))
                } else {
                    RoundStep::Retry
                }
            },
        }
    }
}

} // verus!
