//! What the library's operations are for, stated over their inputs and results.

use vstd::prelude::*;
use crate::error::{BAD_GATEWAY, BAD_REQUEST, SERVICE_UNAVAILABLE, INVALID_PRODUCT_INPUT};
use crate::keepa::{
    KEEPA_CACHE_TTL_NANOS, KEEPA_KEY_MISSING, KEEPA_MARKETPLACE_UNSUPPORTED, KEEPA_NOT_FOUND,
    KEEPA_NO_TITLE, KEEPA_REFUSED, KEEPA_UNREACHABLE, KEEPA_UNREADABLE,
};
use crate::llm::{LLM_ATTEMPTS, LLM_EMPTY_CONTENT, LLM_KEY_MISSING};
use crate::product::Product;
use crate::prompt::{
    bundle_prompt_spec, Language, Tone, BUNDLE_PROMPT_ANALYSIS, BUNDLE_PROMPT_GOAL,
    BUNDLE_PROMPT_INTRO, BUNDLE_PROMPT_RULES, BUNDLE_PROMPT_TONE,
};
use crate::script::{
    bundle_verdict, claim_output, claim_source, first_script_error, first_unsupported_from,
    script_claim_verdict, unsupported_claim_message, unsupported_phrase, TiktokScript,
    BUNDLE_SIZE, SCRIPTS_REJECTED, SCRIPT_COUNT_WRONG, SCRIPT_ROUNDS, UNSUPPORTED_PHRASE_COUNT,
};
use crate::marketplace::{is_link_domain, keepa_domain_spec, normalize_spec};
use crate::keepa::{
    cache_fresh_spec, first_keepa_product, keepa_failure, keepa_status_message, main_image_url_spec,
    source_url_spec, KeepaImage, KeepaResponse,
};
use crate::llm::{attempt_prompt_spec, llm_endpoint_spec, llm_failure_reason, LlmFailure};
use crate::script::correction_prompt_spec;
use crate::text::{ascii_upper, is_ascii_alnum, unicode_white_space};
use crate::script::Scene;
use crate::text::{
    ascii_lower_text, contains_spec, find_spec, is_ascii_text, join, lemma_find_from_found,
    lemma_find_from_reaches, lemma_utf8_len_ascii, occurs_at, strings_view,
};

verus! {

/// The limits and messages of the service.
pub proof fn service_limits_and_messages()
    ensures
        UNSUPPORTED_PHRASE_COUNT == 20,
        BUNDLE_SIZE == 3,
        SCRIPT_ROUNDS == 3,
        LLM_ATTEMPTS == 2,
        KEEPA_CACHE_TTL_NANOS == 6 * 60 * 60 * 1_000_000_000,
        BAD_REQUEST == 400,
        BAD_GATEWAY == 502,
        SERVICE_UNAVAILABLE == 503,
        INVALID_PRODUCT_INPUT@ == "请输入有效的 Amazon 商品链接或 10 位 ASIN。"@,
        KEEPA_REFUSED@ == "Keepa 拒绝了商品请求，请检查额度或订阅权限。"@,
        KEEPA_NOT_FOUND@ == "Keepa 没有找到这个 ASIN。"@,
        KEEPA_NO_TITLE@ == "Keepa 暂无该商品的标题数据。"@,
        KEEPA_UNREACHABLE@ == "无法连接 Keepa，请稍后重试。"@,
        KEEPA_UNREADABLE@ == "Keepa 返回了无法解析的数据。"@,
        KEEPA_KEY_MISSING@ == "尚未配置 Keepa API Key，请检查 keepa_key.json。"@,
        KEEPA_MARKETPLACE_UNSUPPORTED@ == "Keepa 暂不支持该 Amazon 站点。"@,
        LLM_KEY_MISSING@ == "尚未配置 DEEPSEEK_API_KEY，请在 backend/.env 中配置密钥并重启后端。"@,
        LLM_EMPTY_CONTENT@ == "模型返回了空内容"@,
        SCRIPT_COUNT_WRONG@ == "没有返回三个完整的创意方向"@,
        SCRIPTS_REJECTED@ == "脚本没有通过事实校验，请重新生成一组。"@,
{
}

/// The phrases that the quality gate looks for, in order: first-person experience and
/// preference, endorsement and result claims, in English and Spanish.
pub proof fn unsupported_phrases_are_the_listed_ones()
    ensures
        unsupported_phrase(0) == seq!['i', ' ', 't', 'e', 's', 't', 'e', 'd'],
        unsupported_phrase(1) == seq!['i', '\'', 'v', 'e', ' ', 't', 'e', 's', 't', 'e', 'd'],
        unsupported_phrase(2) == seq!['i', ' ', 't', 'r', 'i', 'e', 'd'],
        unsupported_phrase(3) == seq!['i', '\'', 'v', 'e', ' ', 't', 'r', 'i', 'e', 'd'],
        unsupported_phrase(4) == seq!['i', ' ', 'u', 's', 'e'],
        unsupported_phrase(5) == seq!['i', ' ', 't', 'a', 'k', 'e', ' ', 'i', 't'],
        unsupported_phrase(6) == seq!['i', ' ', 'l', 'o', 'v', 'e'],
        unsupported_phrase(7) == seq!['m', 'y', ' ', 'f', 'a', 'v', 'o', 'r', 'i', 't', 'e'],
        unsupported_phrase(8) == seq!['l', 'i', 'f', 'e', '-', 'c', 'h', 'a', 'n', 'g', 'i', 'n', 'g'],
        unsupported_phrase(9) == seq!['l', 'i', 'f', 'e', ' ', 'c', 'h', 'a', 'n', 'g', 'i', 'n', 'g'],
        unsupported_phrase(10) == seq!['g', 'u', 'a', 'r', 'a', 'n', 't', 'e', 'e', 'd'],
        unsupported_phrase(11) == seq!['v', 'i', 'r', 'a', 'l'],
        unsupported_phrase(12) == seq!['t', 'h', 'e', ' ', 'b', 'e', 's', 't'],
        unsupported_phrase(13) == seq!['l', 'o', ' ', 'p', 'r', 'o', 'b', 'é'],
        unsupported_phrase(14) == seq!['h', 'e', ' ', 'p', 'r', 'o', 'b', 'a', 'd', 'o'],
        unsupported_phrase(15) == seq!['l', 'o', ' ', 'u', 's', 'o'],
        unsupported_phrase(16) == seq!['m', 'e', ' ', 'e', 'n', 'c', 'a', 'n', 't', 'a'],
        unsupported_phrase(17) == seq!['m', 'i', ' ', 'f', 'a', 'v', 'o', 'r', 'i', 't', 'o'],
        unsupported_phrase(18) == seq!['g', 'a', 'r', 'a', 'n', 't', 'i', 'z', 'a', 'd', 'o'],
        unsupported_phrase(19) == seq!['v', 'i', 'r', 'a', 'l'],
{
    reveal_strlit("garantizado");
    reveal_strlit("guaranteed");
    reveal_strlit("he probado");
    reveal_strlit("i love");
    reveal_strlit("i take it");
    reveal_strlit("i tested");
    reveal_strlit("i tried");
    reveal_strlit("i use");
    reveal_strlit("i've tested");
    reveal_strlit("i've tried");
    reveal_strlit("life changing");
    reveal_strlit("life-changing");
    reveal_strlit("lo probé");
    reveal_strlit("lo uso");
    reveal_strlit("me encanta");
    reveal_strlit("mi favorito");
    reveal_strlit("my favorite");
    reveal_strlit("the best");
    reveal_strlit("viral");
}

/// A listed phrase that a script says and the product facts do not gets the script rejected,
/// naming that phrase or one listed before it that also applies.
pub proof fn listed_phrase_in_script_is_rejected(s: TiktokScript, p: Product, k: int)
    requires
        0 <= k < 20,
        contains_spec(claim_output(s), unsupported_phrase(k)),
        !contains_spec(claim_source(p), unsupported_phrase(k)),
    ensures
        script_claim_verdict(s, p) matches Some(m) && exists|j: int|
            0 <= j <= k && m == unsupported_claim_message(#[trigger] unsupported_phrase(j))
                && contains_spec(claim_output(s), unsupported_phrase(j)) && !contains_spec(
                claim_source(p),
                unsupported_phrase(j),
            ),
{
    lemma_first_flag(claim_output(s), claim_source(p), 0, k);
    let j = first_unsupported_from(claim_output(s), claim_source(p), 0).unwrap();
    assert(unsupported_phrase(j) == unsupported_phrase(j));
}

proof fn lemma_first_flag(out: Seq<char>, src: Seq<char>, i: int, k: int)
    requires
        0 <= i <= k < 20,
        contains_spec(out, unsupported_phrase(k)),
        !contains_spec(src, unsupported_phrase(k)),
    ensures
        first_unsupported_from(out, src, i) matches Some(j) && i <= j <= k && contains_spec(
            out,
            unsupported_phrase(j),
        ) && !contains_spec(src, unsupported_phrase(j)),
    decreases k - i,
{
    if !(contains_spec(out, unsupported_phrase(i)) && !contains_spec(src, unsupported_phrase(i))) {
        lemma_first_flag(out, src, i + 1, k);
    }
}

proof fn lemma_first_script_error(scripts: Seq<TiktokScript>, p: Product, i: int)
    requires
        0 <= i <= scripts.len(),
    ensures
        first_script_error(scripts, p, i) is None <==> forall|j: int|
            i <= j < scripts.len() ==> script_claim_verdict(#[trigger] scripts[j], p) is None,
        first_script_error(scripts, p, i) matches Some(m) ==> exists|j: int|
            i <= j < scripts.len() && script_claim_verdict(#[trigger] scripts[j], p) == Some(m)
                && forall|q: int| i <= q < j ==> script_claim_verdict(#[trigger] scripts[q], p) is None,
    decreases scripts.len() - i,
{
    if i < scripts.len() {
        lemma_first_script_error(scripts, p, i + 1);
        if script_claim_verdict(scripts[i], p) is None {
            if let Some(m) = first_script_error(scripts, p, i + 1) {
                let j = choose|j: int|
                    i + 1 <= j < scripts.len() && script_claim_verdict(#[trigger] scripts[j], p)
                        == Some(m) && forall|q: int|
                        i + 1 <= q < j ==> script_claim_verdict(#[trigger] scripts[q], p) is None;
                assert forall|q: int| i <= q < j implies script_claim_verdict(#[trigger] scripts[q], p)
                    is None by {
                    if q > i {
                    }
                }
            }
        } else {
            assert forall|q: int| i <= q < i implies script_claim_verdict(#[trigger] scripts[q], p)
                is None by {}
        }
    }
}

/// A bundle is accepted exactly when it holds three scripts that all pass the quality gate; a
/// bundle of another size is refused for its size, and otherwise the refusal carries the verdict
/// of the first script that fails.
pub proof fn bundle_accepted_only_when_all_three_pass(scripts: Seq<TiktokScript>, p: Product)
    ensures
        bundle_verdict(scripts, p) is None <==> (scripts.len() == 3 && forall|i: int|
            0 <= i < 3 ==> script_claim_verdict(#[trigger] scripts[i], p) is None),
        scripts.len() != 3 ==> bundle_verdict(scripts, p) == Some(SCRIPT_COUNT_WRONG@),
        scripts.len() == 3 && bundle_verdict(scripts, p) is Some ==> exists|j: int|
            0 <= j < 3 && bundle_verdict(scripts, p) == script_claim_verdict(#[trigger] scripts[j], p)
                && forall|q: int| 0 <= q < j ==> script_claim_verdict(#[trigger] scripts[q], p) is None,
{
    lemma_first_script_error(scripts, p, 0);
}

/// The bundle prompt names the requested language, tone and goal, then gives the product facts
/// and the creative analysis, in that order.
pub proof fn bundle_prompt_names_its_choices(
    product_json: Seq<char>,
    insights_json: Seq<char>,
    language: Language,
    tone: Tone,
    goal: Seq<char>,
)
    ensures
        bundle_prompt_spec(product_json, insights_json, language, tone, goal) == BUNDLE_PROMPT_INTRO@
            + match language {
            Language::En => seq!['E', 'n', 'g', 'l', 'i', 's', 'h'],
            Language::Es => "Spanish (neutral Latin American)"@,
        } + BUNDLE_PROMPT_TONE@ + match tone {
            Tone::Energetic => "energetic"@,
            Tone::Ugc => "natural creator-style"@,
            Tone::Premium => "clean premium"@,
        } + BUNDLE_PROMPT_GOAL@ + (if goal == "organic"@ {
            "organic engagement and saves"@
        } else if goal == "awareness"@ {
            "product awareness"@
        } else {
            "product clicks and conversion"@
        }) + BUNDLE_PROMPT_RULES@ + product_json + BUNDLE_PROMPT_ANALYSIS@ + insights_json,
        BUNDLE_PROMPT_INTRO@ == "Create exactly three distinctly different, ready-to-film TikTok product scripts in "@,
        BUNDLE_PROMPT_TONE@ == ". The tone is "@,
        BUNDLE_PROMPT_GOAL@ == "; the goal is "@,
{
    reveal_strlit("English");
}

/// `x` stands somewhere inside `h`.
pub open spec fn is_infix(x: Seq<char>, h: Seq<char>) -> bool {
    exists|a: int| 0 <= a && a + x.len() <= h.len() && #[trigger] h.subrange(a, a + x.len()) == x
}

proof fn lemma_infix_concat(x: Seq<char>, y: Seq<char>, l: Seq<char>, r: Seq<char>)
    requires
        is_infix(x, y),
    ensures
        is_infix(x, l + y + r),
{
    let a = choose|a: int| 0 <= a && a + x.len() <= y.len() && #[trigger] y.subrange(a, a + x.len()) == x;
    let h = l + y + r;
    let b = l.len() + a;
    assert(h.subrange(b, b + x.len()) =~= y.subrange(a, a + x.len()));
}

proof fn lemma_infix_self(x: Seq<char>)
    ensures
        is_infix(x, x),
{
    assert(x.subrange(0, 0 + x.len() as int) =~= x);
}

proof fn lemma_infix_trans(x: Seq<char>, y: Seq<char>, z: Seq<char>)
    requires
        is_infix(x, y),
        is_infix(y, z),
    ensures
        is_infix(x, z),
{
    let a = choose|a: int| 0 <= a && a + x.len() <= y.len() && #[trigger] y.subrange(a, a + x.len()) == x;
    let b = choose|b: int| 0 <= b && b + y.len() <= z.len() && #[trigger] z.subrange(b, b + y.len()) == y;
    assert(z.subrange(a + b, a + b + x.len()) =~= y.subrange(a, a + x.len()));
}

proof fn lemma_join_infix(parts: Seq<Seq<char>>, sep: Seq<char>, k: int)
    requires
        0 <= k < parts.len(),
    ensures
        is_infix(parts[k], join(parts, sep)),
    decreases parts.len(),
{
    lemma_infix_self(parts[k]);
    if parts.len() == 1 {
    } else {
        let front = parts.drop_last();
        let e = Seq::<char>::empty();
        if k == parts.len() - 1 {
            lemma_infix_concat(parts[k], parts[k], join(front, sep) + sep, e);
            assert(join(front, sep) + sep + parts[k] + e =~= join(parts, sep));
        } else {
            lemma_join_infix(front, sep, k);
            assert(front[k] == parts[k]);
            lemma_infix_concat(parts[k], join(front, sep), e, sep + parts.last());
            assert(e + join(front, sep) + (sep + parts.last()) =~= join(parts, sep));
        }
    }
}

proof fn lemma_infix_lower(x: Seq<char>, h: Seq<char>)
    requires
        is_infix(x, h),
    ensures
        is_infix(ascii_lower_text(x), ascii_lower_text(h)),
{
    let a = choose|a: int| 0 <= a && a + x.len() <= h.len() && #[trigger] h.subrange(a, a + x.len()) == x;
    assert(ascii_lower_text(h).subrange(a, a + x.len()) =~= ascii_lower_text(x));
}

proof fn lemma_infix_contains(x: Seq<char>, h: Seq<char>, n: Seq<char>)
    requires
        is_infix(x, h),
        contains_spec(x, n),
    ensures
        contains_spec(h, n),
{
    let a = choose|a: int| 0 <= a && a + x.len() <= h.len() && #[trigger] h.subrange(a, a + x.len()) == x;
    lemma_find_from_found(x, n, 0);
    let j = find_spec(x, n).unwrap();
    assert(occurs_at(x, n, j));
    assert(h.subrange(a + j, a + j + n.len()) =~= x.subrange(j, j + n.len())) by {
        assert forall|q: int| 0 <= q < n.len() implies #[trigger] h.subrange(a + j, a + j + n.len())[q]
            == x.subrange(j, j + n.len())[q] by {
            assert(h.subrange(a, a + x.len())[j + q] == x[j + q]);
        }
    }
    lemma_find_from_reaches(h, n, 0, a + j);
}

proof fn lemma_join_ascii(parts: Seq<Seq<char>>, sep: Seq<char>)
    requires
        is_ascii_text(sep),
        forall|k: int| 0 <= k < parts.len() ==> is_ascii_text(#[trigger] parts[k]),
    ensures
        is_ascii_text(join(parts, sep)),
    decreases parts.len(),
{
    if parts.len() > 1 {
        let front = parts.drop_last();
        assert forall|k: int| 0 <= k < front.len() implies is_ascii_text(#[trigger] front[k]) by {
            assert(front[k] == parts[k]);
        }
        lemma_join_ascii(front, sep);
        assert(is_ascii_text(parts[parts.len() - 1]));
        lemma_concat_ascii(join(front, sep), sep);
        lemma_concat_ascii(join(front, sep) + sep, parts.last());
    } else if parts.len() == 1 {
        assert(is_ascii_text(parts[0]));
    }
}

proof fn lemma_concat_ascii(a: Seq<char>, b: Seq<char>)
    requires
        is_ascii_text(a),
        is_ascii_text(b),
    ensures
        is_ascii_text(a + b),
{
    assert forall|i: int| 0 <= i < (a + b).len() implies (#[trigger] (a + b)[i] as u32) < 0x80 by {
        if i < a.len() {
            assert((a + b)[i] == a[i]);
        } else {
            assert((a + b)[i] == b[i - a.len()]);
        }
    }
}

/// The text of a scene's overlay, empty when it has none.
pub open spec fn overlay_text(sc: Scene) -> Seq<char> {
    match sc.on_screen_text {
        Some(t) => t@,
        None => seq![],
    }
}

/// Every text of a script is ASCII.
pub open spec fn script_is_ascii(s: TiktokScript) -> bool {
    &&& is_ascii_text(s.hook@)
    &&& is_ascii_text(s.voiceover@)
    &&& is_ascii_text(s.caption@)
    &&& forall|i: int| 0 <= i < s.hashtags@.len() ==> is_ascii_text(#[trigger] s.hashtags@[i]@)
    &&& forall|j: int|
        0 <= j < s.scenes@.len() ==> {
            &&& is_ascii_text((#[trigger] s.scenes@[j]).visual@)
            &&& is_ascii_text(s.scenes@[j].narration@)
            &&& is_ascii_text(overlay_text(s.scenes@[j]))
        }
}

/// Some field that a viewer hears or sees (hook, voiceover, caption, a hashtag, or a scene's
/// visual, narration or overlay) says `n`, in any case.
pub open spec fn some_field_says(s: TiktokScript, n: Seq<char>) -> bool {
    ||| contains_spec(ascii_lower_text(s.hook@), n)
    ||| contains_spec(ascii_lower_text(s.voiceover@), n)
    ||| contains_spec(ascii_lower_text(s.caption@), n)
    ||| exists|i: int|
        0 <= i < s.hashtags@.len() && contains_spec(ascii_lower_text(#[trigger] s.hashtags@[i]@), n)
    ||| exists|j: int|
        0 <= j < s.scenes@.len() && (contains_spec(
            ascii_lower_text((#[trigger] s.scenes@[j]).visual@),
            n,
        ) || contains_spec(ascii_lower_text(s.scenes@[j].narration@), n) || contains_spec(
            ascii_lower_text(overlay_text(s.scenes@[j])),
            n,
        ))
}

/// The text of a scene that a viewer sees or hears.
pub open spec fn shown_scene_text(sc: Scene) -> Seq<char> {
    sc.visual@ + " "@ + sc.narration@ + " "@ + overlay_text(sc)
}

/// Everything a script lets a viewer hear or see, in order, separated by spaces.
pub open spec fn shown_text(s: TiktokScript) -> Seq<char> {
    s.hook@ + " "@ + s.voiceover@ + " "@ + s.caption@ + " "@ + join(strings_view(s.hashtags@), " "@)
        + " "@ + join(s.scenes@.map_values(|sc: Scene| shown_scene_text(sc)), " "@)
}

proof fn lemma_checked_text_is_shown_text(s: TiktokScript)
    ensures
        claim_output(s) == crate::text::unicode_lowercase(shown_text(s)),
{
    assert(crate::script::scene_texts(s.scenes@) =~= s.scenes@.map_values(
        |sc: Scene| shown_scene_text(sc),
    ));
}

proof fn lemma_shown_text_ascii(s: TiktokScript)
    requires
        script_is_ascii(s),
    ensures
        is_ascii_text(shown_text(s)),
{
    reveal_strlit(" ");
    let sp = " "@;
    assert(is_ascii_text(sp));
    let tags = strings_view(s.hashtags@);
    let scenes = s.scenes@.map_values(|sc: Scene| shown_scene_text(sc));
    assert forall|i: int| 0 <= i < tags.len() implies is_ascii_text(#[trigger] tags[i]) by {
        assert(is_ascii_text(s.hashtags@[i]@));
    }
    lemma_join_ascii(tags, sp);
    assert forall|j: int| 0 <= j < scenes.len() implies is_ascii_text(#[trigger] scenes[j]) by {
        let sc = s.scenes@[j];
        assert(is_ascii_text(sc.visual@));
        lemma_concat_ascii(sc.visual@, sp);
        lemma_concat_ascii(sc.visual@ + sp, sc.narration@);
        lemma_concat_ascii(sc.visual@ + sp + sc.narration@, sp);
        lemma_concat_ascii(sc.visual@ + sp + sc.narration@ + sp, overlay_text(sc));
    }
    lemma_join_ascii(scenes, sp);
    let jh = join(tags, sp);
    let js = join(scenes, sp);
    lemma_concat_ascii(s.hook@, sp);
    lemma_concat_ascii(s.hook@ + sp, s.voiceover@);
    lemma_concat_ascii(s.hook@ + sp + s.voiceover@, sp);
    lemma_concat_ascii(s.hook@ + sp + s.voiceover@ + sp, s.caption@);
    lemma_concat_ascii(s.hook@ + sp + s.voiceover@ + sp + s.caption@, sp);
    lemma_concat_ascii(s.hook@ + sp + s.voiceover@ + sp + s.caption@ + sp, jh);
    lemma_concat_ascii(s.hook@ + sp + s.voiceover@ + sp + s.caption@ + sp + jh, sp);
    lemma_concat_ascii(s.hook@ + sp + s.voiceover@ + sp + s.caption@ + sp + jh + sp, js);
}

proof fn lemma_head_fields_infix(s: TiktokScript)
    ensures
        is_infix(s.hook@, shown_text(s)),
        is_infix(s.voiceover@, shown_text(s)),
        is_infix(s.caption@, shown_text(s)),
        is_infix(join(strings_view(s.hashtags@), " "@), shown_text(s)),
        is_infix(join(s.scenes@.map_values(|sc: Scene| shown_scene_text(sc)), " "@), shown_text(s)),
{
    let sp = " "@;
    let e = Seq::<char>::empty();
    let jh = join(strings_view(s.hashtags@), sp);
    let js = join(s.scenes@.map_values(|sc: Scene| shown_scene_text(sc)), sp);
    let w = shown_text(s);
    lemma_infix_self(s.hook@);
    lemma_infix_concat(s.hook@, s.hook@, e, sp + s.voiceover@ + sp + s.caption@ + sp + jh + sp + js);
    assert(e + s.hook@ + (sp + s.voiceover@ + sp + s.caption@ + sp + jh + sp + js) =~= w);
    lemma_infix_self(s.voiceover@);
    lemma_infix_concat(s.voiceover@, s.voiceover@, s.hook@ + sp, sp + s.caption@ + sp + jh + sp + js);
    assert(s.hook@ + sp + s.voiceover@ + (sp + s.caption@ + sp + jh + sp + js) =~= w);
    lemma_infix_self(s.caption@);
    lemma_infix_concat(s.caption@, s.caption@, s.hook@ + sp + s.voiceover@ + sp, sp + jh + sp + js);
    assert(s.hook@ + sp + s.voiceover@ + sp + s.caption@ + (sp + jh + sp + js) =~= w);
    lemma_infix_self(jh);
    lemma_infix_concat(jh, jh, s.hook@ + sp + s.voiceover@ + sp + s.caption@ + sp, sp + js);
    assert(s.hook@ + sp + s.voiceover@ + sp + s.caption@ + sp + jh + (sp + js) =~= w);
    lemma_infix_self(js);
    lemma_infix_concat(js, js, s.hook@ + sp + s.voiceover@ + sp + s.caption@ + sp + jh + sp, e);
    assert(s.hook@ + sp + s.voiceover@ + sp + s.caption@ + sp + jh + sp + js + e =~= w);
}

proof fn lemma_scene_fields_infix(sc: Scene)
    ensures
        is_infix(sc.visual@, shown_scene_text(sc)),
        is_infix(sc.narration@, shown_scene_text(sc)),
        is_infix(overlay_text(sc), shown_scene_text(sc)),
{
    let sp = " "@;
    let e = Seq::<char>::empty();
    let st = shown_scene_text(sc);
    lemma_infix_self(sc.visual@);
    lemma_infix_concat(sc.visual@, sc.visual@, e, sp + sc.narration@ + sp + overlay_text(sc));
    assert(e + sc.visual@ + (sp + sc.narration@ + sp + overlay_text(sc)) =~= st);
    lemma_infix_self(sc.narration@);
    lemma_infix_concat(sc.narration@, sc.narration@, sc.visual@ + sp, sp + overlay_text(sc));
    assert(sc.visual@ + sp + sc.narration@ + (sp + overlay_text(sc)) =~= st);
    lemma_infix_self(overlay_text(sc));
    lemma_infix_concat(overlay_text(sc), overlay_text(sc), sc.visual@ + sp + sc.narration@ + sp, e);
    assert(sc.visual@ + sp + sc.narration@ + sp + overlay_text(sc) + e =~= st);
}

proof fn lemma_saying_field_is_shown(s: TiktokScript, n: Seq<char>) -> (f: Seq<char>)
    requires
        some_field_says(s, n),
    ensures
        is_infix(f, shown_text(s)),
        contains_spec(ascii_lower_text(f), n),
{
    let w = shown_text(s);
    lemma_head_fields_infix(s);
    if contains_spec(ascii_lower_text(s.hook@), n) {
        s.hook@
    } else if contains_spec(ascii_lower_text(s.voiceover@), n) {
        s.voiceover@
    } else if contains_spec(ascii_lower_text(s.caption@), n) {
        s.caption@
    } else if exists|i: int|
        0 <= i < s.hashtags@.len() && contains_spec(ascii_lower_text(#[trigger] s.hashtags@[i]@), n) {
        let i = choose|i: int|
            0 <= i < s.hashtags@.len() && contains_spec(ascii_lower_text(#[trigger] s.hashtags@[i]@), n);
        let tags = strings_view(s.hashtags@);
        lemma_join_infix(tags, " "@, i);
        lemma_infix_trans(tags[i], join(tags, " "@), w);
        s.hashtags@[i]@
    } else {
        let j = choose|j: int|
            0 <= j < s.scenes@.len() && (contains_spec(
                ascii_lower_text((#[trigger] s.scenes@[j]).visual@),
                n,
            ) || contains_spec(ascii_lower_text(s.scenes@[j].narration@), n) || contains_spec(
                ascii_lower_text(overlay_text(s.scenes@[j])),
                n,
            ));
        let sc = s.scenes@[j];
        let scenes = s.scenes@.map_values(|sc: Scene| shown_scene_text(sc));
        lemma_join_infix(scenes, " "@, j);
        lemma_infix_trans(scenes[j], join(scenes, " "@), w);
        lemma_scene_fields_infix(sc);
        if contains_spec(ascii_lower_text(sc.visual@), n) {
            lemma_infix_trans(sc.visual@, scenes[j], w);
            sc.visual@
        } else if contains_spec(ascii_lower_text(sc.narration@), n) {
            lemma_infix_trans(sc.narration@, scenes[j], w);
            sc.narration@
        } else {
            lemma_infix_trans(overlay_text(sc), scenes[j], w);
            overlay_text(sc)
        }
    }
}

/// A script is rejected when any field that a viewer hears or sees says a listed phrase, in any
/// case, that the product facts do not (for a script written in ASCII).
pub proof fn every_spoken_or_shown_field_is_checked(s: TiktokScript, p: Product, k: int)
    requires
        0 <= k < 20,
        script_is_ascii(s),
        some_field_says(s, unsupported_phrase(k)),
        !contains_spec(claim_source(p), unsupported_phrase(k)),
    ensures
        script_claim_verdict(s, p) is Some,
{
    let n = unsupported_phrase(k);
    let w = shown_text(s);
    lemma_checked_text_is_shown_text(s);
    lemma_shown_text_ascii(s);
    assert(claim_output(s) == ascii_lower_text(w));
    let f = lemma_saying_field_is_shown(s, n);
    lemma_infix_lower(f, w);
    lemma_infix_contains(ascii_lower_text(f), ascii_lower_text(w), n);
    listed_phrase_in_script_is_rejected(s, p, k);
}

proof fn lemma_plain_asin(a: Seq<char>)
    requires
        a.len() == 10,
        forall|i: int|
            0 <= i < 10 ==> ('0' <= #[trigger] a[i] && a[i] <= '9') || ('A' <= a[i] && a[i] <= 'Z') || (
            'a' <= a[i] && a[i] <= 'z'),
    ensures
        crate::text::trim_spec(a) == a,
        crate::marketplace::link_host_domain(crate::text::unicode_lowercase(a)) is None,
        crate::marketplace::asin_candidate(a, crate::text::unicode_lowercase(a)) == Some(
            crate::text::ascii_upper_text(a),
        ),
        crate::marketplace::is_valid_asin(crate::text::ascii_upper_text(a)),
{
    reveal_strlit("amazon.");
    assert(is_ascii_text(a));
    assert(crate::text::trim_start_spec(a) == a);
    assert(crate::text::trim_end_spec(a) == a);
    let la = crate::text::unicode_lowercase(a);
    assert(la == ascii_lower_text(a));
    lemma_find_from_found(la, "amazon."@, 0);
    if let Some(j) = find_spec(la, "amazon."@) {
        assert(la.subrange(j, j + 7)[6] == "amazon."@[6]);
        assert(la[j + 6] == crate::text::ascii_lower(a[j + 6]));
        assert(false);
    }
    let up = crate::text::ascii_upper_text(a);
    assert(is_ascii_text(up));
    lemma_utf8_len_ascii(up);
    assert(forall|i: int| 0 <= i < 10 ==> #[trigger] up[i] == crate::text::ascii_upper(a[i]));
}

/// Ten ASCII letters and digits are accepted as an ASIN, uppercased, with the default
/// marketplace `com`.
pub proof fn ten_ascii_alphanumerics_are_an_asin(a: Seq<char>)
    requires
        a.len() == 10,
        forall|i: int|
            0 <= i < 10 ==> ('0' <= #[trigger] a[i] && a[i] <= '9') || ('A' <= a[i] && a[i] <= 'Z') || (
            'a' <= a[i] && a[i] <= 'z'),
    ensures
        normalize_spec(a, None) matches Some(Some((asin, market))) && market == seq!['c', 'o', 'm']
            && asin.len() == 10 && forall|i: int|
            0 <= i < 10 ==> #[trigger] asin[i] == if 'a' <= a[i] && a[i] <= 'z' {
                ((a[i] as u32) - 32) as char
            } else {
                a[i]
            },
{
    reveal_strlit("com");
    lemma_plain_asin(a);
    let up = crate::text::ascii_upper_text(a);
    assert(forall|i: int| 0 <= i < 10 ==> #[trigger] up[i] == crate::text::ascii_upper(a[i]));
    assert(is_ascii_text("com"@));
    assert(ascii_lower_text("com"@) =~= seq!['c', 'o', 'm']);
}

/// The characters that count as whitespace are exactly the Unicode `White_Space` set.
pub proof fn white_space_is_the_unicode_set(c: char)
    ensures
        unicode_white_space(c) <==> (c == '\t' || c == '\n' || c == '\u{0B}' || c == '\u{0C}' || c
            == '\r' || c == ' ' || c == '\u{85}' || c == '\u{A0}' || c == '\u{1680}' || ('\u{2000}'
            <= c && c <= '\u{200A}') || c == '\u{2028}' || c == '\u{2029}' || c == '\u{202F}' || c
            == '\u{205F}' || c == '\u{3000}'),
{
}

/// ASCII letters and digits, and uppercasing, are the ASCII ones.
pub proof fn ascii_classes_are_the_ascii_ones(c: char)
    ensures
        is_ascii_alnum(c) <==> ('0' <= c && c <= '9') || ('A' <= c && c <= 'Z') || ('a' <= c && c
            <= 'z'),
        ('a' <= c && c <= 'z') ==> ascii_upper(c) as u32 == c as u32 - 32,
        !('a' <= c && c <= 'z') ==> ascii_upper(c) == c,
        ('A' <= c && c <= 'Z') ==> crate::text::ascii_lower(c) as u32 == c as u32 + 32,
        !('A' <= c && c <= 'Z') ==> crate::text::ascii_lower(c) == c,
{
}

/// Keepa's domain ids are those of its nine Amazon marketplaces.
pub proof fn keepa_domain_ids_are_keepas()
    ensures
        keepa_domain_spec(seq!['c', 'o', 'm']) == Some(seq!['1']),
        keepa_domain_spec(seq!['c', 'o', '.', 'u', 'k']) == Some(seq!['2']),
        keepa_domain_spec(seq!['d', 'e']) == Some(seq!['3']),
        keepa_domain_spec(seq!['f', 'r']) == Some(seq!['4']),
        keepa_domain_spec(seq!['c', 'o', '.', 'j', 'p']) == Some(seq!['5']),
        keepa_domain_spec(seq!['c', 'a']) == Some(seq!['6']),
        keepa_domain_spec(seq!['i', 't']) == Some(seq!['8']),
        keepa_domain_spec(seq!['e', 's']) == Some(seq!['9']),
        keepa_domain_spec(seq!['c', 'o', 'm', '.', 'm', 'x']) == Some(seq!['1', '1']),
        forall|m: Seq<char>|
            #[trigger] keepa_domain_spec(m) is Some ==> m == seq!['c', 'o', 'm'] || m == seq![
                'c',
                'o',
                '.',
                'u',
                'k',
            ] || m == seq!['d', 'e'] || m == seq!['f', 'r'] || m == seq!['c', 'o', '.', 'j', 'p']
                || m == seq!['c', 'a'] || m == seq!['i', 't'] || m == seq!['e', 's'] || m == seq![
                'c',
                'o',
                'm',
                '.',
                'm',
                'x',
            ],
{
    reveal_strlit("com");
    reveal_strlit("co.uk");
    reveal_strlit("de");
    reveal_strlit("fr");
    reveal_strlit("co.jp");
    reveal_strlit("ca");
    reveal_strlit("it");
    reveal_strlit("es");
    reveal_strlit("com.mx");
    reveal_strlit("1");
    reveal_strlit("2");
    reveal_strlit("3");
    reveal_strlit("4");
    reveal_strlit("5");
    reveal_strlit("6");
    reveal_strlit("8");
    reveal_strlit("9");
    reveal_strlit("11");
    assert("com"@ =~= seq!['c', 'o', 'm']);
    assert("co.uk"@ =~= seq!['c', 'o', '.', 'u', 'k']);
    assert("de"@ =~= seq!['d', 'e']);
    assert("fr"@ =~= seq!['f', 'r']);
    assert("co.jp"@ =~= seq!['c', 'o', '.', 'j', 'p']);
    assert("ca"@ =~= seq!['c', 'a']);
    assert("it"@ =~= seq!['i', 't']);
    assert("es"@ =~= seq!['e', 's']);
    assert("com.mx"@ =~= seq!['c', 'o', 'm', '.', 'm', 'x']);
    assert("1"@ =~= seq!['1']);
    assert("2"@ =~= seq!['2']);
    assert("3"@ =~= seq!['3']);
    assert("4"@ =~= seq!['4']);
    assert("5"@ =~= seq!['5']);
    assert("6"@ =~= seq!['6']);
    assert("8"@ =~= seq!['8']);
    assert("9"@ =~= seq!['9']);
    assert("11"@ =~= seq!['1', '1']);
}

/// A link may select exactly the nine Amazon marketplaces that Keepa serves.
pub proof fn link_marketplaces_are_the_nine_sites(d: Seq<char>)
    ensures
        is_link_domain(d) <==> keepa_domain_spec(d) is Some,
{
}

/// A cached product is served for exactly six hours after it was fetched.
pub proof fn cache_keeps_products_six_hours(fetched_at: u128, now: u128)
    ensures
        now <= fetched_at ==> cache_fresh_spec(fetched_at, now),
        now >= fetched_at ==> (cache_fresh_spec(fetched_at, now) <==> now - fetched_at
            < 21_600_000_000_000),
{
}

/// A Keepa reply is refused first for an `error` member, then for a missing product, then for a
/// missing or blank title; otherwise it yields a product.
pub proof fn keepa_failures_in_order(r: KeepaResponse)
    ensures
        r.has_error ==> keepa_failure(r) == Some(KEEPA_REFUSED@),
        !r.has_error && first_keepa_product(r) is None ==> keepa_failure(r) == Some(
            KEEPA_NOT_FOUND@,
        ),
        !r.has_error && first_keepa_product(r) is Some && first_keepa_product(r).unwrap().title is None
            ==> keepa_failure(r) == Some(KEEPA_NO_TITLE@),
        first_keepa_product(r) matches Some(kp) ==> (r.products matches Some(ps) && ps@.len() > 0
            && kp == ps@[0]),
        r.products matches Some(ps) && ps@.len() > 0 ==> first_keepa_product(r) is Some,
{
}

/// The product page and main image are Amazon's URLs: the page under the marketplace's domain,
/// the image named by the first image whose large (else medium) rendition is known.
pub proof fn product_urls_are_amazons(marketplace: Seq<char>, asin: Seq<char>)
    ensures
        source_url_spec(marketplace, asin) == "https://www.amazon."@ + marketplace + "/dp/"@ + asin,
        main_image_url_spec(None) == Seq::<char>::empty(),
{
}

/// The image of a product is its first image's large rendition when it has one, else its medium
/// one, else the next image's.
pub proof fn first_image_prefers_large(v: Vec<KeepaImage>)
    requires
        v@.len() > 0,
    ensures
        v@[0].large is Some && v@[0].large.unwrap()@.len() > 0 ==> main_image_url_spec(Some(v))
            == "https://m.media-amazon.com/images/I/"@ + v@[0].large.unwrap()@,
        v@[0].large is None && v@[0].medium is Some && v@[0].medium.unwrap()@.len() > 0
            ==> main_image_url_spec(Some(v)) == "https://m.media-amazon.com/images/I/"@
            + v@[0].medium.unwrap()@,
{
}

/// The model endpoint is the base URL with `/chat/completions` appended, trailing slashes of the
/// base dropped.
pub proof fn endpoint_appends_chat_completions(base: Seq<char>)
    ensures
        base.len() == 0 || base.last() != '/' ==> llm_endpoint_spec(base) == base + seq![
            '/',
            'c',
            'h',
            'a',
            't',
            '/',
            'c',
            'o',
            'm',
            'p',
            'l',
            'e',
            't',
            'i',
            'o',
            'n',
            's',
        ],
        llm_endpoint_spec(base.push('/')) == llm_endpoint_spec(base),
{
    reveal_strlit("/chat/completions");
    assert(base.push('/').drop_last() =~= base);
    assert("/chat/completions"@ =~= seq![
        '/',
        'c',
        'h',
        'a',
        't',
        '/',
        'c',
        'o',
        'm',
        'p',
        'l',
        'e',
        't',
        'i',
        'o',
        'n',
        's',
    ]);
}

/// A retry asks again with the original prompt and the reason the last reply failed; the first
/// attempt sends the prompt alone.
pub proof fn retry_prompt_names_the_failure(prompt: Seq<char>, attempt: u32, last_error: Seq<char>)
    ensures
        attempt == 0 ==> attempt_prompt_spec(prompt, attempt, last_error) == prompt,
        attempt > 0 ==> attempt_prompt_spec(prompt, attempt, last_error) == prompt
            + "\n\nRETRY: The previous output failed validation: "@ + last_error
            + ". Return one corrected, complete JSON object without markdown fences."@,
        llm_failure_reason(LlmFailure::EmptyContent) == "模型返回了空内容"@,
{
}

/// A correction prompt is the base prompt followed by the instruction to fix the stated reason.
pub proof fn correction_prompt_names_the_reason(base: Seq<char>, error: Seq<char>)
    ensures
        correction_prompt_spec(base, error) == base
            + "\n\nMANDATORY CORRECTION: The previous scripts failed the factual quality gate because they "@
            + error
            + ". Rewrite all three scripts. Replace personal-experience language with neutral, observable product demonstration language. Return only the corrected JSON object."@,
{
}

/// An unsuccessful Keepa status is reported with its number.
pub proof fn keepa_status_message_names_the_status(status: u16)
    ensures
        keepa_status_message(status) == "Keepa 请求失败（"@ + crate::text::decimal(status as nat)
            + "）。"@,
        status < 10 ==> crate::text::decimal(status as nat).len() == 1,
{
}

/// A phrase that the title or a bullet point says, in any case, counts as supported by the
/// product facts (for facts written in ASCII).
pub proof fn phrase_in_facts_is_supported(p: Product, n: Seq<char>)
    requires
        is_ascii_text(p.title@),
        forall|i: int| 0 <= i < p.bullet_points@.len() ==> is_ascii_text(#[trigger] p.bullet_points@[i]@),
        contains_spec(ascii_lower_text(p.title@), n) || exists|i: int|
            0 <= i < p.bullet_points@.len() && contains_spec(
                ascii_lower_text(#[trigger] p.bullet_points@[i]@),
                n,
            ),
    ensures
        contains_spec(claim_source(p), n),
{
    reveal_strlit(" ");
    let sp = " "@;
    assert(is_ascii_text(sp));
    let bullets = strings_view(p.bullet_points@);
    let jb = join(bullets, sp);
    let w = p.title@ + sp + jb;
    assert(claim_source(p) == crate::text::unicode_lowercase(w));
    assert forall|i: int| 0 <= i < bullets.len() implies is_ascii_text(#[trigger] bullets[i]) by {
        assert(is_ascii_text(p.bullet_points@[i]@));
    }
    lemma_join_ascii(bullets, sp);
    lemma_concat_ascii(p.title@, sp);
    lemma_concat_ascii(p.title@ + sp, jb);
    assert(claim_source(p) == ascii_lower_text(w));
    let e = Seq::<char>::empty();
    let f: Seq<char> = if contains_spec(ascii_lower_text(p.title@), n) {
        lemma_infix_self(p.title@);
        lemma_infix_concat(p.title@, p.title@, e, sp + jb);
        assert(e + p.title@ + (sp + jb) =~= w);
        p.title@
    } else {
        let i = choose|i: int|
            0 <= i < p.bullet_points@.len() && contains_spec(
                ascii_lower_text(#[trigger] p.bullet_points@[i]@),
                n,
            );
        lemma_join_infix(bullets, sp, i);
        lemma_infix_self(jb);
        lemma_infix_concat(jb, jb, p.title@ + sp, e);
        assert(p.title@ + sp + jb + e =~= w);
        lemma_infix_trans(bullets[i], jb, w);
        bullets[i]
    };
    lemma_infix_lower(f, w);
    lemma_infix_contains(ascii_lower_text(f), ascii_lower_text(w), n);
}

proof fn lemma_strip_plain_prefix(x: Seq<char>, y: Seq<char>)
    requires
        forall|i: int| 0 <= i < x.len() ==> #[trigger] x[i] != '<' && x[i] != '>',
    ensures
        crate::keepa::strip_tags_from(x + y, false) == x + crate::keepa::strip_tags_from(y, false),
        crate::keepa::strip_tags_from(x + y, true) == crate::keepa::strip_tags_from(y, true),
    decreases x.len(),
{
    if x.len() == 0 {
        assert(x + y =~= y);
    } else {
        let r = x.drop_first();
        lemma_strip_plain_prefix(r, y);
        assert((x + y).drop_first() =~= r + y);
        assert((x + y)[0] == x[0]);
        assert(x + crate::keepa::strip_tags_from(y, false) =~= seq![x[0]] + (r
            + crate::keepa::strip_tags_from(y, false)));
    }
}

/// Cleaning drops a tag and what it holds: text with a tag cleans as the text without it.
pub proof fn clean_drops_tags(a: Seq<char>, b: Seq<char>, c: Seq<char>)
    requires
        forall|i: int| 0 <= i < a.len() ==> #[trigger] a[i] != '<' && a[i] != '>',
        forall|i: int| 0 <= i < b.len() ==> #[trigger] b[i] != '<' && b[i] != '>',
    ensures
        crate::keepa::clean_keepa_spec(a + seq!['<'] + b + seq!['>'] + c)
            == crate::keepa::clean_keepa_spec(a + c),
{
    let t = a + seq!['<'] + b + seq!['>'] + c;
    let tail = seq!['<'] + b + seq!['>'] + c;
    assert(t =~= a + tail);
    lemma_strip_plain_prefix(a, tail);
    assert(tail.drop_first() =~= b + (seq!['>'] + c));
    lemma_strip_plain_prefix(b, seq!['>'] + c);
    assert((seq!['>'] + c).drop_first() =~= c);
    lemma_strip_plain_prefix(a, c);
    assert(crate::keepa::strip_tags_from(t, false) == crate::keepa::strip_tags_from(a + c, false));
}

/// Without a link, the marketplace is the fallback with its ASCII letters lowered.
pub proof fn fallback_marketplace_is_lowered(a: Seq<char>, f: Seq<char>)
    requires
        a.len() == 10,
        forall|i: int|
            0 <= i < 10 ==> ('0' <= #[trigger] a[i] && a[i] <= '9') || ('A' <= a[i] && a[i] <= 'Z'),
        is_ascii_text(f),
    ensures
        normalize_spec(a, Some(f)) matches Some(Some((asin, market))) && asin == a && market.len()
            == f.len() && forall|i: int|
            0 <= i < f.len() ==> #[trigger] market[i] == if 'A' <= f[i] && f[i] <= 'Z' {
                ((f[i] as u32) + 32) as char
            } else {
                f[i]
            },
{
    lemma_plain_asin(a);
    let up = crate::text::ascii_upper_text(a);
    assert(up =~= a);
    assert(is_ascii_text(f));
    let m = ascii_lower_text(f);
    assert(forall|i: int| 0 <= i < f.len() ==> #[trigger] m[i] == crate::text::ascii_lower(f[i]));
}

proof fn lemma_link_domain_plain(d: Seq<char>)
    requires
        is_link_domain(d),
    ensures
        is_ascii_text(d),
        ascii_lower_text(d) == d,
        forall|i: int| 0 <= i < d.len() ==> #[trigger] d[i] != '/',
{
    reveal_strlit("com");
    reveal_strlit("co.uk");
    reveal_strlit("de");
    reveal_strlit("es");
    reveal_strlit("fr");
    reveal_strlit("it");
    reveal_strlit("co.jp");
    reveal_strlit("ca");
    reveal_strlit("com.mx");
    assert(is_ascii_text(d));
    assert(ascii_lower_text(d) =~= d);
}

proof fn lemma_find_first_at(h: Seq<char>, n: Seq<char>, i: int, p: int)
    requires
        0 <= i <= p,
        n.len() > 0,
        occurs_at(h, n, p),
        forall|j: int| i <= j < p ==> #[trigger] h[j] != n[0],
    ensures
        crate::text::find_from(h, n, i) == Some(p),
    decreases p - i,
{
    if i < p {
        assert(h.subrange(i, i + n.len())[0] == h[i]);
        lemma_find_first_at(h, n, i + 1, p);
    }
}

proof fn lemma_ascii_boundary(t: Seq<char>, k: int, q: int)
    requires
        is_ascii_text(t),
        0 <= q <= k <= t.len(),
    ensures
        crate::marketplace::byte_boundary_from(t, k, q) == Some(k),
    decreases k - q,
{
    assert(is_ascii_text(t.take(q))) by {
        assert forall|i: int| 0 <= i < t.take(q).len() implies (#[trigger] t.take(q)[i] as u32) < 0x80 by {
            assert(t.take(q)[i] == t[i]);
        }
    }
    lemma_utf8_len_ascii(t.take(q));
    if q < k {
        lemma_ascii_boundary(t, k, q + 1);
    }
}

/// A product link `amazon.{site}/dp/{ASIN}` (then anything) to one of the nine sites gives that
/// ASIN and that site, whatever the fallback marketplace.
pub proof fn product_link_gives_its_asin_and_site(
    d: Seq<char>,
    x: Seq<char>,
    rest: Seq<char>,
    fallback: Option<Seq<char>>,
)
    requires
        is_link_domain(d),
        x.len() == 10,
        forall|i: int|
            0 <= i < 10 ==> ('0' <= #[trigger] x[i] && x[i] <= '9') || ('A' <= x[i] && x[i] <= 'Z'),
        is_ascii_text(rest),
        rest.len() > 0 ==> !unicode_white_space(rest.last()),
    ensures
        normalize_spec(
            seq!['a', 'm', 'a', 'z', 'o', 'n', '.'] + d + seq!['/', 'd', 'p', '/'] + x + rest,
            fallback,
        ) == Some(Some((x, d))),
{
    reveal_strlit("amazon.");
    reveal_strlit("/dp/");
    reveal_strlit("/");
    let am = seq!['a', 'm', 'a', 'z', 'o', 'n', '.'];
    let dp = seq!['/', 'd', 'p', '/'];
    assert(am =~= "amazon."@);
    assert(dp =~= "/dp/"@);
    lemma_link_domain_plain(d);
    let t = am + d + dp + x + rest;
    assert(is_ascii_text(x));
    lemma_concat_ascii(am, d);
    lemma_concat_ascii(am + d, dp);
    lemma_concat_ascii(am + d + dp, x);
    lemma_concat_ascii(am + d + dp + x, rest);
    // Trimming keeps the input.
    assert(t[0] == 'a');
    assert(crate::text::trim_start_spec(t) == t);
    if rest.len() > 0 {
        assert(t.last() == rest.last());
    } else {
        assert(t.last() == x[9]);
    }
    assert(crate::text::trim_end_spec(t) == t);
    assert(crate::text::trim_spec(t) == t);
    // The lowercase form.
    let lx = ascii_lower_text(x);
    let lr = ascii_lower_text(rest);
    let l = crate::text::unicode_lowercase(t);
    assert(l == ascii_lower_text(t));
    assert(ascii_lower_text(am) =~= am);
    assert(ascii_lower_text(dp) =~= dp);
    assert(l =~= am + d + dp + lx + lr);
    // The host.
    assert(l.subrange(0, 7) =~= am);
    lemma_find_first_at(l, "amazon."@, 0, 0);
    let suffix = l.skip(7);
    assert(suffix =~= d + dp + lx + lr);
    assert(suffix.subrange(d.len() as int, d.len() as int + 1) =~= "/"@);
    assert forall|j: int| 0 <= j < d.len() implies #[trigger] suffix[j] != "/"@[0] by {
        assert(suffix[j] == d[j]);
    }
    lemma_find_first_at(suffix, "/"@, 0, d.len() as int);
    assert(suffix.take(d.len() as int) =~= d);
    assert(crate::marketplace::link_host_domain(l) == Some(d));
    // The product path.
    let p: int = 7 + d.len() as int;
    assert(l.subrange(p, p + 4) =~= "/dp/"@);
    assert forall|j: int| 0 <= j < p implies #[trigger] l[j] != "/dp/"@[0] by {
        if j >= 7 {
            assert(l[j] == d[j - 7]);
        }
    }
    lemma_find_first_at(l, "/dp/"@, 0, p);
    assert(crate::marketplace::path_marker(l) == Some((p, 4int)));
    lemma_find_from_found(l, "amazon."@, 0);
    assert(contains_spec(l, "amazon."@));
    assert(is_ascii_text(l.take(p))) by {
        assert forall|i: int| 0 <= i < l.take(p).len() implies (#[trigger] l.take(p)[i] as u32) < 0x80 by {
            assert(l.take(p)[i] == l[i]);
            assert(is_ascii_text(ascii_lower_text(t))) by {
                crate::text::lemma_ascii_lower_idempotent(t);
            }
        }
    }
    lemma_utf8_len_ascii(l.take(p));
    lemma_ascii_boundary(t, p + 4, 0);
    assert(t.skip(p + 4) =~= x + rest);
    assert(crate::text::take_upto(t.skip(p + 4), 10) =~= x);
    let up = crate::text::ascii_upper_text(x);
    assert(up =~= x);
    assert(crate::marketplace::asin_candidate(t, l) == Some(x));
    lemma_utf8_len_ascii(x);
    assert(crate::marketplace::is_valid_asin(x));
}

/// Starts with `&`, ends with `;`, and holds neither in between.
pub open spec fn entity_shaped(e: Seq<char>) -> bool {
    &&& e.len() >= 2
    &&& e[0] == '&'
    &&& e[e.len() - 1] == ';'
    &&& forall|i: int| 0 < i < e.len() - 1 ==> #[trigger] e[i] != '&' && e[i] != ';'
}

/// No `&` in the text.
pub open spec fn no_amp(x: Seq<char>) -> bool {
    forall|i: int| 0 <= i < x.len() ==> #[trigger] x[i] != '&'
}

/// No `;` in the text.
pub open spec fn no_semicolon(x: Seq<char>) -> bool {
    forall|i: int| 0 <= i < x.len() ==> #[trigger] x[i] != ';'
}

proof fn lemma_replace_plain_prefix(x: Seq<char>, y: Seq<char>, pat: Seq<char>, rep: Seq<char>)
    requires
        pat.len() > 0,
        forall|i: int| 0 <= i < x.len() ==> #[trigger] x[i] != pat[0],
    ensures
        crate::text::replace_all(x + y, pat, rep) == x + crate::text::replace_all(y, pat, rep),
    decreases x.len(),
{
    if x.len() == 0 {
        assert(x + y =~= y);
    } else {
        let s = x + y;
        if pat.len() <= s.len() {
            assert(s.take(pat.len() as int)[0] == x[0]);
        }
        assert(s.drop_first() =~= x.drop_first() + y);
        lemma_replace_plain_prefix(x.drop_first(), y, pat, rep);
        assert(x + crate::text::replace_all(y, pat, rep) =~= seq![x[0]] + (x.drop_first()
            + crate::text::replace_all(y, pat, rep)));
    }
}

proof fn lemma_replace_identity(x: Seq<char>, pat: Seq<char>, rep: Seq<char>)
    requires
        pat.len() > 0,
        forall|i: int| 0 <= i < x.len() ==> #[trigger] x[i] != pat[0],
    ensures
        crate::text::replace_all(x, pat, rep) == x,
{
    lemma_replace_plain_prefix(x, Seq::<char>::empty(), pat, rep);
    assert(x + Seq::<char>::empty() =~= x);
}

proof fn lemma_replace_at_start(pat: Seq<char>, y: Seq<char>, rep: Seq<char>)
    requires
        pat.len() > 0,
    ensures
        crate::text::replace_all(pat + y, pat, rep) == rep + crate::text::replace_all(y, pat, rep),
{
    let s = pat + y;
    assert(s.take(pat.len() as int) =~= pat);
    assert(s.skip(pat.len() as int) =~= y);
}

/// A text that starts with `&` but not with the entity `p`, and holds no other `&`, is left
/// as it is by the replacement of `p`.
proof fn lemma_replace_other_amp(s: Seq<char>, p: Seq<char>, rep: Seq<char>)
    requires
        entity_shaped(p),
        s.len() > 0,
        s[0] == '&',
        no_amp(s.drop_first()),
        !(p.len() <= s.len() && s.take(p.len() as int) == p),
    ensures
        crate::text::replace_all(s, p, rep) == s,
{
    lemma_replace_identity(s.drop_first(), p, rep);
    assert(seq![s[0]] + s.drop_first() =~= s);
}

proof fn lemma_entity_not_prefix(e: Seq<char>, b: Seq<char>, p: Seq<char>)
    requires
        entity_shaped(e),
        entity_shaped(p),
        e != p,
        no_semicolon(b),
    ensures
        !(p.len() <= (e + b).len() && (e + b).take(p.len() as int) == p),
{
    let s = e + b;
    if p.len() <= s.len() && s.take(p.len() as int) == p {
        if p.len() < e.len() {
            assert(s.take(p.len() as int)[p.len() - 1] == e[p.len() - 1]);
        } else if p.len() > e.len() {
            assert(s.take(p.len() as int)[e.len() - 1] == e[e.len() - 1]);
        } else {
            assert(e =~= p) by {
                assert forall|i: int| 0 <= i < e.len() implies e[i] == p[i] by {
                    assert(s.take(p.len() as int)[i] == e[i]);
                }
            }
        }
    }
}

proof fn lemma_amp_not_prefix(b: Seq<char>, p: Seq<char>)
    requires
        entity_shaped(p),
        no_semicolon(b),
    ensures
        !(p.len() <= (seq!['&'] + b).len() && (seq!['&'] + b).take(p.len() as int) == p),
{
    let s = seq!['&'] + b;
    if p.len() <= s.len() && s.take(p.len() as int) == p {
        assert(s.take(p.len() as int)[p.len() - 1] == b[p.len() - 2]);
    }
}

/// One replacement pass over `a + e + b`, where `e` is not the pass's entity.
proof fn lemma_pass_other(a: Seq<char>, e: Seq<char>, b: Seq<char>, p: Seq<char>, rep: Seq<char>)
    requires
        no_amp(a),
        no_amp(b),
        no_semicolon(b),
        entity_shaped(e),
        entity_shaped(p),
        e != p,
    ensures
        crate::text::replace_all(a + e + b, p, rep) == a + e + b,
{
    lemma_replace_plain_prefix(a, e + b, p, rep);
    lemma_entity_not_prefix(e, b, p);
    assert((e + b).drop_first() =~= e.drop_first() + b);
    assert(no_amp((e + b).drop_first()));
    lemma_replace_other_amp(e + b, p, rep);
    assert(a + e + b =~= a + (e + b));
}

/// One replacement pass over `a + "&" + b`.
proof fn lemma_pass_amp(a: Seq<char>, b: Seq<char>, p: Seq<char>, rep: Seq<char>)
    requires
        no_amp(a),
        no_amp(b),
        no_semicolon(b),
        entity_shaped(p),
    ensures
        crate::text::replace_all(a + seq!['&'] + b, p, rep) == a + seq!['&'] + b,
{
    let s = seq!['&'] + b;
    lemma_replace_plain_prefix(a, s, p, rep);
    lemma_amp_not_prefix(b, p);
    assert(s.drop_first() =~= b);
    lemma_replace_other_amp(s, p, rep);
    assert(a + seq!['&'] + b =~= a + s);
}

/// One replacement pass over `a + e + b`, where `e` is the pass's entity.
proof fn lemma_pass_own(a: Seq<char>, e: Seq<char>, b: Seq<char>, rep: Seq<char>)
    requires
        no_amp(a),
        no_amp(b),
        entity_shaped(e),
    ensures
        crate::text::replace_all(a + e + b, e, rep) == a + rep + b,
{
    lemma_replace_plain_prefix(a, e + b, e, rep);
    lemma_replace_at_start(e, b, rep);
    lemma_replace_identity(b, e, rep);
    assert(a + e + b =~= a + (e + b));
    assert(a + (rep + b) =~= a + rep + b);
}

/// A text without `&` passes a replacement of an entity unchanged.
proof fn lemma_pass_plain(x: Seq<char>, p: Seq<char>, rep: Seq<char>)
    requires
        no_amp(x),
        entity_shaped(p),
    ensures
        crate::text::replace_all(x, p, rep) == x,
{
    lemma_replace_identity(x, p, rep);
}

/// Each of the five entities decodes to its character, wherever it stands among text without
/// `&` (and without `;` after it).
pub proof fn entities_decode_to_their_characters(a: Seq<char>, b: Seq<char>)
    requires
        no_amp(a),
        no_amp(b),
        no_semicolon(b),
    ensures
        crate::keepa::decode_entities(a + seq!['&', 'a', 'm', 'p', ';'] + b) == a + seq!['&'] + b,
        crate::keepa::decode_entities(a + seq!['&', 'q', 'u', 'o', 't', ';'] + b) == a + seq!['"']
            + b,
        crate::keepa::decode_entities(a + seq!['&', '#', '3', '9', ';'] + b) == a + seq!['\''] + b,
        crate::keepa::decode_entities(a + seq!['&', 'l', 't', ';'] + b) == a + seq!['<'] + b,
        crate::keepa::decode_entities(a + seq!['&', 'g', 't', ';'] + b) == a + seq!['>'] + b,
{
    reveal_strlit("&amp;");
    reveal_strlit("&quot;");
    reveal_strlit("&#39;");
    reveal_strlit("&lt;");
    reveal_strlit("&gt;");
    reveal_strlit("&");
    reveal_strlit("\"");
    reveal_strlit("'");
    reveal_strlit("<");
    reveal_strlit(">");
    let e1 = seq!['&', 'a', 'm', 'p', ';'];
    let e2 = seq!['&', 'q', 'u', 'o', 't', ';'];
    let e3 = seq!['&', '#', '3', '9', ';'];
    let e4 = seq!['&', 'l', 't', ';'];
    let e5 = seq!['&', 'g', 't', ';'];
    assert(e1 =~= "&amp;"@);
    assert(e2 =~= "&quot;"@);
    assert(e3 =~= "&#39;"@);
    assert(e4 =~= "&lt;"@);
    assert(e5 =~= "&gt;"@);
    assert("&"@ =~= seq!['&']);
    assert("\""@ =~= seq!['"']);
    assert("'"@ =~= seq!['\'']);
    assert("<"@ =~= seq!['<']);
    assert(">"@ =~= seq!['>']);
    assert(entity_shaped(e1));
    assert(entity_shaped(e2));
    assert(entity_shaped(e3));
    assert(entity_shaped(e4));
    assert(entity_shaped(e5));
    assert(e1 != e2 && e1 != e3 && e1 != e4 && e1 != e5) by {
        assert(e1[1] != e2[1] && e1[1] != e3[1] && e1[1] != e4[1] && e1[1] != e5[1]);
    }
    assert(e2 != e3 && e2 != e4 && e2 != e5) by {
        assert(e2[1] != e3[1] && e2[1] != e4[1] && e2[1] != e5[1]);
    }
    assert(e3 != e4 && e3 != e5) by {
        assert(e3[1] != e4[1] && e3[1] != e5[1]);
    }
    assert(e4 != e5) by {
        assert(e4[1] != e5[1]);
    }
    // &amp;
    lemma_pass_own(a, e1, b, seq!['&']);
    lemma_pass_amp(a, b, e2, seq!['"']);
    lemma_pass_amp(a, b, e3, seq!['\'']);
    lemma_pass_amp(a, b, e4, seq!['<']);
    lemma_pass_amp(a, b, e5, seq!['>']);
    // &quot;
    let q = a + seq!['"'] + b;
    assert(no_amp(q));
    lemma_pass_other(a, e2, b, e1, seq!['&']);
    lemma_pass_own(a, e2, b, seq!['"']);
    lemma_pass_plain(q, e3, seq!['\'']);
    lemma_pass_plain(q, e4, seq!['<']);
    lemma_pass_plain(q, e5, seq!['>']);
    // &#39;
    let r = a + seq!['\''] + b;
    assert(no_amp(r));
    lemma_pass_other(a, e3, b, e1, seq!['&']);
    lemma_pass_other(a, e3, b, e2, seq!['"']);
    lemma_pass_own(a, e3, b, seq!['\'']);
    lemma_pass_plain(r, e4, seq!['<']);
    lemma_pass_plain(r, e5, seq!['>']);
    // &lt;
    let u = a + seq!['<'] + b;
    assert(no_amp(u));
    lemma_pass_other(a, e4, b, e1, seq!['&']);
    lemma_pass_other(a, e4, b, e2, seq!['"']);
    lemma_pass_other(a, e4, b, e3, seq!['\'']);
    lemma_pass_own(a, e4, b, seq!['<']);
    lemma_pass_plain(u, e5, seq!['>']);
    // &gt;
    lemma_pass_other(a, e5, b, e1, seq!['&']);
    lemma_pass_other(a, e5, b, e2, seq!['"']);
    lemma_pass_other(a, e5, b, e3, seq!['\'']);
    lemma_pass_other(a, e5, b, e4, seq!['<']);
    lemma_pass_own(a, e5, b, seq!['>']);
}


/// A run of characters without whitespace extends the word already begun.
proof fn lemma_word_accumulates(x: Seq<char>, y: Seq<char>, cur: Seq<char>)
    requires
        crate::text::has_no_white_space(x),
    ensures
        crate::text::words_from(x + y, cur) == crate::text::words_from(y, cur + x),
    decreases x.len(),
{
    if x.len() == 0 {
        assert(x + y =~= y);
        assert(cur + x =~= cur);
    } else {
        let r = x.drop_first();
        assert((x + y).drop_first() =~= r + y);
        assert((x + y)[0] == x[0]);
        assert(crate::text::has_no_white_space(r)) by {
            assert forall|i: int| 0 <= i < r.len() implies !unicode_white_space(#[trigger] r[i]) by {
                assert(r[i] == x[i + 1]);
            }
        }
        lemma_word_accumulates(r, y, cur.push(x[0]));
        assert(cur.push(x[0]) + r =~= cur + x);
    }
}

/// A run of whitespace between words is skipped.
proof fn lemma_white_run_skipped(w: Seq<char>, y: Seq<char>)
    requires
        forall|i: int| 0 <= i < w.len() ==> unicode_white_space(#[trigger] w[i]),
    ensures
        crate::text::words_from(w + y, seq![]) == crate::text::words_from(y, seq![]),
    decreases w.len(),
{
    if w.len() == 0 {
        assert(w + y =~= y);
    } else {
        let r = w.drop_first();
        assert((w + y).drop_first() =~= r + y);
        assert((w + y)[0] == w[0]);
        assert forall|i: int| 0 <= i < r.len() implies unicode_white_space(#[trigger] r[i]) by {
            assert(r[i] == w[i + 1]);
        }
        lemma_white_run_skipped(r, y);
    }
}

/// A non-empty text without whitespace is one word.
proof fn lemma_single_word(x: Seq<char>)
    requires
        x.len() > 0,
        crate::text::has_no_white_space(x),
    ensures
        crate::text::words(x) == seq![x],
{
    lemma_word_accumulates(x, seq![], seq![]);
    assert(x + Seq::<char>::empty() =~= x);
    assert(Seq::<char>::empty() + x =~= x);
}

/// Text free of whitespace, tags and `&`.
pub open spec fn plain_word(x: Seq<char>) -> bool {
    forall|i: int|
        0 <= i < x.len() ==> !unicode_white_space(#[trigger] x[i]) && x[i] != '<' && x[i] != '>'
            && x[i] != '&'
}

/// Keepa text keeps its words and separates them by one space, whatever whitespace ran
/// between them.
pub proof fn clean_collapses_whitespace(a: Seq<char>, w: Seq<char>, b: Seq<char>)
    requires
        a.len() > 0,
        b.len() > 0,
        w.len() > 0,
        plain_word(a),
        plain_word(b),
        forall|i: int| 0 <= i < w.len() ==> unicode_white_space(#[trigger] w[i]),
    ensures
        crate::keepa::clean_keepa_spec(a + w + b) == a + seq![' '] + b,
        crate::keepa::clean_keepa_spec(a) == a,
{
    reveal_strlit(" ");
    let t = a + w + b;
    assert forall|i: int| 0 <= i < t.len() implies #[trigger] t[i] != '<' && t[i] != '>' by {
        if i < a.len() {
            assert(t[i] == a[i]);
        } else if i < a.len() + w.len() {
            assert(t[i] == w[i - a.len()]);
        } else {
            assert(t[i] == b[i - a.len() - w.len()]);
        }
    }
    lemma_strip_plain_prefix(t, seq![]);
    assert(t + Seq::<char>::empty() =~= t);
    lemma_strip_plain_prefix(a, seq![]);
    assert(a + Seq::<char>::empty() =~= a);
    assert(no_amp(t)) by {
        assert forall|i: int| 0 <= i < t.len() implies #[trigger] t[i] != '&' by {
            if i < a.len() {
                assert(t[i] == a[i]);
            } else if i < a.len() + w.len() {
                assert(t[i] == w[i - a.len()]);
            } else {
                assert(t[i] == b[i - a.len() - w.len()]);
            }
        }
    }
    lemma_decode_plain(t);
    lemma_decode_plain(a);
    assert(crate::text::has_no_white_space(a));
    assert(crate::text::has_no_white_space(b));
    lemma_single_word(a);
    // the words of a + w + b
    assert(t =~= a + (w + b));
    lemma_word_accumulates(a, w + b, seq![]);
    assert(Seq::<char>::empty() + a =~= a);
    let wr = w.drop_first();
    assert((w + b).drop_first() =~= wr + b);
    assert((w + b)[0] == w[0]);
    assert forall|i: int| 0 <= i < wr.len() implies unicode_white_space(#[trigger] wr[i]) by {
        assert(wr[i] == w[i + 1]);
    }
    lemma_white_run_skipped(wr, b);
    lemma_single_word(b);
    assert(crate::text::words(t) == seq![a] + seq![b]);
    assert(seq![a] + seq![b] =~= seq![a, b]);
    let parts = seq![a, b];
    assert(parts.drop_last() =~= seq![a]);
    assert(join(parts, " "@) == join(seq![a], " "@) + " "@ + b);
    assert(" "@ =~= seq![' ']);
}

/// Decoding leaves a text without `&` unchanged.
proof fn lemma_decode_plain(x: Seq<char>)
    requires
        no_amp(x),
    ensures
        crate::keepa::decode_entities(x) == x,
{
    reveal_strlit("&amp;");
    reveal_strlit("&quot;");
    reveal_strlit("&#39;");
    reveal_strlit("&lt;");
    reveal_strlit("&gt;");
    assert("&amp;"@[0] == '&' && "&quot;"@[0] == '&' && "&#39;"@[0] == '&' && "&lt;"@[0] == '&'
        && "&gt;"@[0] == '&');
    lemma_replace_identity(x, "&amp;"@, "&"@);
    lemma_replace_identity(x, "&quot;"@, "\""@);
    lemma_replace_identity(x, "&#39;"@, "'"@);
    lemma_replace_identity(x, "&lt;"@, "<"@);
    lemma_replace_identity(x, "&gt;"@, ">"@);
}


/// Text without tags that decodes to one word cleans to that word.
proof fn lemma_clean_one_word(t: Seq<char>, r: Seq<char>)
    requires
        forall|i: int| 0 <= i < t.len() ==> #[trigger] t[i] != '<' && t[i] != '>',
        crate::keepa::decode_entities(t) == r,
        r.len() > 0,
        crate::text::has_no_white_space(r),
    ensures
        crate::keepa::clean_keepa_spec(t) == r,
{
    lemma_strip_plain_prefix(t, seq![]);
    assert(t + Seq::<char>::empty() =~= t);
    lemma_single_word(r);
}

/// The word with one entity, as the word and entity it is made of.
proof fn lemma_entity_word(a: Seq<char>, e: Seq<char>, b: Seq<char>, c: char)
    requires
        plain_word(a),
        plain_word(b),
        forall|i: int| 0 <= i < e.len() ==> #[trigger] e[i] != '<' && e[i] != '>',
        !unicode_white_space(c),
        crate::keepa::decode_entities(a + e + b) == a + seq![c] + b,
    ensures
        crate::keepa::clean_keepa_spec(a + e + b) == a + seq![c] + b,
{
    let t = a + e + b;
    assert forall|i: int| 0 <= i < t.len() implies #[trigger] t[i] != '<' && t[i] != '>' by {
        if i < a.len() {
            assert(t[i] == a[i]);
        } else if i < a.len() + e.len() {
            assert(t[i] == e[i - a.len()]);
        } else {
            assert(t[i] == b[i - a.len() - e.len()]);
        }
    }
    let r = a + seq![c] + b;
    assert forall|i: int| 0 <= i < r.len() implies !unicode_white_space(#[trigger] r[i]) by {
        if i < a.len() {
            assert(r[i] == a[i]);
        } else if i == a.len() {
            assert(r[i] == c);
        } else {
            assert(r[i] == b[i - a.len() - 1]);
        }
    }
    lemma_clean_one_word(t, r);
}

/// In Keepa text, tags are dropped before entities are decoded: an encoded `<`, `>`, `&`, `"` or
/// `'` inside a word reads as that character.
pub proof fn clean_decodes_entities_after_dropping_tags(a: Seq<char>, b: Seq<char>)
    requires
        plain_word(a),
        plain_word(b),
        no_semicolon(b),
    ensures
        crate::keepa::clean_keepa_spec(a + seq!['&', 'a', 'm', 'p', ';'] + b) == a + seq!['&'] + b,
        crate::keepa::clean_keepa_spec(a + seq!['&', 'q', 'u', 'o', 't', ';'] + b) == a + seq!['"']
            + b,
        crate::keepa::clean_keepa_spec(a + seq!['&', '#', '3', '9', ';'] + b) == a + seq!['\'']
            + b,
        crate::keepa::clean_keepa_spec(a + seq!['&', 'l', 't', ';'] + b) == a + seq!['<'] + b,
        crate::keepa::clean_keepa_spec(a + seq!['&', 'g', 't', ';'] + b) == a + seq!['>'] + b,
{
    assert(no_amp(a) && no_amp(b));
    entities_decode_to_their_characters(a, b);
    lemma_entity_word(a, seq!['&', 'a', 'm', 'p', ';'], b, '&');
    lemma_entity_word(a, seq!['&', 'q', 'u', 'o', 't', ';'], b, '"');
    lemma_entity_word(a, seq!['&', '#', '3', '9', ';'], b, '\'');
    lemma_entity_word(a, seq!['&', 'l', 't', ';'], b, '<');
    lemma_entity_word(a, seq!['&', 'g', 't', ';'], b, '>');
}


/// A failed model exchange is reported with the stage at which it failed, and a reply that is
/// not the expected JSON with the parser's message.
pub proof fn model_failures_name_their_cause(m: String)
    ensures
        crate::llm::llm_stage_prefix(crate::llm::LlmStage::Request) == "产品分析模型请求失败："@,
        crate::llm::llm_stage_prefix(crate::llm::LlmStage::Status) == "产品分析模型响应失败："@,
        crate::llm::llm_stage_prefix(crate::llm::LlmStage::Body) == "无法解析产品分析响应："@,
        llm_failure_reason(LlmFailure::InvalidJson(m)) == "JSON 结构错误："@ + m@,
{
}


/// All characters of `w` are whitespace.
pub open spec fn all_white(w: Seq<char>) -> bool {
    forall|i: int| 0 <= i < w.len() ==> unicode_white_space(#[trigger] w[i])
}

proof fn lemma_trim_start_skips(l: Seq<char>, x: Seq<char>)
    requires
        all_white(l),
    ensures
        crate::text::trim_start_spec(l + x) == crate::text::trim_start_spec(x),
    decreases l.len(),
{
    if l.len() == 0 {
        assert(l + x =~= x);
    } else {
        let r = l.drop_first();
        assert((l + x).drop_first() =~= r + x);
        assert((l + x)[0] == l[0]);
        assert forall|i: int| 0 <= i < r.len() implies unicode_white_space(#[trigger] r[i]) by {
            assert(r[i] == l[i + 1]);
        }
        lemma_trim_start_skips(r, x);
    }
}

proof fn lemma_trim_end_skips(x: Seq<char>, r: Seq<char>)
    requires
        all_white(r),
    ensures
        crate::text::trim_end_spec(x + r) == crate::text::trim_end_spec(x),
    decreases r.len(),
{
    if r.len() == 0 {
        assert(x + r =~= x);
    } else {
        let f = r.drop_last();
        assert((x + r).drop_last() =~= x + f);
        assert((x + r).last() == r.last());
        assert forall|i: int| 0 <= i < f.len() implies unicode_white_space(#[trigger] f[i]) by {
            assert(f[i] == r[i]);
        }
        lemma_trim_end_skips(x, f);
    }
}

/// Trimming drops exactly the whitespace around a text: whatever whitespace surrounds a text
/// that neither starts nor ends with whitespace, trimming gives that text back.
pub proof fn trim_drops_surrounding_whitespace(l: Seq<char>, m: Seq<char>, r: Seq<char>)
    requires
        all_white(l),
        all_white(r),
        m.len() > 0 ==> !unicode_white_space(m[0]) && !unicode_white_space(m.last()),
    ensures
        crate::text::trim_spec(l + m + r) == m,
{
    assert(l + m + r =~= l + (m + r));
    lemma_trim_start_skips(l, m + r);
    if m.len() == 0 {
        assert(m + r =~= r);
        assert(r + Seq::<char>::empty() =~= r);
        lemma_trim_start_skips(r, Seq::<char>::empty());
        assert(crate::text::trim_start_spec(Seq::<char>::empty()) =~= Seq::<char>::empty());
    } else {
        assert((m + r)[0] == m[0]);
        lemma_trim_end_skips(m, r);
    }
}


/// A text holds a phrase exactly when the phrase stands somewhere in it, and the search finds
/// its first place.
pub proof fn contains_means_stands_somewhere(h: Seq<char>, n: Seq<char>)
    ensures
        contains_spec(h, n) <==> is_infix(n, h),
        find_spec(h, n) matches Some(j) ==> occurs_at(h, n, j) && forall|k: int|
            0 <= k < j ==> !occurs_at(h, n, k),
{
    lemma_find_from_found(h, n, 0);
    if is_infix(n, h) {
        let a = choose|a: int| 0 <= a && a + n.len() <= h.len() && #[trigger] h.subrange(a, a + n.len()) == n;
        lemma_find_from_reaches(h, n, 0, a);
    }
    if find_spec(h, n) is Some {
        let j = find_spec(h, n).unwrap();
        assert(h.subrange(j, j + n.len()) == n);
        assert forall|k: int| 0 <= k < j implies !occurs_at(h, n, k) by {
            if occurs_at(h, n, k) {
                lemma_find_from_reaches(h, n, 0, k);
            }
        }
    }
}


proof fn lemma_last_index_skips(x: Seq<char>, q: Seq<char>, c: char)
    requires
        forall|i: int| 0 <= i < q.len() ==> #[trigger] q[i] != c,
    ensures
        crate::llm::last_index_of(x + q, c) == crate::llm::last_index_of(x, c),
    decreases q.len(),
{
    if q.len() == 0 {
        assert(x + q =~= x);
    } else {
        let f = q.drop_last();
        assert((x + q).drop_last() =~= x + f);
        assert((x + q).last() == q.last());
        assert forall|i: int| 0 <= i < f.len() implies #[trigger] f[i] != c by {
            assert(f[i] == q[i]);
        }
        lemma_last_index_skips(x, f, c);
    }
}

/// The object read from a model's reply is the part from its first `{` to its last `}`.
pub proof fn braced_part_is_the_object(p: Seq<char>, m: Seq<char>, q: Seq<char>)
    requires
        forall|i: int| 0 <= i < p.len() ==> #[trigger] p[i] != '{',
        forall|i: int| 0 <= i < q.len() ==> #[trigger] q[i] != '}',
    ensures
        crate::llm::json_object_spec(p + seq!['{'] + m + seq!['}'] + q) == Some(
            seq!['{'] + m + seq!['}'],
        ),
{
    reveal_strlit("{");
    let open = "{"@;
    assert(open =~= seq!['{']);
    let x = p + seq!['{'] + m + seq!['}'] + q;
    let a = p.len() as int;
    let b = a + m.len() + 1;
    assert(x.subrange(a, a + 1) =~= open);
    assert(occurs_at(x, open, a));
    lemma_find_from_reaches(x, open, 0, a);
    lemma_find_from_found(x, open, 0);
    let k = find_spec(x, open).unwrap();
    assert(x.subrange(k, k + 1)[0] == x[k]);
    if k < a {
        assert(x[k] == p[k]);
    }
    assert(k == a);
    let y = p + seq!['{'] + m + seq!['}'];
    assert(x =~= y + q);
    lemma_last_index_skips(y, q, '}');
    assert(y.last() == '}');
    assert(crate::llm::last_index_of(y, '}') == Some(b));
    assert(x.subrange(a, b + 1) =~= seq!['{'] + m + seq!['}']);
}


/// Features that all clean to some text are kept, each cleaned, in their order.
pub proof fn cleaned_features_keep_their_order(fs: Seq<Seq<char>>)
    requires
        forall|i: int| 0 <= i < fs.len() ==> crate::keepa::clean_keepa_spec(#[trigger] fs[i]).len() > 0,
    ensures
        crate::keepa::cleaned_features(fs).len() == fs.len(),
        forall|i: int|
            0 <= i < fs.len() ==> #[trigger] crate::keepa::cleaned_features(fs)[i]
                == crate::keepa::clean_keepa_spec(fs[i]),
    decreases fs.len(),
{
    if fs.len() > 0 {
        let f = fs.drop_last();
        assert forall|i: int| 0 <= i < f.len() implies crate::keepa::clean_keepa_spec(#[trigger] f[i]).len()
            > 0 by {
            assert(f[i] == fs[i]);
        }
        cleaned_features_keep_their_order(f);
        assert(crate::keepa::clean_keepa_spec(fs[fs.len() - 1]).len() > 0);
        assert forall|i: int| 0 <= i < fs.len() implies #[trigger] crate::keepa::cleaned_features(fs)[i]
            == crate::keepa::clean_keepa_spec(fs[i]) by {
            if i < f.len() {
                assert(f[i] == fs[i]);
            }
        }
    }
}

/// A feature that cleans to nothing is dropped and leaves the others as they were.
pub proof fn blank_feature_is_dropped(fs: Seq<Seq<char>>, x: Seq<char>)
    requires
        crate::keepa::clean_keepa_spec(x).len() == 0,
    ensures
        crate::keepa::cleaned_features(fs.push(x)) == crate::keepa::cleaned_features(fs),
{
    assert(fs.push(x).drop_last() =~= fs);
}

/// A product's bullet points are the first five of its cleaned features, or all of them when
/// there are fewer; a product without features has none.
pub proof fn bullets_are_the_first_five_features(features: Vec<String>)
    ensures
        ({
            let all = crate::keepa::cleaned_features(strings_view(features@));
            let b = crate::keepa::keepa_bullets(Some(features));
            &&& b.len() == if all.len() < 5 { all.len() } else { 5 }
            &&& forall|k: int| 0 <= k < b.len() ==> #[trigger] b[k] == all[k]
        }),
        crate::keepa::keepa_bullets(None) == Seq::<Seq<char>>::empty(),
{
}

} // verus!
