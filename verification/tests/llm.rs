use hookpop::error::{BAD_GATEWAY, SERVICE_UNAVAILABLE};
use hookpop::llm::{
    content_is_blank, json_candidates, llm_endpoint, llm_transport_error, require_llm_key,
    LlmAttempts, LlmFailure, LlmStage, LlmStep, LLM_EMPTY_CONTENT, LLM_KEY_MISSING,
};

#[test]
fn endpoint_drops_trailing_slashes() {
    assert_eq!(llm_endpoint("https://api.deepseek.com"), "https://api.deepseek.com/chat/completions");
    assert_eq!(llm_endpoint("https://api.deepseek.com///"), "https://api.deepseek.com/chat/completions");
    assert_eq!(llm_endpoint(""), "/chat/completions");
}

#[test]
fn key_is_required() {
    assert_eq!(require_llm_key(Some("sk")).ok(), Some("sk"));
    let e = require_llm_key(None).err().unwrap();
    assert_eq!(e.status, SERVICE_UNAVAILABLE);
    assert_eq!(e.message, LLM_KEY_MISSING);
}

#[test]
fn blank_content() {
    assert!(content_is_blank(""));
    assert!(content_is_blank(" \n\t "));
    assert!(!content_is_blank(" {} "));
}

#[test]
fn fenced_json_is_unwrapped() {
    let c = json_candidates("```json\n{\"a\": 1}\n```");
    assert_eq!(c.body, "{\"a\": 1}");
    assert_eq!(c.object, Some("{\"a\": 1}".to_string()));
    assert_eq!(json_candidates("  ```JSON {\"b\":2}```  ").body, "{\"b\":2}");
    assert_eq!(json_candidates("```\n[1]\n```").body, "[1]");
    assert_eq!(json_candidates("{\"c\":3}").body, "{\"c\":3}");
}

#[test]
fn braced_part_is_offered_as_second_try() {
    let c = json_candidates("Here it is: {\"a\": {\"b\": 1}} hope it helps");
    assert_eq!(c.body, "Here it is: {\"a\": {\"b\": 1}} hope it helps");
    assert_eq!(c.object, Some("{\"a\": {\"b\": 1}}".to_string()));
    assert_eq!(json_candidates("} nothing {").object, None);
    assert_eq!(json_candidates("no braces").object, None);
}

#[test]
fn attempts_retry_once_then_give_up() {
    let mut a = LlmAttempts::new("P".to_string());
    assert_eq!(a.attempt_prompt(), "P");
    assert!(matches!(a.record_failure(LlmFailure::EmptyContent), LlmStep::Retry));
    assert_eq!(
        a.attempt_prompt(),
        format!("P\n\nRETRY: The previous output failed validation: {LLM_EMPTY_CONTENT}. Return one corrected, complete JSON object without markdown fences.")
    );
    match a.record_failure(LlmFailure::InvalidJson("expected value".into())) {
        LlmStep::GiveUp(e) => {
            assert_eq!(e.status, BAD_GATEWAY);
            assert_eq!(e.message, "模型连续两次未返回可用结果：JSON 结构错误：expected value");
        }
        LlmStep::Retry => panic!("expected to give up"),
    }
}

#[test]
fn invalid_json_reason_is_recorded() {
    let mut a = LlmAttempts::new("P".to_string());
    assert!(matches!(a.record_failure(LlmFailure::InvalidJson("eof".into())), LlmStep::Retry));
    assert_eq!(a.last_error, "JSON 结构错误：eof");
    assert!(a.attempt_prompt().contains("failed validation: JSON 结构错误：eof."));
}

#[test]
fn transport_errors() {
    let e = llm_transport_error(LlmStage::Request, "timeout");
    assert_eq!(e.status, BAD_GATEWAY);
    assert_eq!(e.message, "产品分析模型请求失败：timeout");
    assert_eq!(llm_transport_error(LlmStage::Status, "500").message, "产品分析模型响应失败：500");
    assert_eq!(llm_transport_error(LlmStage::Body, "eof").message, "无法解析产品分析响应：eof");
}

#[test]
fn fenced_serde_output_gives_the_bare_text() {
    let v: serde_json::Value = serde_json::from_str("{ \"scripts\": [1, 2], \"x\": \"a b\" }").unwrap();
    let s = serde_json::to_string(&v).unwrap();
    for content in [s.clone(), format!("```json\n{s}\n```"), format!("```JSON\n{s}\n```"), format!("```\n{s}\n```")] {
        let c = json_candidates(&content);
        assert_eq!(c.body, s);
        let v: serde_json::Value = serde_json::from_str(&c.body).unwrap();
        assert_eq!(serde_json::to_string(&v).unwrap(), s);
    }
}
