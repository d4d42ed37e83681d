//! The language-model exchange: the endpoint, the bounded retry of a request whose reply is
//! empty or not valid JSON, and the extraction of the JSON text from a reply.

use vstd::prelude::*;
use crate::error::{ApiError, BAD_GATEWAY, SERVICE_UNAVAILABLE};
use crate::text::{
    chars_of, find_chars, find_spec, string_of, sub_chars, trim_chars,
    trim_spec, trim_start_spec, trim_end_spec, unicode_white_space,
};

verus! {

/// No model API key is configured.
pub const LLM_KEY_MISSING: &'static str =
    "尚未配置 DEEPSEEK_API_KEY，请在 backend/.env 中配置密钥并重启后端。";

/// The reason recorded for a reply without content.
pub const LLM_EMPTY_CONTENT: &'static str = "模型返回了空内容";

/// How many times one request is sent at most.
pub const LLM_ATTEMPTS: u32 = 2;

/// The configured model API key, or the 503 error for a missing one.
pub fn require_llm_key<'a>(key: Option<&'a str>) -> (r: Result<&'a str, ApiError>)
    ensures
        key matches Some(k) ==> r == Ok::<&'a str, ApiError>(k),
        key is None ==> (r matches Err(e) && e.status == SERVICE_UNAVAILABLE && e.message@
            == LLM_KEY_MISSING@),
{
    match key {
        Some(k) => Ok(k),
        None => Err(ApiError::service_unavailable(String::from_str(LLM_KEY_MISSING))),
    }
}

/// `s` without its trailing run of `c` (std's `trim_end_matches` with a character).
pub open spec fn trim_end_char(s: Seq<char>, c: char) -> Seq<char>
    decreases s.len(),
{
    if s.len() > 0 && s.last() == c {
        trim_end_char(s.drop_last(), c)
    } else {
        s
    }
}

/// The chat completions endpoint under a base URL.
pub open spec fn llm_endpoint_spec(base_url: Seq<char>) -> Seq<char> {
    trim_end_char(base_url, '/') + "/chat/completions"@
}

/// The chat completions endpoint: the base URL without trailing slashes, then
/// `/chat/completions`.
pub fn llm_endpoint(base_url: &str) -> (r: String)
    ensures
        r@ == llm_endpoint_spec(base_url@),
{
    let cs = chars_of(base_url);
    let mut n = cs.len();
    assert(cs@.take(n as int) =~= cs@);
    while n > 0 && cs[n - 1] == '/'
        invariant
            n <= cs@.len(),
            trim_end_char(cs@, '/') == trim_end_char(cs@.take(n as int), '/'),
        decreases n,
    {
        assert(cs@.take(n as int).drop_last() =~= cs@.take(n - 1));
        n = n - 1;
    }
    let kept = sub_chars(cs.as_slice(), 0, n);
    assert(kept@ =~= cs@.take(n as int));
    let mut r = string_of(kept.as_slice());
    r.append("/chat/completions");
    r
}

/// Whether a reply's content is empty once trimmed.
pub fn content_is_blank(content: &str) -> (b: bool)
    ensures
        b == (trim_spec(content@).len() == 0),
{
    let cs = chars_of(content);
    let t = trim_chars(cs.as_slice());
    t.len() == 0
}

/// The stage of a model exchange at which the transport failed.
pub enum LlmStage {
    /// The request could not be sent.
    Request,
    /// The reply had an error status.
    Status,
    /// The reply body could not be read as JSON.
    Body,
}

/// The message prefix for a transport failure at a stage.
pub open spec fn llm_stage_prefix(stage: LlmStage) -> Seq<char> {
    match stage {
        LlmStage::Request => "产品分析模型请求失败："@,
        LlmStage::Status => "产品分析模型响应失败："@,
        LlmStage::Body => "无法解析产品分析响应："@,
    }
}

/// The 502 error for a transport failure at `stage`, described by `detail`.
pub fn llm_transport_error(stage: LlmStage, detail: &str) -> (e: ApiError)
    ensures
        e.status == BAD_GATEWAY,
        e.message@ == llm_stage_prefix(stage) + detail@,
{
    let mut m = match stage {
        LlmStage::Request => String::from_str("产品分析模型请求失败："),
        LlmStage::Status => String::from_str("产品分析模型响应失败："),
        LlmStage::Body => String::from_str("无法解析产品分析响应："),
    };
    m.append(detail);
    ApiError::bad_gateway(m)
}

/// Why a reply was not usable.
pub enum LlmFailure {
    /// The reply had no content.
    EmptyContent,
    /// The content was not the expected JSON; the parser's message.
    InvalidJson(String),
}

/// The reason recorded for a failure.
pub open spec fn llm_failure_reason(f: LlmFailure) -> Seq<char> {
    match f {
        LlmFailure::EmptyContent => LLM_EMPTY_CONTENT@,
        LlmFailure::InvalidJson(m) => "JSON 结构错误："@ + m@,
    }
}

/// The prompt for an attempt: the prompt itself at first, then with a request to correct the
/// reason the previous reply failed.
pub open spec fn attempt_prompt_spec(prompt: Seq<char>, attempt: u32, last_error: Seq<char>) -> Seq<
    char,
> {
    if attempt == 0 {
        prompt
    } else {
        prompt + "\n\nRETRY: The previous output failed validation: "@ + last_error
            + ". Return one corrected, complete JSON object without markdown fences."@
    }
}

/// The attempts of one model request: the prompt, how many attempts have failed, and the
/// reason of the last failure.
pub struct LlmAttempts {
    pub prompt: String,
    pub attempt: u32,
    pub last_error: String,
}

/// What follows an unusable reply.
pub enum LlmStep {
    /// Send the request again.
    Retry,
    /// Stop with this error.
    GiveUp(ApiError),
}

impl LlmAttempts {
    /// No attempt made yet.
    pub fn new(prompt: String) -> (r: Self)
        ensures
            r.prompt@ == prompt@,
            r.attempt == 0,
            r.last_error@ == LLM_EMPTY_CONTENT@,
    {
        LlmAttempts { prompt, attempt: 0, last_error: String::from_str(LLM_EMPTY_CONTENT) }
    }

    /// The prompt to send for the current attempt.
    pub fn attempt_prompt(&self) -> (r: String)
        ensures
            r@ == attempt_prompt_spec(self.prompt@, self.attempt, self.last_error@),
    {
        if self.attempt == 0 {
            self.prompt.clone()
        } else {
            let mut r = self.prompt.clone();
            r.append("\n\nRETRY: The previous output failed validation: ");
            r.append(self.last_error.as_str());
            r.append(". Return one corrected, complete JSON object without markdown fences.");
            r
        }
    }

    /// Records an unusable reply: its reason becomes the last error, and after the second
    /// failed attempt the request ends with a 502 error that names it.
    pub fn record_failure(&mut self, failure: LlmFailure) -> (step: LlmStep)
        requires
            old(self).attempt < LLM_ATTEMPTS,
        ensures
            final(self).prompt@ == old(self).prompt@,
            final(self).attempt == old(self).attempt + 1,
            final(self).last_error@ == llm_failure_reason(failure),
            step is Retry <==> final(self).attempt < LLM_ATTEMPTS,
            step matches LlmStep::GiveUp(e) ==> e.status == BAD_GATEWAY && e.message@
                == "模型连续两次未返回可用结果："@ + llm_failure_reason(failure),
    {
        self.last_error = match failure {
            LlmFailure::EmptyContent => String::from_str(LLM_EMPTY_CONTENT),
            LlmFailure::InvalidJson(m) => {
                let mut r = String::from_str("JSON 结构错误：");
                r.append(m.as_str());
                r
            },
        };
        self.attempt = self.attempt + 1;
        if self.attempt < LLM_ATTEMPTS {
            LlmStep::Retry
        } else {
            let mut m = String::from_str("模型连续两次未返回可用结果：");
            m.append(self.last_error.as_str());
            LlmStep::GiveUp(ApiError::bad_gateway(m))
        }
    }
}

/// `s` without the prefix `p`, if it starts with it.
pub open spec fn strip_prefix_spec(s: Seq<char>, p: Seq<char>) -> Option<Seq<char>> {
    if p.len() <= s.len() && s.take(p.len() as int) == p {
        Some(s.skip(p.len() as int))
    } else {
        None
    }
}

/// `s` without the suffix `p`, if it ends with it.
pub open spec fn strip_suffix_spec(s: Seq<char>, p: Seq<char>) -> Option<Seq<char>> {
    if p.len() <= s.len() && s.skip(s.len() - p.len()) == p {
        Some(s.take(s.len() - p.len()))
    } else {
        None
    }
}

/// A trimmed reply without an opening code fence (```` ```json ````, ```` ```JSON ```` or
/// ```` ``` ````, the first that matches).
pub open spec fn without_opening_fence(t: Seq<char>) -> Seq<char> {
    match strip_prefix_spec(t, "```json"@) {
        Some(r) => r,
        None => match strip_prefix_spec(t, "```JSON"@) {
            Some(r) => r,
            None => match strip_prefix_spec(t, "```"@) {
                Some(r) => r,
                None => t,
            },
        },
    }
}

/// The JSON text of a reply: trimmed, without its opening and closing code fences, trimmed again.
pub open spec fn json_body_spec(content: Seq<char>) -> Seq<char> {
    let w = without_opening_fence(trim_spec(content));
    trim_spec(
        match strip_suffix_spec(w, "```"@) {
            Some(r) => r,
            None => w,
        },
    )
}

/// A text with no whitespace and no backquote at either end.
pub open spec fn is_bare_json_text(x: Seq<char>) -> bool {
    x.len() > 0 ==> {
        &&& !unicode_white_space(x[0])
        &&& !unicode_white_space(x[x.len() - 1])
        &&& x[0] != '`'
        &&& x[x.len() - 1] != '`'
    }
}

proof fn lemma_trim_bare(x: Seq<char>)
    requires
        is_bare_json_text(x),
    ensures
        trim_spec(x) == x,
        trim_spec(seq!['\n'] + x + seq!['\n']) == x,
{
    let nl = seq!['\n'];
    assert(unicode_white_space('\n'));
    let w = nl + x + nl;
    assert(w.drop_first() =~= x + nl);
    assert(trim_start_spec(w) == trim_start_spec(x + nl));
    if x.len() == 0 {
        assert(x + nl =~= nl);
        assert(nl.drop_first() =~= Seq::<char>::empty());
        assert(trim_start_spec(nl) == trim_start_spec(Seq::<char>::empty()));
        assert(trim_spec(w) =~= x);
    } else {
        assert((x + nl)[0] == x[0]);
        assert(trim_start_spec(x + nl) == x + nl);
        assert((x + nl).drop_last() =~= x);
        assert(trim_end_spec(x + nl) == trim_end_spec(x));
        assert(trim_end_spec(x) == x);
        assert(trim_start_spec(x) == x);
    }
}

/// A bare JSON text is its own JSON body, and so is it wrapped in a code fence (```` ```json ````,
/// ```` ```JSON ```` or ```` ``` ````, on lines of their own).
pub proof fn fenced_json_body_is_unwrapped(x: Seq<char>)
    requires
        is_bare_json_text(x),
    ensures
        json_body_spec(x) == x,
        json_body_spec("```json\n"@ + x + "\n```"@) == x,
        json_body_spec("```JSON\n"@ + x + "\n```"@) == x,
        json_body_spec("```\n"@ + x + "\n```"@) == x,
{
    reveal_strlit("```json\n");
    reveal_strlit("```JSON\n");
    reveal_strlit("```\n");
    reveal_strlit("\n```");
    reveal_strlit("```json");
    reveal_strlit("```JSON");
    reveal_strlit("```");
    lemma_trim_bare(x);
    let nl = seq!['\n'];
    // The bare text.
    if x.len() >= 3 {
        assert(x.take(3)[0] == x[0]);
        assert(x.skip(x.len() - 3)[2] == x[x.len() - 1]);
        if x.len() >= 7 {
            assert(x.take(7)[0] == x[0]);
        }
    }
    assert(strip_prefix_spec(x, "```json"@) is None);
    assert(strip_prefix_spec(x, "```JSON"@) is None);
    assert(strip_prefix_spec(x, "```"@) is None);
    assert(without_opening_fence(x) == x);
    assert(strip_suffix_spec(x, "```"@) is None);
    // The fenced texts.
    let fence_end = "\n```"@;
    let inner = nl + x + nl;
    let forms = seq!["```json\n"@, "```JSON\n"@, "```\n"@];
    assert forall|k: int| 0 <= k < 3 implies json_body_spec(#[trigger] forms[k] + x + fence_end) == x by {
        let open = forms[k];
        let c = open + x + fence_end;
        assert(c[0] == '`');
        assert(c[c.len() - 1] == '`');
        assert(trim_start_spec(c) == c);
        assert(trim_end_spec(c) == c);
        let w = nl + x + fence_end;
        if k == 0 {
            assert(c.take(7) =~= "```json"@);
            assert(c.skip(7) =~= w);
        } else if k == 1 {
            assert(c.take(7)[3] != "```json"@[3]);
            assert(c.take(7) =~= "```JSON"@);
            assert(c.skip(7) =~= w);
        } else {
            assert(c.take(7)[3] != "```json"@[3]);
            assert(c.take(7)[3] != "```JSON"@[3]);
            assert(c.take(3) =~= "```"@);
            assert(c.skip(3) =~= w);
        }
        assert(without_opening_fence(c) == w);
        assert(w.skip(w.len() - 3) =~= "```"@);
        assert(w.take(w.len() - 3) =~= inner);
    }
    assert(json_body_spec(forms[0] + x + fence_end) == x);
    assert(json_body_spec(forms[1] + x + fence_end) == x);
    assert(json_body_spec(forms[2] + x + fence_end) == x);
}

/// The last position of `c` in `s`.
pub open spec fn last_index_of(s: Seq<char>, c: char) -> Option<int>
    decreases s.len(),
{
    if s.len() == 0 {
        None
    } else if s.last() == c {
        Some(s.len() - 1)
    } else {
        last_index_of(s.drop_last(), c)
    }
}

/// The text from the first `{` to the last `}` of a JSON body, when the first comes before
/// the last.
pub open spec fn json_object_spec(body: Seq<char>) -> Option<Seq<char>> {
    match (find_spec(body, "{"@), last_index_of(body, '}')) {
        (Some(a), Some(b)) => if a < b {
            Some(body.subrange(a, b + 1))
        } else {
            None
        },
        _ => None,
    }
}

/// The texts to parse a reply from: the JSON body first, and the outermost braced part of it
/// as a second try.
pub struct JsonCandidates {
    pub body: String,
    pub object: Option<String>,
}

fn strip_prefix_chars(s: &[char], p: &str) -> (r: Option<Vec<char>>)
    ensures
        r matches Some(v) ==> strip_prefix_spec(s@, p@) == Some(v@),
        r is None ==> strip_prefix_spec(s@, p@) is None,
{
    let pc = chars_of(p);
    if pc.len() > s.len() {
        return None;
    }
    let head = sub_chars(s, 0, pc.len());
    assert(head@ =~= s@.take(pc@.len() as int));
    if crate::text::chars_eq(head.as_slice(), pc.as_slice()) {
        let rest = sub_chars(s, pc.len(), s.len());
        assert(rest@ =~= s@.skip(pc@.len() as int));
        Some(rest)
    } else {
        None
    }
}

fn strip_suffix_chars(s: &[char], p: &str) -> (r: Option<Vec<char>>)
    ensures
        r matches Some(v) ==> strip_suffix_spec(s@, p@) == Some(v@),
        r is None ==> strip_suffix_spec(s@, p@) is None,
{
    let pc = chars_of(p);
    if pc.len() > s.len() {
        return None;
    }
    let cut = s.len() - pc.len();
    let tail = sub_chars(s, cut, s.len());
    assert(tail@ =~= s@.skip(s@.len() - pc@.len()));
    if crate::text::chars_eq(tail.as_slice(), pc.as_slice()) {
        let rest = sub_chars(s, 0, cut);
        assert(rest@ =~= s@.take(s@.len() - pc@.len()));
        Some(rest)
    } else {
        None
    }
}

fn last_index_of_exec(s: &[char], c: char) -> (r: Option<usize>)
    ensures
        r matches Some(i) ==> last_index_of(s@, c) == Some(i as int) && i < s@.len(),
        r is None ==> last_index_of(s@, c) is None,
{
    let mut n = s.len();
    assert(s@.take(n as int) =~= s@);
    while n > 0
        invariant
            n <= s@.len(),
            last_index_of(s@, c) == last_index_of(s@.take(n as int), c),
        decreases n,
    {
        if s[n - 1] == c {
            return Some(n - 1);
        }
        assert(s@.take(n as int).drop_last() =~= s@.take(n - 1));
        n = n - 1;
    }
    None
}

/// Extracts what a reply's content is parsed from: the body without code fences, and the part
/// from its first `{` to its last `}` where that is a proper range.
pub fn json_candidates(content: &str) -> (r: JsonCandidates)
    ensures
        r.body@ == json_body_spec(content@),
        match json_object_spec(json_body_spec(content@)) {
            Some(o) => r.object matches Some(x) && x@ == o,
            None => r.object is None,
        },
{
    let cs = chars_of(content);
    let t = trim_chars(cs.as_slice());
    let w = match strip_prefix_chars(t.as_slice(), "```json") {
        Some(r) => r,
        None => match strip_prefix_chars(t.as_slice(), "```JSON") {
            Some(r) => r,
            None => match strip_prefix_chars(t.as_slice(), "```") {
                Some(r) => r,
                None => t,
            },
        },
    };
    let u = match strip_suffix_chars(w.as_slice(), "```") {
        Some(r) => r,
        None => w,
    };
    let body = trim_chars(u.as_slice());
    let open = chars_of("{");
    let object = match find_chars(body.as_slice(), open.as_slice()) {
        Some(a) => match last_index_of_exec(body.as_slice(), '}') {
            Some(b) => {
                let blen = body.len();
                assert(b < blen);
                if a < b {
                    let o = sub_chars(body.as_slice(), a, b + 1);
                    Some(string_of(o.as_slice()))
                } else {
                    None
                }
            },
            None => None,
        },
        None => None,
    };
    JsonCandidates { body: string_of(body.as_slice()), object }
}

} // verus!
