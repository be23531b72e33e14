//! Translation requests to language models: which provider and target
//! language, the prompts, the batch payload, and reading the answers.
use crate::file_filter::{lines_of, text_lines};
use crate::json::{array_of, get_str, json_get, str_field, JsonValue};
use crate::text::{
    starts_with_chars, chars_of, concat_str, is_blank, lowercase, starts_with, str_eq, string_from_range, to_lowercase,
    trim, trim_end_char, trim_end_char_str, trim_str, all_ws, first_index, first_index_of,
    join_range, join_with, last_index, last_index_of,
};
use vstd::prelude::*;

verus! {

broadcast use vstd::seq_lib::group_seq_properties;

pub const DEFAULT_OPENAI_CHAT_MODEL: &'static str = "gpt-4.1-mini";

pub const DEFAULT_OPENAI_CHAT_BASE_URL: &'static str = "https://api.openai.com/v1/responses";

pub const DEFAULT_OPENAI_CHAT_TIMEOUT: u64 = 120;

pub const DEFAULT_OLLAMA_MODEL: &'static str = "gpt-oss:20b";

pub const DEFAULT_OLLAMA_BASE_URL: &'static str = "http://localhost:11434";

pub const DEFAULT_OLLAMA_TIMEOUT: u64 = 600;

/// One text to translate, with the id its answer comes back under.
#[derive(Debug)]
pub struct BatchTranslationItem {
    pub id: String,
    pub text: String,
}

/// The answer for one item of a batch: its translation and, when the model
/// gave one, the cleaned-up source text.
#[derive(Debug)]
pub struct BatchTranslationResult {
    pub translation: String,
    pub cleaned_source: Option<String>,
}

/// Extra input of a batch: earlier items given as context only.
#[derive(Debug)]
pub struct BatchTranslationOptions {
    pub context_items: Vec<BatchTranslationItem>,
}

/// Where a translation request comes from.
#[derive(Debug, Clone, Copy, PartialEq, Eq, Structural)]
pub enum TranslateSource {
    Segment,
    Live,
}

impl TranslateSource {
    /// The label of the source in request logs.
    pub fn as_str(self) -> (r: &'static str)
        ensures
            self is Segment ==> r@ == "segment"@,
            self is Live ==> r@ == "live"@,
    {
        match self {
            TranslateSource::Segment => "segment",
            TranslateSource::Live => "live",
        }
    }
}

/// The translation part of the configuration.
#[derive(Debug)]
pub struct TranslateConfig {
    pub enabled: Option<bool>,
    pub provider: Option<String>,
    pub target_language: Option<String>,
    pub segment_batch_size: Option<usize>,
    pub segment_single_prompt: Option<String>,
    pub segment_batch_prompt: Option<String>,
    pub live_prompt: Option<String>,
}

/// The OpenAI part of the configuration.
#[derive(Debug)]
pub struct OpenAiConfig {
    pub api_key: String,
    pub model: Option<String>,
    pub base_url: Option<String>,
    pub timeout_secs: Option<u64>,
    pub language: Option<String>,
    pub response_format: Option<String>,
    pub chat_model: Option<String>,
    pub chat_base_url: Option<String>,
    pub chat_timeout_secs: Option<u64>,
}

/// The Ollama part of the configuration.
#[derive(Debug)]
pub struct OllamaConfig {
    pub enabled: Option<bool>,
    pub model: Option<String>,
    pub base_url: Option<String>,
    pub timeout_secs: Option<u64>,
}

/// The view of an optional string.
pub open spec fn opt_str(o: Option<String>) -> Option<Seq<char>> {
    match o {
        Some(s) => Some(s@),
        None => None,
    }
}

/// The given text when it is there and not blank, else the default.
pub open spec fn or_default(o: Option<Seq<char>>, default: Seq<char>) -> Seq<char> {
    match o {
        Some(s) => if all_ws(s) {
            default
        } else {
            s
        },
        None => default,
    }
}

/// The given text when it is there and not blank, else the default.
pub fn text_or_default(o: &Option<String>, default: &str) -> (r: String)
    ensures
        r@ == or_default(opt_str(*o), default@),
{
    match o {
        Some(s) => {
            if is_blank(s.as_str()) {
                default.to_owned()
            } else {
                s.clone()
            }
        },
        None => default.to_owned(),
    }
}

/// The provider named by a request or by the configuration (`ollama` when
/// neither names one, a blank request counting as none).
pub open spec fn chosen_provider(provider_override: Option<Seq<char>>, configured: Option<Seq<char>>) -> Seq<
    char,
> {
    match provider_override {
        Some(p) => if all_ws(p) {
            match configured {
                Some(c) => c,
                None => "ollama"@,
            }
        } else {
            p
        },
        None => match configured {
            Some(c) => c,
            None => "ollama"@,
        },
    }
}

/// The translation settings: refused with "translation disabled" when the
/// configuration turns translation off; otherwise the provider (see
/// `chosen_provider`) lower-cased, and the target language (`zh` by default).
/// Without a translation configuration, translation is on with `ollama` to
/// `zh`.
pub open spec fn translate_settings(
    translate: Option<TranslateConfig>,
    provider_override: Option<Seq<char>>,
) -> Result<(Seq<char>, Seq<char>), Seq<char>> {
    match translate {
        None => Ok((lowercase(chosen_provider(provider_override, Some("ollama"@))), "zh"@)),
        Some(cfg) => if cfg.enabled == Some(false) {
            Err("translation disabled"@)
        } else {
            Ok(
                (
                    lowercase(chosen_provider(provider_override, opt_str(cfg.provider))),
                    match cfg.target_language {
                        Some(t) => t@,
                        None => "zh"@,
                    },
                ),
            )
        },
    }
}

/// The views of a pair of strings, or of an error.
pub open spec fn pair_view(r: Result<(String, String), String>) -> Result<(Seq<char>, Seq<char>), Seq<char>> {
    match r {
        Ok((a, b)) => Ok((a@, b@)),
        Err(e) => Err(e@),
    }
}

/// The provider and target language of a translation (see
/// `translate_settings`).
pub fn resolve_translate_settings(
    translate: Option<TranslateConfig>,
    provider_override: Option<String>,
) -> (r: Result<(String, String), String>)
    ensures
        pair_view(r) == translate_settings(translate, opt_str(provider_override)),
{
    let ghost cfg0 = translate;
    let (configured, target) = match translate {
        None => (Some("ollama".to_owned()), "zh".to_owned()),
        Some(cfg) => {
            if cfg.enabled == Some(false) {
                return Err("translation disabled".to_owned());
            }
            let target = match cfg.target_language {
                Some(t) => t,
                None => "zh".to_owned(),
            };
            (cfg.provider, target)
        },
    };
    let provider = match provider_override {
        Some(p) => {
            if is_blank(p.as_str()) {
                match configured {
                    Some(c) => c,
                    None => "ollama".to_owned(),
                }
            } else {
                p
            }
        },
        None => match configured {
            Some(c) => c,
            None => "ollama".to_owned(),
        },
    };
    Ok((to_lowercase(provider.as_str()), target))
}

/// The settings of a request to the OpenAI responses endpoint.
#[derive(Debug)]
pub struct ChatSettings {
    pub api_key: String,
    pub model: String,
    pub endpoint: String,
    pub timeout_secs: u64,
}

/// The settings of a request to Ollama's generate endpoint.
#[derive(Debug)]
pub struct OllamaSettings {
    pub model: String,
    pub url: String,
    pub timeout_secs: u64,
}

/// The settings for OpenAI chat requests: refused with "OpenAI apiKey is
/// required" when the key is blank; otherwise the key trimmed, the chat
/// model and endpoint (defaults when blank, the endpoint without trailing
/// `/`), and the timeout (120 s by default).
pub fn openai_chat_settings(cfg: &OpenAiConfig) -> (r: Result<ChatSettings, String>)
    ensures
        match r {
            Ok(s) => trim(cfg.api_key@).len() > 0 && s.api_key@ == trim(cfg.api_key@) && s.model@
                == or_default(opt_str(cfg.chat_model), DEFAULT_OPENAI_CHAT_MODEL@) && s.endpoint@
                == trim_end_char(or_default(opt_str(cfg.chat_base_url), DEFAULT_OPENAI_CHAT_BASE_URL@), '/')
                && s.timeout_secs == match cfg.chat_timeout_secs {
                Some(t) => t,
                None => DEFAULT_OPENAI_CHAT_TIMEOUT,
            },
            Err(e) => trim(cfg.api_key@).len() == 0 && e@ == "OpenAI apiKey is required"@,
        },
{
    let api_key = trim_str(cfg.api_key.as_str());
    if is_blank(cfg.api_key.as_str()) {
        return Err("OpenAI apiKey is required".to_owned());
    }
    let model = text_or_default(&cfg.chat_model, DEFAULT_OPENAI_CHAT_MODEL);
    let base_url = text_or_default(&cfg.chat_base_url, DEFAULT_OPENAI_CHAT_BASE_URL);
    let endpoint = trim_end_char_str(base_url.as_str(), '/');
    let timeout_secs = match cfg.chat_timeout_secs {
        Some(t) => t,
        None => DEFAULT_OPENAI_CHAT_TIMEOUT,
    };
    Ok(ChatSettings { api_key, model, endpoint, timeout_secs })
}

/// The settings for Ollama requests: refused with "ollama disabled" when
/// the configuration turns it off; otherwise the model and base address
/// (defaults when blank), the generate endpoint under the base address, and
/// the timeout (600 s by default). Without an Ollama configuration the
/// defaults apply.
pub fn ollama_settings(cfg: &Option<OllamaConfig>) -> (r: Result<OllamaSettings, String>)
    ensures
        match cfg {
            None => r matches Ok(s) && s.model@ == DEFAULT_OLLAMA_MODEL@ && s.url@ == DEFAULT_OLLAMA_BASE_URL@
                + "/api/generate"@ && s.timeout_secs == DEFAULT_OLLAMA_TIMEOUT,
            Some(c) => if c.enabled == Some(false) {
                r matches Err(e) && e@ == "ollama disabled"@
            } else {
                r matches Ok(s) && s.model@ == or_default(opt_str(c.model), DEFAULT_OLLAMA_MODEL@)
                    && s.url@ == trim_end_char(or_default(opt_str(c.base_url), DEFAULT_OLLAMA_BASE_URL@), '/')
                    + "/api/generate"@ && s.timeout_secs == match c.timeout_secs {
                    Some(t) => t,
                    None => DEFAULT_OLLAMA_TIMEOUT,
                }
            },
        },
{
    match cfg {
        None => {
            let base = trim_end_char_str(DEFAULT_OLLAMA_BASE_URL, '/');
            proof {
                reveal_strlit("http://localhost:11434");
                assert(trim_end_char(DEFAULT_OLLAMA_BASE_URL@, '/') == DEFAULT_OLLAMA_BASE_URL@);
            }
            Ok(
                OllamaSettings {
                    model: DEFAULT_OLLAMA_MODEL.to_owned(),
                    url: concat_str(base.as_str(), "/api/generate"),
                    timeout_secs: DEFAULT_OLLAMA_TIMEOUT,
                },
            )
        },
        Some(c) => {
            if c.enabled == Some(false) {
                return Err("ollama disabled".to_owned());
            }
            let model = text_or_default(&c.model, DEFAULT_OLLAMA_MODEL);
            let base_url = text_or_default(&c.base_url, DEFAULT_OLLAMA_BASE_URL);
            let base = trim_end_char_str(base_url.as_str(), '/');
            let timeout_secs = match c.timeout_secs {
                Some(t) => t,
                None => DEFAULT_OLLAMA_TIMEOUT,
            };
            Ok(OllamaSettings { model, url: concat_str(base.as_str(), "/api/generate"), timeout_secs })
        },
    }
}

/// The instruction to translate into a language.
pub open spec fn single_prompt(target: Seq<char>) -> Seq<char> {
    "Translate the following text to "@ + target + ". Output only the translated text."@
}

/// The instruction to translate into a language (see `single_prompt`).
pub fn translation_prompt(target_language: &str) -> (r: String)
    ensures
        r@ == single_prompt(target_language@),
{
    let head = concat_str("Translate the following text to ", target_language);
    concat_str(head.as_str(), ". Output only the translated text.")
}

/// The prompt of a single translation through Ollama: the instruction, a
/// blank line, and the text.
pub fn ollama_translation_prompt(target_language: &str, text: &str) -> (r: String)
    ensures
        r@ == single_prompt(target_language@) + "\n\n"@ + text@,
{
    let head = translation_prompt(target_language);
    let with_gap = concat_str(head.as_str(), "\n\n");
    concat_str(with_gap.as_str(), text)
}

/// The instruction of a batch translation into a language.
pub open spec fn batch_prompt(target: Seq<char>) -> Seq<char> {
    "You rewrite noisy ASR text and translate it.\nFor each item in `items`:\n1) rewrite `text` into readable text in the same language as input and return as `cleaned_source`;\n2) translate `cleaned_source` to "@
        + target
        + " and return as `translation`.\nUse `context` only as previous conversation context.\nReturn ONLY JSON array.\nEach element must be {\"id\": string, \"cleaned_source\": string, \"translation\": string}.\nReturn exactly one element for every id in `items`."@
}

/// The instruction of a batch translation (see `batch_prompt`).
pub fn batch_translation_prompt(target_language: &str) -> (r: String)
    ensures
        r@ == batch_prompt(target_language@),
{
    let head = concat_str(
        "You rewrite noisy ASR text and translate it.\nFor each item in `items`:\n1) rewrite `text` into readable text in the same language as input and return as `cleaned_source`;\n2) translate `cleaned_source` to ",
        target_language,
    );
    concat_str(
        head.as_str(),
        " and return as `translation`.\nUse `context` only as previous conversation context.\nReturn ONLY JSON array.\nEach element must be {\"id\": string, \"cleaned_source\": string, \"translation\": string}.\nReturn exactly one element for every id in `items`.",
    )
}

/// The prompt of a batch translation through Ollama: the instruction, a
/// blank line, and the payload.
pub fn ollama_batch_prompt(target_language: &str, payload: &str) -> (r: String)
    ensures
        r@ == batch_prompt(target_language@) + "\n\n"@ + payload@,
{
    let head = batch_translation_prompt(target_language);
    let with_gap = concat_str(head.as_str(), "\n\n");
    concat_str(with_gap.as_str(), payload)
}

/// A text without the code fence around it: trimmed, and when it starts
/// with three backticks and has at least three lines, its inner lines
/// joined and trimmed.
pub open spec fn fence_stripped(text: Seq<char>) -> Seq<char> {
    let t = trim(text);
    if !starts_with(t, "```"@) {
        t
    } else {
        let ls = lines_of(t);
        if ls.len() < 3 {
            t
        } else {
            trim(join_with(ls.subrange(1, ls.len() - 1), "\n"@))
        }
    }
}

/// A text without the code fence around it (see `fence_stripped`).
pub fn strip_code_fence(text: &str) -> (r: String)
    ensures
        r@ == fence_stripped(text@),
{
    let trimmed = trim_str(text);
    let cs = chars_of(trimmed.as_str());
    let fence = chars_of("```");
    if !starts_with_chars(&cs, &fence) {
        return trimmed;
    }
    let lines = text_lines(trimmed.as_str());
    if lines.len() < 3 {
        return trimmed;
    }
    let body = join_range(&lines, 1, lines.len() - 1, "\n");
    trim_str(body.as_str())
}

/// The part of `t` from the first `open` to the last `close`, when the one
/// comes before the other.
pub open spec fn bracketed(t: Seq<char>, open: char, close: char) -> Option<Seq<char>> {
    match (first_index_of(t, open), last_index_of(t, close)) {
        (Some(a), Some(b)) => if a < b {
            Some(t.subrange(a, b + 1))
        } else {
            None
        },
        _ => None,
    }
}

/// The texts tried, in order, as the JSON of a batch answer: the answer
/// trimmed (when not empty), without its code fence (when that differs),
/// from its first `[` to its last `]`, and from its first `{` to its last
/// `}`.
pub open spec fn json_candidates(raw: Seq<char>) -> Seq<Seq<char>> {
    let t = trim(raw);
    let c1: Seq<Seq<char>> = if t.len() > 0 {
        seq![t]
    } else {
        seq![]
    };
    let f = fence_stripped(t);
    let c2 = if f != t {
        c1.push(f)
    } else {
        c1
    };
    let c3 = match bracketed(t, '[', ']') {
        Some(s) => c2.push(s),
        None => c2,
    };
    match bracketed(t, '{', '}') {
        Some(s) => c3.push(s),
        None => c3,
    }
}

/// The part of `cs` from the first `open` to the last `close`, if any.
fn bracketed_part(cs: &Vec<char>, open: char, close: char) -> (r: Option<String>)
    ensures
        match r {
            Some(s) => bracketed(cs@, open, close) == Some(s@),
            None => bracketed(cs@, open, close) is None,
        },
{
    match (first_index(cs, open), last_index(cs, close)) {
        (Some(a), Some(b)) => {
            if a < b {
                proof {
                    lemma_last_index_bound(cs@, close);
                }
                assert(b < cs.len());
                Some(string_from_range(cs, a, b + 1))
            } else {
                None
            }
        },
        _ => None,
    }
}

proof fn lemma_last_index_bound(s: Seq<char>, c: char)
    ensures
        last_index_of(s, c) matches Some(i) ==> 0 <= i < s.len(),
    decreases s.len(),
{
    if s.len() > 0 && s.last() != c {
        lemma_last_index_bound(s.drop_last(), c);
    }
}

/// The texts to try as the JSON of a batch answer (see `json_candidates`).
pub fn batch_json_candidates(raw: &str) -> (r: Vec<String>)
    ensures
        r@.map_values(|s: String| s@) == json_candidates(raw@),
{
    let t = trim_str(raw);
    let cs = chars_of(t.as_str());
    let mut out: Vec<String> = Vec::new();
    if cs.len() > 0 {
        out.push(t.clone());
    }
    let ghost c1 = out@.map_values(|s: String| s@);
    proof {
        if t@.len() > 0 {
            assert(c1 =~= seq![t@]);
        } else {
            assert(c1 =~= Seq::<Seq<char>>::empty());
        }
    }
    let f = strip_code_fence(t.as_str());
    if !str_eq(f.as_str(), t.as_str()) {
        out.push(f);
    }
    let ghost c2 = out@.map_values(|s: String| s@);
    match bracketed_part(&cs, '[', ']') {
        Some(s) => out.push(s),
        None => {},
    }
    let ghost c3 = out@.map_values(|s: String| s@);
    match bracketed_part(&cs, '{', '}') {
        Some(s) => out.push(s),
        None => {},
    }
    proof {
        assert(out@.map_values(|s: String| s@) =~= json_candidates(raw@));
    }
    out
}

/// A field's text trimmed, when that is not empty.
pub open spec fn nonblank_trim(o: Option<Seq<char>>) -> Option<Seq<char>> {
    match o {
        Some(s) => if trim(s).len() > 0 {
            Some(trim(s))
        } else {
            None
        },
        None => None,
    }
}

/// The text of the first of two string fields that is there.
pub open spec fn either_str(v: JsonValue, a: Seq<char>, b: Seq<char>) -> Option<Seq<char>> {
    match str_field(v, a) {
        Some(s) => Some(s),
        None => str_field(v, b),
    }
}

/// What one item of a batch answer gives: its id (`id`, else `name`) and
/// translation (`translation`, else `text`), both trimmed and not empty,
/// and its cleaned source (`cleaned_source`, else `cleaned`, else `source`)
/// when that is not blank.
pub open spec fn item_entry(item: JsonValue) -> Option<(Seq<char>, Seq<char>, Option<Seq<char>>)> {
    let id = nonblank_trim(either_str(item, "id"@, "name"@));
    let translation = nonblank_trim(either_str(item, "translation"@, "text"@));
    let cleaned = nonblank_trim(
        match str_field(item, "cleaned_source"@) {
            Some(s) => Some(s),
            None => either_str(item, "cleaned"@, "source"@),
        },
    );
    match (id, translation) {
        (Some(i), Some(t)) => Some((i, t, cleaned)),
        _ => None,
    }
}

/// What the items of a batch answer give, in order.
pub open spec fn entries_of(items: Seq<JsonValue>) -> Seq<(Seq<char>, Seq<char>, Option<Seq<char>>)>
    decreases items.len(),
{
    if items.len() == 0 {
        seq![]
    } else {
        let prev = entries_of(items.drop_last());
        match item_entry(items.last()) {
            Some(e) => prev.push(e),
            None => prev,
        }
    }
}

/// What a batch answer gives: its items when it is an array or has an
/// `items` array, itself when it is an object with an `id` or a `name`.
pub open spec fn batch_entries(v: JsonValue) -> Seq<(Seq<char>, Seq<char>, Option<Seq<char>>)> {
    match array_of(Some(v)) {
        Some(items) => entries_of(items),
        None => match array_of(json_get(v, "items"@)) {
            Some(items) => entries_of(items),
            None => if v is Object && (json_get(v, "id"@) is Some || json_get(v, "name"@) is Some) {
                entries_of(seq![v])
            } else {
                seq![]
            },
        },
    }
}

/// An answer entry as plain values.
pub open spec fn result_entry(e: (String, BatchTranslationResult)) -> (Seq<char>, Seq<char>, Option<Seq<char>>) {
    (e.0@, e.1.translation@, opt_str(e.1.cleaned_source))
}

/// Answer entries as plain values.
pub open spec fn result_entries(v: Seq<(String, BatchTranslationResult)>) -> Seq<
    (Seq<char>, Seq<char>, Option<Seq<char>>),
> {
    v.map_values(|e: (String, BatchTranslationResult)| result_entry(e))
}

/// A field's text trimmed, when that is not empty.
fn nonblank_trimmed(o: Option<&str>) -> (r: Option<String>)
    ensures
        opt_str(r) == nonblank_trim(
            match o {
                Some(s) => Some(s@),
                None => None,
            },
        ),
{
    match o {
        Some(s) => {
            if is_blank(s) {
                None
            } else {
                Some(trim_str(s))
            }
        },
        None => None,
    }
}

/// The text of the first of two string fields that is there.
fn either_field<'a>(v: &'a JsonValue, a: &str, b: &str) -> (r: Option<&'a str>)
    ensures
        match r {
            Some(s) => either_str(*v, a@, b@) == Some(s@),
            None => either_str(*v, a@, b@) is None,
        },
{
    match get_str(v, a) {
        Some(s) => Some(s),
        None => get_str(v, b),
    }
}

/// Adds what one item of a batch answer gives (see `item_entry`).
pub fn collect_batch_item(item: &JsonValue, out: &mut Vec<(String, BatchTranslationResult)>)
    ensures
        result_entries(final(out)@) == match item_entry(*item) {
            Some(e) => result_entries(old(out)@).push(e),
            None => result_entries(old(out)@),
        },
{
    let id = nonblank_trimmed(either_field(item, "id", "name"));
    let translation = nonblank_trimmed(either_field(item, "translation", "text"));
    let cleaned_raw = match get_str(item, "cleaned_source") {
        Some(s) => Some(s),
        None => either_field(item, "cleaned", "source"),
    };
    let cleaned_source = nonblank_trimmed(cleaned_raw);
    let ghost before = out@;
    match (id, translation) {
        (Some(i), Some(t)) => {
            out.push((i, BatchTranslationResult { translation: t, cleaned_source }));
            proof {
                assert(result_entries(out@) =~= result_entries(before).push(item_entry(*item)->0));
            }
        },
        _ => {},
    }
}

/// Adds what the items of a batch answer give, in order.
pub fn collect_batch_items(items: &Vec<JsonValue>, out: &mut Vec<(String, BatchTranslationResult)>)
    ensures
        result_entries(final(out)@) == result_entries(old(out)@) + entries_of(items@),
{
    let ghost start = result_entries(out@);
    let mut k: usize = 0;
    proof {
        assert(items@.take(0) =~= Seq::<JsonValue>::empty());
        assert(start + entries_of(items@.take(0)) =~= start);
    }
    while k < items.len()
        invariant
            k <= items.len(),
            result_entries(out@) == start + entries_of(items@.take(k as int)),
        decreases items.len() - k,
    {
        proof {
            assert(items@.take(k + 1).drop_last() =~= items@.take(k as int));
            assert(items@.take(k + 1).last() == items@[k as int]);
        }
        collect_batch_item(&items[k], out);
        proof {
            match item_entry(items@[k as int]) {
                Some(e) => {
                    assert(start + entries_of(items@.take(k as int)).push(e) =~= (start + entries_of(
                        items@.take(k as int),
                    )).push(e));
                },
                None => {},
            }
        }
        k += 1;
    }
    proof {
        assert(items@.take(items.len() as int) =~= items@);
    }
}

/// What a batch answer gives (see `batch_entries`).
pub fn parse_batch_translation_value(value: &JsonValue) -> (r: Vec<(String, BatchTranslationResult)>)
    ensures
        result_entries(r@) == batch_entries(*value),
{
    let mut out: Vec<(String, BatchTranslationResult)> = Vec::new();
    proof {
        assert(result_entries(out@) =~= Seq::<(Seq<char>, Seq<char>, Option<Seq<char>>)>::empty());
    }
    if let Some(items) = value.as_array() {
        collect_batch_items(items, &mut out);
        proof {
            assert(Seq::<(Seq<char>, Seq<char>, Option<Seq<char>>)>::empty() + entries_of(items@) =~= entries_of(items@));
        }
        return out;
    }
    if let Some(field) = value.get("items") {
        if let Some(items) = field.as_array() {
            collect_batch_items(items, &mut out);
            proof {
                assert(Seq::<(Seq<char>, Seq<char>, Option<Seq<char>>)>::empty() + entries_of(items@) =~= entries_of(items@));
            }
            return out;
        }
    }
    assert(array_of(Some(*value)) is None);
    assert(array_of(json_get(*value, "items"@)) is None);
    if value.is_object() && (value.get("id").is_some() || value.get("name").is_some()) {
        collect_batch_item(value, &mut out);
        proof {
            let one = seq![*value];
            assert(one.drop_last() =~= Seq::<JsonValue>::empty());
            assert(entries_of(Seq::<JsonValue>::empty()) =~= Seq::<(Seq<char>, Seq<char>, Option<Seq<char>>)>::empty());
            assert(entries_of(one.drop_last()) =~= Seq::<(Seq<char>, Seq<char>, Option<Seq<char>>)>::empty());
            assert(one.last() == *value);
            assert(entries_of(one) == match item_entry(*value) {
                Some(e) => Seq::<(Seq<char>, Seq<char>, Option<Seq<char>>)>::empty().push(e),
                None => Seq::<(Seq<char>, Seq<char>, Option<Seq<char>>)>::empty(),
            });
        }
    }
    out
}

/// The entries of the first parsed candidate that gives any.
pub open spec fn first_batch(ps: Seq<Option<JsonValue>>) -> Option<Seq<(Seq<char>, Seq<char>, Option<Seq<char>>)>>
    decreases ps.len(),
{
    if ps.len() == 0 {
        None
    } else {
        match ps[0] {
            Some(v) => if batch_entries(v).len() > 0 {
                Some(batch_entries(v))
            } else {
                first_batch(ps.drop_first())
            },
            None => first_batch(ps.drop_first()),
        }
    }
}

/// Reads a batch answer from its candidate texts, each given as parsed
/// (when it parsed as JSON): the entries of the first that gives any, else
/// "failed to parse batch translation JSON".
pub fn parse_batch_translation_json(parsed: &Vec<Option<JsonValue>>) -> (r: Result<
    Vec<(String, BatchTranslationResult)>,
    String,
>)
    ensures
        match r {
            Ok(v) => first_batch(parsed@) == Some(result_entries(v@)),
            Err(e) => first_batch(parsed@) is None && e@ == "failed to parse batch translation JSON"@,
        },
{
    let mut k: usize = 0;
    proof {
        assert(parsed@.skip(0) =~= parsed@);
    }
    while k < parsed.len()
        invariant
            k <= parsed.len(),
            first_batch(parsed@) == first_batch(parsed@.skip(k as int)),
        decreases parsed.len() - k,
    {
        proof {
            let rest = parsed@.skip(k as int);
            assert(rest[0] == parsed@[k as int]);
            assert(rest.drop_first() =~= parsed@.skip(k + 1));
        }
        if let Some(value) = &parsed[k] {
            let entries = parse_batch_translation_value(value);
            if entries.len() > 0 {
                return Ok(entries);
            }
        }
        k += 1;
    }
    Err("failed to parse batch translation JSON".to_owned())
}

/// The text of the first part of a response's content that has type
/// `output_text` and a text that is not blank once trimmed.
pub open spec fn part_text(parts: Seq<JsonValue>) -> Option<Seq<char>>
    decreases parts.len(),
{
    if parts.len() == 0 {
        None
    } else if str_field(parts[0], "type"@) == Some("output_text"@) && nonblank_trim(
        str_field(parts[0], "text"@),
    ) is Some {
        nonblank_trim(str_field(parts[0], "text"@))
    } else {
        part_text(parts.drop_first())
    }
}

/// The first output text among the items of a response's `output`.
pub open spec fn items_text(items: Seq<JsonValue>) -> Option<Seq<char>>
    decreases items.len(),
{
    if items.len() == 0 {
        None
    } else {
        let here = match array_of(json_get(items[0], "content"@)) {
            Some(parts) => part_text(parts),
            None => None,
        };
        if here is Some {
            here
        } else {
            items_text(items.drop_first())
        }
    }
}

/// The text of an OpenAI response: its `output_text` trimmed when not
/// blank, else the first output text part of its `output`.
pub open spec fn response_text(v: JsonValue) -> Option<Seq<char>> {
    match nonblank_trim(str_field(v, "output_text"@)) {
        Some(t) => Some(t),
        None => match array_of(json_get(v, "output"@)) {
            Some(items) => items_text(items),
            None => None,
        },
    }
}

/// The output text of a list of content parts (see `part_text`).
fn parts_output_text(parts: &Vec<JsonValue>) -> (r: Option<String>)
    ensures
        opt_str(r) == part_text(parts@),
{
    let mut k: usize = 0;
    proof {
        assert(parts@.skip(0) =~= parts@);
    }
    while k < parts.len()
        invariant
            k <= parts.len(),
            part_text(parts@) == part_text(parts@.skip(k as int)),
        decreases parts.len() - k,
    {
        proof {
            let rest = parts@.skip(k as int);
            assert(rest[0] == parts@[k as int]);
            assert(rest.drop_first() =~= parts@.skip(k + 1));
        }
        let part = &parts[k];
        let is_output = match get_str(part, "type") {
            Some(t) => str_eq(t, "output_text"),
            None => false,
        };
        if is_output {
            let text = nonblank_trimmed(get_str(part, "text"));
            if text.is_some() {
                return text;
            }
        }
        k += 1;
    }
    None
}

/// The text of an OpenAI response (see `response_text`).
pub fn extract_response_text(value: &JsonValue) -> (r: Option<String>)
    ensures
        opt_str(r) == response_text(*value),
{
    let direct = nonblank_trimmed(get_str(value, "output_text"));
    if direct.is_some() {
        return direct;
    }
    let output = match value.get("output") {
        Some(o) => o.as_array(),
        None => None,
    };
    match output {
        None => None,
        Some(items) => {
            let mut k: usize = 0;
            proof {
                assert(items@.skip(0) =~= items@);
            }
            while k < items.len()
                invariant
                    k <= items.len(),
                    response_text(*value) == items_text(items@),
                    items_text(items@) == items_text(items@.skip(k as int)),
                decreases items.len() - k,
            {
                proof {
                    let rest = items@.skip(k as int);
                    assert(rest[0] == items@[k as int]);
                    assert(rest.drop_first() =~= items@.skip(k + 1));
                }
                let content = match items[k].get("content") {
                    Some(c) => c.as_array(),
                    None => None,
                };
                if let Some(parts) = content {
                    let text = parts_output_text(parts);
                    if text.is_some() {
                        return text;
                    }
                }
                k += 1;
            }
            None
        },
    }
}

/// A hex digit, in lower case.
pub open spec fn hex_digit(d: u32) -> char {
    if d < 10 {
        (('0' as u32) + d) as char
    } else {
        (('a' as u32) + d - 10) as char
    }
}

/// How one character stands in a JSON string: `"` and `\` behind a
/// backslash; backspace, tab, line feed, form feed and carriage return as
/// `\b`, `\t`, `\n`, `\f`, `\r`; any other character below U+0020 as
/// `\u00` and two lower-case hex digits; every other character as itself.
pub open spec fn json_char(c: char) -> Seq<char> {
    if c == '"' {
        seq!['\\', '"']
    } else if c == '\\' {
        seq!['\\', '\\']
    } else if c == '\u{8}' {
        seq!['\\', 'b']
    } else if c == '\t' {
        seq!['\\', 't']
    } else if c == '\n' {
        seq!['\\', 'n']
    } else if c == '\u{c}' {
        seq!['\\', 'f']
    } else if c == '\r' {
        seq!['\\', 'r']
    } else if (c as u32) < 0x20 {
        seq!['\\', 'u', '0', '0', hex_digit((c as u32) / 16), hex_digit((c as u32) % 16)]
    } else {
        seq![c]
    }
}

/// The escaped characters of a string.
pub open spec fn json_chars(s: Seq<char>) -> Seq<char>
    decreases s.len(),
{
    if s.len() == 0 {
        Seq::empty()
    } else {
        json_chars(s.drop_last()) + json_char(s.last())
    }
}

/// The JSON text of a string (`serde_json::to_string` of a `&str`): the
/// string between double quotes, each character escaped as `json_char` says.
pub open spec fn json_string(s: Seq<char>) -> Seq<char> {
    seq!['"'] + json_chars(s) + seq!['"']
}

/// `serde_json::to_string` of a string: its JSON text. Its source writes the
/// quote, each run of characters that need no escape, each escape from its
/// escape table, and the closing quote, into a growing byte vector, a write
/// that cannot fail, so the result is always `Ok`; the error arm only
/// converts the library's error type.
#[verifier::external_body]
fn json_quote(s: &str) -> (r: Result<String, String>)
    ensures
        r is Ok,
        r matches Ok(q) ==> q@ == json_string(s@),
{
    match serde_json::to_string(s) {
        Ok(q) => Ok(q),
        Err(e) => Err(e.to_string()),
    }
}

/// One item of a batch payload: `{"id":…,"text":…}`.
pub open spec fn item_json(item: (Seq<char>, Seq<char>)) -> Seq<char> {
    "{\"id\":"@ + json_string(item.0) + ",\"text\":"@ + json_string(item.1) + "}"@
}

/// Items of a batch payload, separated by commas.
pub open spec fn items_json(items: Seq<(Seq<char>, Seq<char>)>) -> Seq<char> {
    join_with(items.map_values(|i: (Seq<char>, Seq<char>)| item_json(i)), ","@)
}

/// Batch items as plain values.
pub open spec fn items_view(v: Seq<BatchTranslationItem>) -> Seq<(Seq<char>, Seq<char>)> {
    v.map_values(|i: BatchTranslationItem| (i.id@, i.text@))
}

/// The payload of a batch translation: the context items and the items to
/// translate, as compact JSON with the keys in order.
pub open spec fn payload_json(items: Seq<(Seq<char>, Seq<char>)>, context: Seq<(Seq<char>, Seq<char>)>) -> Seq<char> {
    "{\"context\":["@ + items_json(context) + "],\"items\":["@ + items_json(items) + "]}"@
}

/// Items of a batch payload, separated by commas (see `items_json`).
fn batch_items_json(items: &Vec<BatchTranslationItem>) -> (r: Result<String, String>)
    ensures
        r matches Ok(t) && t@ == items_json(items_view(items@)),
{
    let ghost iv = items_view(items@);
    let mut out = String::new();
    let mut k: usize = 0;
    proof {
        assert(iv.take(0).map_values(|i: (Seq<char>, Seq<char>)| item_json(i)) =~= Seq::<Seq<char>>::empty());
    }
    while k < items.len()
        invariant
            k <= items.len(),
            iv == items_view(items@),
            out@ == items_json(iv.take(k as int)),
        decreases items.len() - k,
    {
        let id = json_quote(items[k].id.as_str())?;
        let text = json_quote(items[k].text.as_str())?;
        let a = concat_str("{\"id\":", id.as_str());
        let b = concat_str(a.as_str(), ",\"text\":");
        let c = concat_str(b.as_str(), text.as_str());
        let one = concat_str(c.as_str(), "}");
        proof {
            let js = iv.take(k + 1).map_values(|i: (Seq<char>, Seq<char>)| item_json(i));
            assert(js.drop_last() =~= iv.take(k as int).map_values(|i: (Seq<char>, Seq<char>)| item_json(i)));
            assert(js.last() == item_json(iv[k as int]));
            assert(one@ == item_json(iv[k as int]));
        }
        if k == 0 {
            out = one;
        } else {
            let with_sep = concat_str(out.as_str(), ",");
            out = concat_str(with_sep.as_str(), one.as_str());
        }
        k += 1;
    }
    proof {
        assert(iv.take(items.len() as int) =~= iv);
    }
    Ok(out)
}

/// The payload of a batch translation (see `payload_json`); it is always
/// given, as quoting strings cannot fail.
pub fn build_batch_payload(items: &Vec<BatchTranslationItem>, context_items: &Vec<BatchTranslationItem>) -> (r: Result<
    String,
    String,
>)
    ensures
        r matches Ok(t) && t@ == payload_json(items_view(items@), items_view(context_items@)),
{
    let context = batch_items_json(context_items)?;
    let listed = batch_items_json(items)?;
    let a = concat_str("{\"context\":[", context.as_str());
    let b = concat_str(a.as_str(), "],\"items\":[");
    let c = concat_str(b.as_str(), listed.as_str());
    Ok(concat_str(c.as_str(), "]}"))
}

/// The service a translation goes to.
#[derive(Debug, Clone, Copy, PartialEq, Eq, Structural)]
pub enum TranslateRoute {
    OpenAi,
    Ollama,
}

/// The service for a provider name: OpenAI for `openai` and `chatgpt`,
/// Ollama for `ollama`; any other name is refused as "unsupported
/// translate provider: …".
pub fn translate_route(provider: &str) -> (r: Result<TranslateRoute, String>)
    ensures
        (provider@ == "openai"@ || provider@ == "chatgpt"@) ==> r == Ok::<TranslateRoute, String>(
            TranslateRoute::OpenAi,
        ),
        provider@ == "ollama"@ ==> r == Ok::<TranslateRoute, String>(TranslateRoute::Ollama),
        !(provider@ == "openai"@ || provider@ == "chatgpt"@ || provider@ == "ollama"@) ==> (r matches Err(
            e,
        ) && e@ == "unsupported translate provider: "@ + provider@),
{
    proof {
        reveal_strlit("openai");
        reveal_strlit("chatgpt");
        reveal_strlit("ollama");
        assert("openai"@[1] != "ollama"@[1]);
        assert("chatgpt"@[0] != "ollama"@[0]);
    }
    if str_eq(provider, "openai") || str_eq(provider, "chatgpt") {
        Ok(TranslateRoute::OpenAi)
    } else if str_eq(provider, "ollama") {
        Ok(TranslateRoute::Ollama)
    } else {
        Err(concat_str("unsupported translate provider: ", provider))
    }
}

/// A batch answer is refused with "batch translation response is empty"
/// when it gives nothing; otherwise it is kept as it is.
pub fn check_batch_answer(entries: Vec<(String, BatchTranslationResult)>) -> (r: Result<
    Vec<(String, BatchTranslationResult)>,
    String,
>)
    ensures
        entries@.len() == 0 ==> (r matches Err(e) && e@ == "batch translation response is empty"@),
        entries@.len() > 0 ==> (r matches Ok(v) && v@ == entries@),
{
    if entries.len() == 0 {
        Err("batch translation response is empty".to_owned())
    } else {
        Ok(entries)
    }
}

} // verus!
