//! Live translation and project questions: provider names, prompt
//! templates, and reading the streamed answers of the models line by line.
use crate::json::{array_of, bool_of, get_str, json_get, str_field, JsonValue};
use crate::text::{
    all_ws, chars_of, concat_str, contains_chars, contains_seq, first_index, first_index_of,
    is_blank, is_whitespace, is_ws, join_with, lowercase, replace_all, replace_str, starts_with,
    starts_with_chars, str_eq, string_from_range, to_lowercase, trim, trim_end_char,
    trim_end_char_str, trim_start_seq, trim_start_str, trim_str,
};
use crate::file_filter::{lines_of, text_lines};
use crate::translate::{chosen_provider, opt_str, or_default, pair_view, text_or_default, TranslateConfig};
use vstd::prelude::*;

verus! {

broadcast use vstd::seq_lib::group_seq_properties;

pub const DEFAULT_LIVE_PROMPT: &'static str = "Translate the following text to {target_language}. Output only the translated text.";

/// The provider that a name stands for: `openai` (also for `chatgpt`),
/// `local-gpt` (also for `local_gpt`, `localgpt`), else `ollama`; the name
/// is trimmed and lower-cased first.
pub open spec fn translate_provider_of(name: Seq<char>) -> Seq<char> {
    translate_provider_named(lowercase(trim(name)))
}

/// The provider that a trimmed, lower-cased name stands for.
pub open spec fn translate_provider_named(n: Seq<char>) -> Seq<char> {
    if n == "openai"@ || n == "chatgpt"@ {
        "openai"@
    } else if n == "local-gpt"@ || n == "local_gpt"@ || n == "localgpt"@ {
        "local-gpt"@
    } else {
        "ollama"@
    }
}

/// The provider that a name stands for (see `translate_provider_of`).
pub fn normalize_translate_provider(provider: &str) -> (r: String)
    ensures
        r@ == translate_provider_of(provider@),
{
    let t = trim_str(provider);
    let n = to_lowercase(t.as_str());
    translate_provider_from_named(n.as_str())
}

/// The provider that a trimmed, lower-cased name stands for (see
/// `translate_provider_named`).
pub fn translate_provider_from_named(n: &str) -> (r: String)
    ensures
        r@ == translate_provider_named(n@),
{
    if str_eq(n, "openai") || str_eq(n, "chatgpt") {
        "openai".to_owned()
    } else if str_eq(n, "local-gpt") || str_eq(n, "local_gpt") || str_eq(n, "localgpt") {
        "local-gpt".to_owned()
    } else {
        "ollama".to_owned()
    }
}

/// Whether the speech recognition provider runs a local whisper server:
/// the provider (`whisperserver` when none is configured), lower-cased, is
/// `whisperserver`, `whisper-server`, `whisper_server` or `server`.
pub fn should_start_whisper_server(provider: Option<&str>) -> (r: bool)
    ensures
        r == ({
            let p = lowercase(
                match provider {
                    Some(p) => p@,
                    None => "whisperserver"@,
                },
            );
            p == "whisperserver"@ || p == "whisper-server"@ || p == "whisper_server"@ || p
                == "server"@
        }),
{
    let p = match provider {
        Some(p) => to_lowercase(p),
        None => to_lowercase("whisperserver"),
    };
    is_whisper_server_name(p.as_str())
}

/// Whether a lower-cased provider name is one of the local whisper server's:
/// `whisperserver`, `whisper-server`, `whisper_server` or `server`.
pub fn is_whisper_server_name(p: &str) -> (r: bool)
    ensures
        r == (p@ == "whisperserver"@ || p@ == "whisper-server"@ || p@ == "whisper_server"@ || p@
            == "server"@),
{
    str_eq(p, "whisperserver") || str_eq(p, "whisper-server") || str_eq(p, "whisper_server") || str_eq(
        p,
        "server",
    )
}

/// The translation settings of live translation: like those of segment
/// translation, but with the provider name normalized (see
/// `translate_provider_of`).
pub open spec fn live_settings(
    translate: Option<TranslateConfig>,
    provider_override: Option<Seq<char>>,
) -> Result<(Seq<char>, Seq<char>), Seq<char>> {
    match translate {
        None => Ok((translate_provider_of(chosen_provider(provider_override, Some("ollama"@))), "zh"@)),
        Some(cfg) => if cfg.enabled == Some(false) {
            Err("translation disabled"@)
        } else {
            Ok(
                (
                    translate_provider_of(chosen_provider(provider_override, opt_str(cfg.provider))),
                    match cfg.target_language {
                        Some(t) => t@,
                        None => "zh"@,
                    },
                ),
            )
        },
    }
}

/// The provider and target language of a live translation (see
/// `live_settings`).
pub fn resolve_live_translate_settings(
    translate: Option<TranslateConfig>,
    provider_override: Option<String>,
) -> (r: Result<(String, String), String>)
    ensures
        pair_view(r) == live_settings(translate, opt_str(provider_override)),
{
    let (configured, target) = match translate {
        None => (Some("ollama".to_owned()), "zh".to_owned()),
        Some(cfg) => {
            if cfg.enabled == Some(false) {
                return Err("translation disabled".to_owned());
            }
            let target = match cfg.target_language {
                Some(t) => t,
                None => "zh".to_owned(),
            };
            (cfg.provider, target)
        },
    };
    let provider = match provider_override {
        Some(p) => {
            if is_blank(p.as_str()) {
                match configured {
                    Some(c) => c,
                    None => "ollama".to_owned(),
                }
            } else {
                p
            }
        },
        None => match configured {
            Some(c) => c,
            None => "ollama".to_owned(),
        },
    };
    Ok((normalize_translate_provider(provider.as_str()), target))
}

/// The template of live translation prompts: the configured one when it is
/// not blank, else the default.
pub fn resolve_live_prompt_template(live_prompt: Option<String>) -> (r: String)
    ensures
        r@ == match live_prompt {
            Some(p) => if all_ws(p@) {
                DEFAULT_LIVE_PROMPT@
            } else {
                p@
            },
            None => DEFAULT_LIVE_PROMPT@,
        },
{
    match live_prompt {
        Some(p) => {
            if is_blank(p.as_str()) {
                DEFAULT_LIVE_PROMPT.to_owned()
            } else {
                p
            }
        },
        None => DEFAULT_LIVE_PROMPT.to_owned(),
    }
}

/// A prompt template filled in: `{target_language}` replaced by the target
/// language and, when a text is given, `{text}` by the text.
pub open spec fn rendered(template: Seq<char>, target: Seq<char>, text: Option<Seq<char>>) -> Seq<char> {
    let r = replace_all(template, "{target_language}"@, target);
    match text {
        Some(t) => replace_all(r, "{text}"@, t),
        None => r,
    }
}

/// A prompt template filled in (see `rendered`).
pub fn render_prompt_template(template: &str, target_language: &str, text: Option<&str>) -> (r: String)
    ensures
        r@ == rendered(
            template@,
            target_language@,
            match text {
                Some(t) => Some(t@),
                None => None,
            },
        ),
{
    proof {
        reveal_strlit("{target_language}");
        reveal_strlit("{text}");
    }
    let rendered = replace_str(template, "{target_language}", target_language);
    match text {
        Some(t) => replace_str(rendered.as_str(), "{text}", t),
        None => rendered,
    }
}

/// The prompt of a streamed live translation through Ollama: the template
/// filled in, followed by a blank line and the text when the template does
/// not place the text itself.
pub open spec fn live_prompt(template: Seq<char>, target: Seq<char>, text: Seq<char>) -> Seq<char> {
    let p = rendered(template, target, Some(text));
    if contains_seq(template, "{text}"@) {
        p
    } else {
        p + "\n\n"@ + text
    }
}

/// The prompt of a streamed live translation (see `live_prompt`).
pub fn live_translation_prompt(template: &str, target_language: &str, text: &str) -> (r: String)
    ensures
        r@ == live_prompt(template@, target_language@, text@),
{
    let prompt = render_prompt_template(template, target_language, Some(text));
    let tc = chars_of(template);
    let marker = chars_of("{text}");
    if contains_chars(&tc, &marker) {
        prompt
    } else {
        let with_gap = concat_str(prompt.as_str(), "\n\n");
        concat_str(with_gap.as_str(), text)
    }
}

/// The words of `s` (`split_whitespace`), `cur` being the word read so far.
pub open spec fn words(s: Seq<char>, cur: Seq<char>) -> Seq<Seq<char>>
    decreases s.len(),
{
    if s.len() == 0 {
        if cur.len() == 0 {
            seq![]
        } else {
            seq![cur]
        }
    } else if is_ws(s[0]) {
        if cur.len() == 0 {
            words(s.drop_first(), seq![])
        } else {
            seq![cur] + words(s.drop_first(), seq![])
        }
    } else {
        words(s.drop_first(), cur.push(s[0]))
    }
}

/// The words of `s` joined by single spaces.
pub open spec fn collapsed(s: Seq<char>) -> Seq<char> {
    join_with(words(s, seq![]), " "@)
}

/// The words of a text joined by single spaces.
pub fn collapse_whitespace(s: &str) -> (r: String)
    ensures
        r@ == collapsed(s@),
{
    let cs = chars_of(s);
    let mut out: Vec<char> = Vec::new();
    let mut cur: Vec<char> = Vec::new();
    let ghost mut done: Seq<Seq<char>> = seq![];
    let mut any = false;
    let mut i: usize = 0;
    proof {
        assert(cs@.skip(0) =~= cs@);
    }
    while i < cs.len()
        invariant
            i <= cs.len(),
            any == (done.len() > 0),
            cs@ == s@,
            words(s@, seq![]) == done + words(cs@.skip(i as int), cur@),
            out@ == join_with(done, " "@),
        decreases cs.len() - i,
    {
        let ghost rest = cs@.skip(i as int);
        proof {
            assert(rest[0] == cs@[i as int]);
            assert(rest.drop_first() =~= cs@.skip(i + 1));
        }
        let c = cs[i];
        if is_whitespace(c) {
            if cur.len() > 0 {
                if any {
                    out.push(' ');
                }
                let ghost before = out@;
                crate::text::append_chars(&mut out, &cur);
                proof {
                    reveal_strlit(" ");
                    let nd = done.push(cur@);
                    assert(nd.drop_last() =~= done);
                    if done.len() == 0 {
                        assert(before =~= Seq::<char>::empty());
                        assert(nd =~= seq![cur@]);
                        assert(out@ =~= cur@);
                    } else {
                        assert(out@ =~= join_with(done, " "@) + " "@ + cur@);
                    }
                    assert(done + (seq![cur@] + words(rest.drop_first(), seq![])) =~= nd + words(
                        rest.drop_first(),
                        seq![],
                    ));
                    done = nd;
                }
                cur = Vec::new();
                any = true;
            }
        } else {
            cur.push(c);
        }
        i += 1;
    }
    proof {
        assert(cs@.skip(i as int) =~= Seq::<char>::empty());
    }
    if cur.len() > 0 {
        if any {
            out.push(' ');
        }
        let ghost before = out@;
        crate::text::append_chars(&mut out, &cur);
        proof {
            reveal_strlit(" ");
            let nd = done.push(cur@);
            assert(nd.drop_last() =~= done);
            if done.len() == 0 {
                assert(nd =~= seq![cur@]);
                assert(out@ =~= cur@);
            } else {
                assert(out@ =~= join_with(done, " "@) + " "@ + cur@);
            }
            assert(done + seq![cur@] =~= nd);
            done = nd;
        }
    } else {
        proof {
            assert(cur@ =~= Seq::<char>::empty());
            assert(done + Seq::<Seq<char>>::empty() =~= done);
        }
    }
    crate::text::string_from_chars(&out)
}

/// A text shortened for display: its words joined by single spaces, cut
/// to `max` characters, with `...` added when it was cut.
pub open spec fn compacted(s: Seq<char>, max: nat) -> Seq<char> {
    let c = collapsed(s);
    if c.len() > max {
        c.take(max as int) + "..."@
    } else {
        c
    }
}

/// A text shortened for display (see `compacted`).
pub fn compact_text(input: &str, max_chars: usize) -> (r: String)
    ensures
        r@ == compacted(input@, max_chars as nat),
{
    let compact = collapse_whitespace(input);
    let cs = chars_of(compact.as_str());
    if cs.len() > max_chars {
        let head = string_from_range(&cs, 0, max_chars);
        proof {
            assert(cs@.subrange(0, max_chars as int) =~= cs@.take(max_chars as int));
        }
        concat_str(head.as_str(), "...")
    } else {
        compact
    }
}

/// Text received from a stream and not yet cut into lines.
#[derive(Debug)]
pub struct LineBuffer {
    buffer: String,
}

impl LineBuffer {
    /// The text held.
    pub closed spec fn view(&self) -> Seq<char> {
        self.buffer@
    }

    /// An empty buffer.
    pub fn new() -> (r: LineBuffer)
        ensures
            r.view() == Seq::<char>::empty(),
    {
        LineBuffer { buffer: String::new() }
    }

    /// Adds received text after what is held.
    pub fn push_text(&mut self, text: &str)
        ensures
            final(self).view() == old(self).view() + text@,
    {
        self.buffer.append(text);
    }

    /// Takes the text before the first line break, trimmed, and the break;
    /// nothing when no line break is held.
    pub fn next_line(&mut self) -> (r: Option<String>)
        ensures
            match first_index_of(old(self).view(), '\n') {
                Some(p) => r matches Some(l) && l@ == trim(old(self).view().take(p))
                    && final(self).view() == old(self).view().skip(p + 1),
                None => r is None && final(self).view() == old(self).view(),
            },
    {
        let cs = chars_of(self.buffer.as_str());
        match first_index(&cs, '\n') {
            Some(p) => {
                proof {
                    lemma_first_index_bound(cs@, '\n');
                }
                let line = string_from_range(&cs, 0, p);
                let rest = string_from_range(&cs, p + 1, cs.len());
                proof {
                    assert(cs@.subrange(0, p as int) =~= cs@.take(p as int));
                    assert(cs@.subrange(p + 1, cs@.len() as int) =~= cs@.skip(p + 1));
                }
                self.buffer = rest;
                Some(trim_str(line.as_str()))
            },
            None => None,
        }
    }

    /// The text held, trimmed.
    pub fn rest(&self) -> (r: String)
        ensures
            r@ == trim(self.view()),
    {
        trim_str(self.buffer.as_str())
    }
}

proof fn lemma_first_index_bound(s: Seq<char>, c: char)
    ensures
        first_index_of(s, c) matches Some(i) ==> 0 <= i < s.len(),
    decreases s.len(),
{
    if s.len() > 0 && s[0] != c {
        lemma_first_index_bound(s.drop_first(), c);
    }
}

/// What one line of an Ollama stream gives: its non-empty `response` text,
/// and whether it says the answer is done.
pub open spec fn ollama_event(v: JsonValue) -> (Option<Seq<char>>, bool) {
    (
        match str_field(v, "response"@) {
            Some(t) => if t.len() > 0 {
                Some(t)
            } else {
                None
            },
            None => None,
        },
        bool_of(json_get(v, "done"@)) == Some(true),
    )
}

/// The last line that a stream left without a line break, read once the
/// stream ended before its final event: the text held, trimmed, unless it
/// is empty.
pub fn stream_tail(done: bool, lines: &LineBuffer) -> (r: Option<String>)
    ensures
        done ==> r is None,
        !done && trim(lines.view()).len() == 0 ==> r is None,
        !done && trim(lines.view()).len() > 0 ==> (r matches Some(t) && t@ == trim(lines.view())),
{
    if done {
        return None;
    }
    let rest = lines.rest();
    if chars_of(rest.as_str()).len() == 0 {
        None
    } else {
        Some(rest)
    }
}

/// The lines of a whole raw stream, each trimmed, to read the translation
/// again from when the pieces gathered so far are blank; none when they are
/// not.
pub fn recovery_lines(full: &str, raw: &str) -> (r: Vec<String>)
    ensures
        trim(full@).len() > 0 ==> r@.len() == 0,
        trim(full@).len() == 0 ==> r@.map_values(|l: String| l@) == lines_of(raw@).map_values(
            |l: Seq<char>| trim(l),
        ),
{
    if !is_blank(full) {
        return Vec::new();
    }
    let lines = text_lines(raw);
    let ghost ls = lines@.map_values(|l: String| l@);
    let mut out: Vec<String> = Vec::new();
    let mut i: usize = 0;
    while i < lines.len()
        invariant
            i <= lines.len(),
            ls == lines@.map_values(|l: String| l@),
            ls == lines_of(raw@),
            out@.len() == i,
            forall|j: int| 0 <= j < i ==> (#[trigger] out@[j])@ == trim(ls[j]),
        decreases lines.len() - i,
    {
        out.push(trim_str(lines[i].as_str()));
        i += 1;
    }
    proof {
        assert(out@.map_values(|l: String| l@) =~= ls.map_values(|l: Seq<char>| trim(l)));
    }
    out
}

/// The pieces that some stream lines gave, one after another.
pub fn join_pieces(pieces: &Vec<Option<String>>) -> (r: String)
    ensures
        r@ == pieces_text(pieces@),
{
    let mut out = String::new();
    let mut i: usize = 0;
    while i < pieces.len()
        invariant
            i <= pieces.len(),
            out@ == pieces_text(pieces@.take(i as int)),
        decreases pieces.len() - i,
    {
        proof {
            assert(pieces@.take(i + 1).drop_last() =~= pieces@.take(i as int));
        }
        match &pieces[i] {
            Some(p) => {
                out = concat_str(out.as_str(), p.as_str());
            },
            None => {},
        }
        i += 1;
    }
    proof {
        assert(pieces@.take(pieces@.len() as int) =~= pieces@);
    }
    out
}

/// The text of the pieces that are there, in order.
pub open spec fn pieces_text(ps: Seq<Option<String>>) -> Seq<char>
    decreases ps.len(),
{
    if ps.len() == 0 {
        Seq::empty()
    } else {
        pieces_text(ps.drop_last()) + match ps.last() {
            Some(p) => p@,
            None => Seq::<char>::empty(),
        }
    }
}

/// The translation that a stream gave, trimmed: the pieces gathered as it
/// came, or, when they are blank and the pieces read again from the whole
/// stream are not, those.
pub fn finish_stream_text(full: &str, recovered: &str) -> (r: String)
    ensures
        r@ == if trim(full@).len() == 0 && trim(recovered@).len() > 0 {
            trim(recovered@)
        } else {
            trim(full@)
        },
{
    if is_blank(full) && !is_blank(recovered) {
        trim_str(recovered)
    } else {
        trim_str(full)
    }
}

/// What one line of an Ollama stream gives (see `ollama_event`).
pub fn ollama_stream_event(value: &JsonValue) -> (r: (Option<String>, bool))
    ensures
        (opt_str(r.0), r.1) == ollama_event(*value),
{
    let text = match get_str(value, "response") {
        Some(t) => {
            if chars_of(t).len() > 0 {
                Some(t.to_owned())
            } else {
                None
            }
        },
        None => None,
    };
    let done = match value.get("done") {
        Some(d) => d.as_bool() == Some(true),
        None => false,
    };
    (text, done)
}

/// The payload of a server-sent event line: the text after the `data:`
/// prefixes, trimmed; nothing for other lines.
pub open spec fn sse_data(line: Seq<char>) -> Option<Seq<char>> {
    if starts_with(line, "data:"@) {
        Some(trim(trim_start_seq(line, "data:"@)))
    } else {
        None
    }
}

/// The payload of a server-sent event line (see `sse_data`).
pub fn sse_payload(line: &str) -> (r: Option<String>)
    ensures
        opt_str(r) == sse_data(line@),
{
    let cs = chars_of(line);
    let prefix = chars_of("data:");
    if !starts_with_chars(&cs, &prefix) {
        return None;
    }
    proof {
        reveal_strlit("data:");
    }
    let rest = trim_start_str(line, "data:");
    Some(trim_str(rest.as_str()))
}

/// The text at `/choices/0/delta/content` of a value.
pub open spec fn choice_delta(v: JsonValue) -> Option<Seq<char>> {
    match array_of(json_get(v, "choices"@)) {
        Some(items) => if items.len() > 0 {
            match json_get(items[0], "delta"@) {
                Some(d) => str_field(d, "content"@),
                None => None,
            }
        } else {
            None
        },
        None => None,
    }
}

/// What one event of an OpenAI stream gives: its non-empty text delta
/// (`delta`, else `/choices/0/delta/content`), and whether it completes the
/// response.
pub open spec fn openai_event(v: JsonValue) -> (Option<Seq<char>>, bool) {
    let delta = match str_field(v, "delta"@) {
        Some(d) => Some(d),
        None => choice_delta(v),
    };
    (
        match delta {
            Some(t) => if t.len() > 0 {
                Some(t)
            } else {
                None
            },
            None => None,
        },
        str_field(v, "type"@) == Some("response.completed"@),
    )
}

/// What one event of an OpenAI stream gives (see `openai_event`).
pub fn openai_stream_event(value: &JsonValue) -> (r: (Option<String>, bool))
    ensures
        (opt_str(r.0), r.1) == openai_event(*value),
{
    let completed = match get_str(value, "type") {
        Some(t) => str_eq(t, "response.completed"),
        None => false,
    };
    let delta: Option<&str> = match get_str(value, "delta") {
        Some(d) => Some(d),
        None => match value.get("choices") {
            Some(c) => match c.as_array() {
                Some(items) => {
                    if items.len() > 0 {
                        match items[0].get("delta") {
                            Some(d) => get_str(d, "content"),
                            None => None,
                        }
                    } else {
                        None
                    }
                },
                None => None,
            },
            None => None,
        },
    };
    let text = match delta {
        Some(t) => {
            if chars_of(t).len() > 0 {
                Some(t.to_owned())
            } else {
                None
            }
        },
        None => None,
    };
    (text, completed)
}

/// A question to the index of some projects, checked: the query trimmed,
/// how many passages to fetch, and whether the answer may go beyond them.
#[derive(Debug)]
pub struct RagAskPlan {
    pub query: String,
    pub top_k: usize,
    pub allow_out_of_context: bool,
}

/// Checks a question to the index: "query is empty" when the query is
/// blank, "project_ids is empty" when no project is named; otherwise the
/// query trimmed, the number of passages (8 by default) kept between 1 and
/// 20, and whether to allow answers beyond the passages (no by default).
pub fn check_rag_ask(
    query: &str,
    project_ids: &Vec<String>,
    top_k: Option<usize>,
    allow_out_of_context: Option<bool>,
) -> (r: Result<RagAskPlan, String>)
    ensures
        trim(query@).len() == 0 ==> (r matches Err(e) && e@ == "query is empty"@),
        trim(query@).len() > 0 && project_ids.len() == 0 ==> (r matches Err(e) && e@
            == "project_ids is empty"@),
        trim(query@).len() > 0 && project_ids.len() > 0 ==> (r matches Ok(plan) && plan.query@ == trim(
            query@,
        ) && plan.top_k == ({
            let k = match top_k {
                Some(k) => k,
                None => 8,
            };
            if k < 1 {
                1
            } else if k > 20 {
                20
            } else {
                k
            }
        }) && plan.allow_out_of_context == match allow_out_of_context {
            Some(a) => a,
            None => false,
        }),
{
    if is_blank(query) {
        return Err("query is empty".to_owned());
    }
    if project_ids.len() == 0 {
        return Err("project_ids is empty".to_owned());
    }
    let k = match top_k {
        Some(k) => k,
        None => 8,
    };
    let top_k = if k < 1 {
        1
    } else if k > 20 {
        20
    } else {
        k
    };
    let allow = match allow_out_of_context {
        Some(a) => a,
        None => false,
    };
    Ok(RagAskPlan { query: trim_str(query), top_k, allow_out_of_context: allow })
}

/// The context given when the index has no passage for a question.
pub const NO_CONTEXT_TEXT: &'static str = "No relevant context found in local project index.";

/// The opening of a question prompt that lets the model go beyond the
/// passages.
pub const OPEN_PROMPT_HEAD: &'static str = "你是项目代码/文档问答助手。请优先使用给定上下文回答问题。\n若上下文不足，你可以补充通用知识完成回答，但要明确标注“以下内容超出检索上下文”。\n若引用上下文结论，请在句尾用 [n] 标注来源编号。\n\n问题:\n";

/// The opening of a question prompt that keeps the model to the passages.
pub const CLOSED_PROMPT_HEAD: &'static str = "你是项目代码/文档问答助手。请仅基于给定上下文回答问题。\n如果上下文不足，请明确说“根据当前检索结果无法确定”。\n回答要简洁，并在关键结论后用 [n] 标注来源编号。\n\n问题:\n";

/// The prompt of a question to the index: the instructions, the question
/// and the passages found.
pub open spec fn rag_prompt_text(query: Seq<char>, context: Seq<char>, allow: bool) -> Seq<char> {
    (if allow {
        OPEN_PROMPT_HEAD@
    } else {
        CLOSED_PROMPT_HEAD@
    }) + query + "\n\n上下文:\n"@ + context
}

/// The prompt of a question to the index (see `rag_prompt_text`).
pub fn rag_prompt(query: &str, context: &str, allow_out_of_context: bool) -> (r: String)
    ensures
        r@ == rag_prompt_text(query@, context@, allow_out_of_context),
{
    let head = if allow_out_of_context {
        OPEN_PROMPT_HEAD
    } else {
        CLOSED_PROMPT_HEAD
    };
    let a = concat_str(head, query);
    let b = concat_str(a.as_str(), "\n\n上下文:\n");
    concat_str(b.as_str(), context)
}

pub const DEFAULT_LOCAL_GPT_BASE_URL: &'static str = "http://127.0.0.1:8787";

pub const DEFAULT_LOCAL_GPT_TIMEOUT: u64 = 240;

pub const DEFAULT_LOCAL_GPT_PROJECT_ID: &'static str = "g-p-698c11cf2bc08191b07e28128883fcbb-testapi";

/// The local GPT part of the configuration.
#[derive(Debug)]
pub struct LocalGptConfig {
    pub enabled: Option<bool>,
    pub base_url: Option<String>,
    pub timeout_secs: Option<u64>,
    pub project_id: Option<String>,
}

/// The settings of a request to the local GPT service.
#[derive(Debug)]
pub struct LocalGptSettings {
    pub url: String,
    pub timeout_secs: u64,
    pub project_id: String,
}

/// The settings of a local GPT request: the service's direct endpoint under
/// the base address (default when blank), the timeout (240 s by default),
/// and the project id trimmed (default when blank).
pub fn local_gpt_settings(cfg: &Option<LocalGptConfig>) -> (r: LocalGptSettings)
    ensures
        ({
            let (base, timeout, project) = match cfg {
                Some(c) => (opt_str(c.base_url), c.timeout_secs, opt_str(c.project_id)),
                None => (Some(DEFAULT_LOCAL_GPT_BASE_URL@), Some(DEFAULT_LOCAL_GPT_TIMEOUT), None),
            };
            &&& r.url@ == crate::text::trim_end_char(
                crate::translate::or_default(base, DEFAULT_LOCAL_GPT_BASE_URL@),
                '/',
            ) + "/local-gpt-sse/direct"@
            &&& r.timeout_secs == match timeout {
                Some(t) => t,
                None => DEFAULT_LOCAL_GPT_TIMEOUT,
            }
            &&& r.project_id@ == match project {
                Some(p) => if trim(p).len() > 0 {
                    trim(p)
                } else {
                    DEFAULT_LOCAL_GPT_PROJECT_ID@
                },
                None => DEFAULT_LOCAL_GPT_PROJECT_ID@,
            }
        }),
{
    let (base, timeout, project) = match cfg {
        Some(c) => (
            crate::translate::text_or_default(&c.base_url, DEFAULT_LOCAL_GPT_BASE_URL),
            c.timeout_secs,
            match &c.project_id {
                Some(p) => Some(trim_str(p.as_str())),
                None => None,
            },
        ),
        None => (
            crate::translate::text_or_default(&Some(DEFAULT_LOCAL_GPT_BASE_URL.to_owned()), DEFAULT_LOCAL_GPT_BASE_URL),
            Some(DEFAULT_LOCAL_GPT_TIMEOUT),
            None,
        ),
    };
    let trimmed_base = crate::text::trim_end_char_str(base.as_str(), '/');
    let url = concat_str(trimmed_base.as_str(), "/local-gpt-sse/direct");
    let timeout_secs = match timeout {
        Some(t) => t,
        None => DEFAULT_LOCAL_GPT_TIMEOUT,
    };
    let project_id = match project {
        Some(p) => {
            if chars_of(p.as_str()).len() > 0 {
                p
            } else {
                DEFAULT_LOCAL_GPT_PROJECT_ID.to_owned()
            }
        },
        None => DEFAULT_LOCAL_GPT_PROJECT_ID.to_owned(),
    };
    LocalGptSettings { url, timeout_secs, project_id }
}

/// What a local GPT answer gives. The answer is taken when the request
/// succeeded and the body does not say `ok: false` (then its `result` is
/// owed); a timed-out answer with a partial `result` is taken too;
/// otherwise the body's `message`, or the whole body as text, is the error.
pub open spec fn local_gpt_answer(status_ok: bool, v: JsonValue, v_text: Seq<char>) -> Result<
    Seq<char>,
    Seq<char>,
> {
    let result = crate::translate::nonblank_trim(str_field(v, "result"@));
    let message = match crate::translate::nonblank_trim(str_field(v, "message"@)) {
        Some(m) => m,
        None => v_text,
    };
    if status_ok && bool_of(json_get(v, "ok"@)) != Some(false) {
        match result {
            Some(t) => Ok(t),
            None => Err("local-gpt response missing result"@),
        }
    } else if bool_of(json_get(v, "timed_out"@)) == Some(true) && result is Some {
        Ok(result->0)
    } else {
        Err(message)
    }
}

/// The views of a text or an error.
pub open spec fn text_result(r: Result<String, String>) -> Result<Seq<char>, Seq<char>> {
    match r {
        Ok(t) => Ok(t@),
        Err(e) => Err(e@),
    }
}

/// The trimmed text of a string field, when it is not blank.
fn trimmed_field(v: &JsonValue, key: &str) -> (r: Option<String>)
    ensures
        opt_str(r) == crate::translate::nonblank_trim(str_field(*v, key@)),
{
    match get_str(v, key) {
        Some(s) => {
            if is_blank(s) {
                None
            } else {
                Some(trim_str(s))
            }
        },
        None => None,
    }
}

/// What a local GPT answer gives (see `local_gpt_answer`); `value_text` is
/// the body as JSON text.
pub fn local_gpt_outcome(status_ok: bool, value: &JsonValue, value_text: &str) -> (r: Result<String, String>)
    ensures
        text_result(r) == local_gpt_answer(status_ok, *value, value_text@),
{
    let result = trimmed_field(value, "result");
    let ok_flag = match value.get("ok") {
        Some(v) => v.as_bool(),
        None => None,
    };
    if status_ok && ok_flag != Some(false) {
        return match result {
            Some(t) => Ok(t),
            None => Err("local-gpt response missing result".to_owned()),
        };
    }
    let timed_out = match value.get("timed_out") {
        Some(v) => v.as_bool() == Some(true),
        None => false,
    };
    if timed_out {
        if let Some(partial) = result {
            return Ok(partial);
        }
    }
    match trimmed_field(value, "message") {
        Some(m) => Err(m),
        None => Err(value_text.to_owned()),
    }
}

/// The text at `/choices/0/message/content` of a chat completion.
pub open spec fn completion_content(v: JsonValue) -> Option<Seq<char>> {
    match array_of(json_get(v, "choices"@)) {
        Some(items) => if items.len() > 0 {
            match json_get(items[0], "message"@) {
                Some(m) => str_field(m, "content"@),
                None => None,
            }
        } else {
            None
        },
        None => None,
    }
}

/// The text of a chat completion (see `completion_content`).
pub fn chat_completion_content(value: &JsonValue) -> (r: Option<String>)
    ensures
        opt_str(r) == completion_content(*value),
{
    match value.get("choices") {
        Some(c) => match c.as_array() {
            Some(items) => {
                if items.len() > 0 {
                    match items[0].get("message") {
                        Some(m) => match get_str(m, "content") {
                            Some(t) => Some(t.to_owned()),
                            None => None,
                        },
                        None => None,
                    }
                } else {
                    None
                }
            },
            None => None,
        },
        None => None,
    }
}

/// The `response` text of an Ollama answer, trimmed, when not empty.
pub fn ollama_response_text(value: &JsonValue) -> (r: Option<String>)
    ensures
        opt_str(r) == crate::translate::nonblank_trim(str_field(*value, "response"@)),
{
    trimmed_field(value, "response")
}

/// The provider of a direct model request: its name lower-cased when it is
/// `openai` or `ollama`; any other is refused as "unknown provider: …".
pub fn llm_provider(provider: &str) -> (r: Result<String, String>)
    ensures
        ({
            let p = lowercase(provider@);
            if p == "openai"@ || p == "ollama"@ {
                r matches Ok(q) && q@ == p
            } else {
                r matches Err(e) && e@ == "unknown provider: "@ + p
            }
        }),
{
    let p = to_lowercase(provider);
    llm_provider_from_named(p)
}

/// The provider of a direct model request, given its lower-cased name:
/// `openai` and `ollama` are kept, any other is refused as
/// "unknown provider: …".
pub fn llm_provider_from_named(p: String) -> (r: Result<String, String>)
    ensures
        p@ == "openai"@ || p@ == "ollama"@ ==> (r matches Ok(q) && q@ == p@),
        !(p@ == "openai"@ || p@ == "ollama"@) ==> (r matches Err(e) && e@ == "unknown provider: "@ + p@),
{
    if str_eq(p.as_str(), "openai") || str_eq(p.as_str(), "ollama") {
        Ok(p)
    } else {
        Err(concat_str("unknown provider: ", p.as_str()))
    }
}

/// The service that answers a question to the index.
#[derive(Debug, Clone, Copy, PartialEq, Eq, Structural)]
pub enum AnswerRoute {
    OpenAi,
    LocalGpt,
    Ollama,
}

/// The service for a (normalized) provider name: OpenAI for `openai`, the
/// local GPT service for `local-gpt`, Ollama for any other.
pub fn answer_route(provider: &str) -> (r: AnswerRoute)
    ensures
        provider@ == "openai"@ ==> r == AnswerRoute::OpenAi,
        provider@ == "local-gpt"@ ==> r == AnswerRoute::LocalGpt,
        provider@ != "openai"@ && provider@ != "local-gpt"@ ==> r == AnswerRoute::Ollama,
{
    proof {
        reveal_strlit("openai");
        reveal_strlit("local-gpt");
        assert("openai"@[0] != "local-gpt"@[0]);
    }
    if str_eq(provider, "openai") {
        AnswerRoute::OpenAi
    } else if str_eq(provider, "local-gpt") {
        AnswerRoute::LocalGpt
    } else {
        AnswerRoute::Ollama
    }
}

/// The address of a direct OpenAI request when none is given.
pub const DEFAULT_DIRECT_OPENAI_BASE_URL: &'static str = "https://api.openai.com";

/// The address of a direct Ollama request when none is given.
pub const DEFAULT_DIRECT_OLLAMA_BASE_URL: &'static str = "http://localhost:11434";

/// The endpoint and key of a direct OpenAI request: refused with "OpenAI
/// api_key is required" when the key is missing or blank; otherwise the
/// chat completions endpoint under the base address (default when blank,
/// trailing slashes dropped) and the key as given.
pub fn direct_openai_target(base_url: &Option<String>, api_key: &Option<String>) -> (r: Result<
    (String, String),
    String,
>)
    ensures
        match *api_key {
            Some(k) => if all_ws(k@) {
                r matches Err(e) && e@ == "OpenAI api_key is required"@
            } else {
                r matches Ok((url, key)) && key@ == k@ && url@ == trim_end_char(
                    or_default(opt_str(*base_url), DEFAULT_DIRECT_OPENAI_BASE_URL@),
                    '/',
                ) + "/v1/chat/completions"@
            },
            None => r matches Err(e) && e@ == "OpenAI api_key is required"@,
        },
{
    let key = match api_key {
        Some(k) => {
            if is_blank(k.as_str()) {
                return Err("OpenAI api_key is required".to_owned());
            }
            k.clone()
        },
        None => return Err("OpenAI api_key is required".to_owned()),
    };
    let base = text_or_default(base_url, DEFAULT_DIRECT_OPENAI_BASE_URL);
    let trimmed = trim_end_char_str(base.as_str(), '/');
    Ok((concat_str(trimmed.as_str(), "/v1/chat/completions"), key))
}

/// The generate endpoint of a direct Ollama request, under the base
/// address (default when blank, trailing slashes dropped).
pub fn direct_ollama_url(base_url: &Option<String>) -> (r: String)
    ensures
        r@ == trim_end_char(or_default(opt_str(*base_url), DEFAULT_DIRECT_OLLAMA_BASE_URL@), '/')
            + "/api/generate"@,
{
    let base = text_or_default(base_url, DEFAULT_DIRECT_OLLAMA_BASE_URL);
    let trimmed = trim_end_char_str(base.as_str(), '/');
    concat_str(trimmed.as_str(), "/api/generate")
}

/// Whether a live prompt template places the text itself (`{text}`); when
/// it does not, the text is sent after the prompt.
pub fn prompt_uses_text(template: &str) -> (r: bool)
    ensures
        r == contains_seq(template@, "{text}"@),
{
    contains_chars(&chars_of(template), &chars_of("{text}"))
}

/// Whether a server-sent event payload marks the end of the stream
/// (`[DONE]`).
pub fn sse_done(payload: &str) -> (r: bool)
    ensures
        r == (payload@ == "[DONE]"@),
{
    str_eq(payload, "[DONE]")
}

/// The text of a piece, or nothing.
pub open spec fn piece_text(p: Option<Seq<char>>) -> Seq<char> {
    match p {
        Some(t) => t,
        None => Seq::empty(),
    }
}

/// What one line of an Ollama stream contributes: the text it adds and
/// whether it ends the stream. An empty line, or one that is not JSON
/// (`parsed` is its parse), adds nothing.
pub open spec fn ollama_line_event(line: Seq<char>, parsed: Option<JsonValue>) -> (Seq<char>, bool) {
    if line.len() == 0 {
        (Seq::empty(), false)
    } else {
        match parsed {
            Some(v) => (piece_text(ollama_event(v).0), ollama_event(v).1),
            None => (Seq::empty(), false),
        }
    }
}

/// What one line of an OpenAI event stream contributes: a line that is not a
/// `data:` line, or whose payload is not JSON (`parsed` is the payload's
/// parse), adds nothing; the payload `[DONE]` ends the stream.
pub open spec fn openai_line_event(line: Seq<char>, parsed: Option<JsonValue>) -> (Seq<char>, bool) {
    match sse_data(line) {
        None => (Seq::empty(), false),
        Some(payload) => if payload == "[DONE]"@ {
            (Seq::empty(), true)
        } else {
            match parsed {
                Some(v) => (piece_text(openai_event(v).0), openai_event(v).1),
                None => (Seq::empty(), false),
            }
        },
    }
}

/// One line taken in: once the stream has ended nothing changes; before,
/// the line's text is added and it may end the stream.
pub open spec fn stream_step(st: (Seq<char>, bool), ev: (Seq<char>, bool)) -> (Seq<char>, bool) {
    if st.1 {
        st
    } else {
        (st.0 + ev.0, ev.1)
    }
}

/// The text gathered and whether the stream ended, after lines that
/// contribute `evs`, in order.
pub open spec fn stream_run(evs: Seq<(Seq<char>, bool)>) -> (Seq<char>, bool)
    decreases evs.len(),
{
    if evs.len() == 0 {
        (Seq::empty(), false)
    } else {
        stream_step(stream_run(evs.drop_last()), evs.last())
    }
}

/// The texts of the lines up to and including the first that ends the
/// stream, joined.
pub open spec fn text_until_done(evs: Seq<(Seq<char>, bool)>) -> Seq<char>
    decreases evs.len(),
{
    if evs.len() == 0 {
        Seq::empty()
    } else {
        evs[0].0 + if evs[0].1 {
            Seq::<char>::empty()
        } else {
            text_until_done(evs.drop_first())
        }
    }
}

/// Whether some line ends the stream.
pub open spec fn ends_stream(evs: Seq<(Seq<char>, bool)>) -> bool
    decreases evs.len(),
{
    evs.len() > 0 && (evs[0].1 || ends_stream(evs.drop_first()))
}

proof fn lemma_until_done_push(evs: Seq<(Seq<char>, bool)>, e: (Seq<char>, bool))
    ensures
        text_until_done(evs.push(e)) == if ends_stream(evs) {
            text_until_done(evs)
        } else {
            text_until_done(evs) + e.0
        },
        ends_stream(evs.push(e)) == (ends_stream(evs) || e.1),
    decreases evs.len(),
{
    let ep = evs.push(e);
    if evs.len() == 0 {
        assert(ep.drop_first() =~= Seq::<(Seq<char>, bool)>::empty());
        assert(ep[0] == e);
        assert(e.0 + Seq::<char>::empty() =~= e.0);
    } else {
        assert(ep[0] == evs[0]);
        assert(ep.drop_first() =~= evs.drop_first().push(e));
        lemma_until_done_push(evs.drop_first(), e);
        if !ends_stream(evs) {
            assert(evs[0].0 + (text_until_done(evs.drop_first()) + e.0) =~= (evs[0].0
                + text_until_done(evs.drop_first())) + e.0);
        }
    }
}

/// A stream's translation is what its lines gave up to and including the
/// line that ends it: whatever comes after that line adds nothing.
pub proof fn stream_text_is_text_until_done(evs: Seq<(Seq<char>, bool)>)
    ensures
        stream_run(evs) == (text_until_done(evs), ends_stream(evs)),
    decreases evs.len(),
{
    if evs.len() > 0 {
        let init = evs.drop_last();
        stream_text_is_text_until_done(init);
        lemma_until_done_push(init, evs.last());
        assert(init.push(evs.last()) =~= evs);
    }
}

/// The text a stream has given so far, and whether it has ended.
#[derive(Debug)]
pub struct StreamText {
    full: String,
    done: bool,
}

impl StreamText {
    /// The text gathered and whether the stream ended.
    pub closed spec fn view(&self) -> (Seq<char>, bool) {
        (self.full@, self.done)
    }

    /// Nothing received yet.
    pub fn new() -> (r: StreamText)
        ensures
            r.view() == (Seq::<char>::empty(), false),
    {
        StreamText { full: String::new(), done: false }
    }

    fn take(&mut self, ev: (Option<String>, bool)) -> (r: Option<String>)
        ensures
            final(self).view() == stream_step(old(self).view(), (piece_text(opt_str(ev.0)), ev.1)),
            r == if old(self).view().1 {
                None
            } else {
                ev.0
            },
    {
        if self.done {
            return None;
        }
        match &ev.0 {
            Some(p) => {
                self.full = concat_str(self.full.as_str(), p.as_str());
            },
            None => {
                assert(self.full@ + Seq::<char>::empty() =~= self.full@);
            },
        }
        self.done = ev.1;
        ev.0
    }

    /// Takes in one line of an Ollama stream, with its parse as JSON when it
    /// parses; gives the piece it adds, if any.
    pub fn ollama_line(&mut self, line: &str, parsed: Option<JsonValue>) -> (r: Option<String>)
        ensures
            final(self).view() == stream_step(old(self).view(), ollama_line_event(line@, parsed)),
            r is Some <==> (!old(self).view().1 && ollama_line_event(line@, parsed).0.len() > 0),
            r matches Some(p) ==> p@ == ollama_line_event(line@, parsed).0,
    {
        if chars_of(line).len() == 0 {
            return self.take((None, false));
        }
        match parsed {
            Some(v) => {
                let ev = ollama_stream_event(&v);
                self.take(ev)
            },
            None => self.take((None, false)),
        }
    }

    /// Takes in one line of an OpenAI event stream, with the parse of its
    /// payload as JSON when it parses; gives the piece it adds, if any.
    pub fn openai_line(&mut self, line: &str, parsed: Option<JsonValue>) -> (r: Option<String>)
        ensures
            final(self).view() == stream_step(old(self).view(), openai_line_event(line@, parsed)),
            r is Some <==> (!old(self).view().1 && openai_line_event(line@, parsed).0.len() > 0),
            r matches Some(p) ==> p@ == openai_line_event(line@, parsed).0,
    {
        match sse_payload(line) {
            None => self.take((None, false)),
            Some(payload) => {
                if sse_done(payload.as_str()) {
                    proof {
                        reveal_strlit("[DONE]");
                    }
                    self.take((None, true))
                } else {
                    match parsed {
                        Some(v) => {
                            let ev = openai_stream_event(&v);
                            self.take(ev)
                        },
                        None => self.take((None, false)),
                    }
                }
            },
        }
    }

    /// Whether the stream has ended.
    pub fn done(&self) -> (r: bool)
        ensures
            r == self.view().1,
    {
        self.done
    }

    /// The text gathered.
    pub fn text(&self) -> (r: String)
        ensures
            r@ == self.view().0,
    {
        self.full.clone()
    }
}

} // verus!
