//! Speech recognition settings: the provider and language, the whisper
//! backend and server, and reading what the recognizers answer.
use crate::json::{str_field, JsonValue};
use crate::live::{collapse_whitespace, collapsed};
use crate::text::{
    all_ws, chars_of, concat_str, contains_chars, contains_seq, ends_with, ends_with_chars,
    is_blank, lowercase, ascii_lower, replace_all, replace_str, str_eq, string_from_range,
    to_ascii_lowercase, to_lowercase, trim, trim_end_char, trim_end_char_str, trim_str, decimal,
    u64_to_decimal, is_ascii_text, ascii_lower_char, lemma_ascii_lower, lemma_trim_edges, lemma_trim_no_edge_ws,
};
use crate::translate::{nonblank_trim, opt_str, or_default, text_or_default};
use vstd::prelude::*;

verus! {

broadcast use vstd::seq_lib::group_seq_properties;

/// The speech recognition provider that a name stands for: `openai`, else
/// `whisperserver` (every whisper name and anything unknown); the name is
/// trimmed and lower-cased first.
pub open spec fn asr_provider_of(raw: Seq<char>) -> Seq<char> {
    asr_provider_named(lowercase(trim(raw)))
}

/// The speech recognition provider that a trimmed, lower-cased name stands
/// for.
pub open spec fn asr_provider_named(l: Seq<char>) -> Seq<char> {
    if l == "openai"@ {
        "openai"@
    } else {
        "whisperserver"@
    }
}

/// The speech recognition provider that a trimmed, lower-cased name stands
/// for (see `asr_provider_named`).
pub fn provider_named(l: &str) -> (r: String)
    ensures
        r@ == asr_provider_named(l@),
{
    if str_eq(l, "openai") {
        "openai".to_owned()
    } else {
        "whisperserver".to_owned()
    }
}

/// The speech recognition provider that a name stands for (see
/// `asr_provider_of`).
pub fn normalize_provider(raw: &str) -> (r: String)
    ensures
        r@ == asr_provider_of(raw@),
{
    let t = trim_str(raw);
    let l = to_lowercase(t.as_str());
    provider_named(l.as_str())
}

/// The language that a name stands for: `zh`, `en` or `ja` for their usual
/// names, `ja` for a blank name, else the name trimmed and lower-cased.
pub open spec fn language_of(raw: Seq<char>) -> Seq<char> {
    language_named(lowercase(trim(raw)))
}

/// The language that a trimmed, lower-cased name stands for.
pub open spec fn language_named(t: Seq<char>) -> Seq<char> {
    if t == "zh"@ || t == "zh-cn"@ || t == "zh-hans"@ || t == "chinese"@ {
        "zh"@
    } else if t == "en"@ || t == "en-us"@ || t == "en-gb"@ || t == "english"@ {
        "en"@
    } else if t == "ja"@ || t == "ja-jp"@ || t == "japanese"@ || t.len() == 0 {
        "ja"@
    } else {
        t
    }
}

/// The language that a name stands for (see `language_of`).
pub fn normalize_language(raw: &str) -> (r: String)
    ensures
        r@ == language_of(raw@),
        is_ascii_text(trim(raw@)) ==> r@ == language_named(ascii_lower(trim(raw@))),
{
    let t = trim_str(raw);
    let l = to_lowercase(t.as_str());
    language_from_named(l)
}

/// The language that a trimmed, lower-cased name stands for (see
/// `language_named`).
pub fn language_from_named(l: String) -> (r: String)
    ensures
        r@ == language_named(l@),
{
    let s = l.as_str();
    if str_eq(s, "zh") || str_eq(s, "zh-cn") || str_eq(s, "zh-hans") || str_eq(s, "chinese") {
        "zh".to_owned()
    } else if str_eq(s, "en") || str_eq(s, "en-us") || str_eq(s, "en-gb") || str_eq(s, "english") {
        "en".to_owned()
    } else if str_eq(s, "ja") || str_eq(s, "ja-jp") || str_eq(s, "japanese") || str_eq(s, "") {
        proof {
            reveal_strlit("");
        }
        "ja".to_owned()
    } else {
        proof {
            reveal_strlit("");
            assert(l@.len() != 0) by {
                if l@.len() == 0 {
                    assert(l@ =~= ""@);
                }
            }
        }
        l
    }
}

/// Normalizing a language name that is ASCII once trimmed gives a name that
/// normalizes to itself: setting the language to the language in use
/// changes nothing. (Of a non-ASCII name, the library knows no more of the
/// Unicode lower-casing than that it depends on the name alone.)
pub proof fn ascii_language_is_stable(raw: Seq<char>)
    requires
        is_ascii_text(trim(raw)),
    ensures
        ({
            let l = language_named(ascii_lower(trim(raw)));
            &&& is_ascii_text(trim(l))
            &&& language_named(ascii_lower(trim(l))) == l
        }),
{
    let u = trim(raw);
    let t = ascii_lower(u);
    lemma_ascii_lower(u);
    lemma_trim_edges(raw);
    reveal_strlit("zh");
    reveal_strlit("en");
    reveal_strlit("ja");
    reveal_strlit("zh-cn");
    reveal_strlit("zh-hans");
    reveal_strlit("chinese");
    reveal_strlit("en-us");
    reveal_strlit("en-gb");
    reveal_strlit("english");
    reveal_strlit("ja-jp");
    reveal_strlit("japanese");
    let l = language_named(t);
    if l == "zh"@ || l == "en"@ || l == "ja"@ {
        lemma_trim_no_edge_ws(l);
        assert(ascii_lower(l) =~= l);
        assert(language_named(l) == l);
    } else {
        assert(l == t);
        if t.len() > 0 {
            assert(t[0] == ascii_lower_char(u[0]));
            assert(t.last() == t[t.len() - 1]);
        }
        lemma_trim_no_edge_ws(t);
        lemma_ascii_lower(t);
        assert(trim(l) == t);
        assert(ascii_lower(trim(l)) == t);
        assert(language_named(t) == t);
    }
}

/// The speech recognition settings chosen by the user.
#[derive(Debug)]
pub struct AsrState {
    provider: String,
    fallback_to_openai: bool,
    language: String,
}

impl AsrState {
    /// The provider in use.
    pub closed spec fn provider_view(&self) -> Seq<char> {
        self.provider@
    }

    /// Whether OpenAI is tried when the local recognizer fails.
    pub closed spec fn fallback_view(&self) -> bool {
        self.fallback_to_openai
    }

    /// The language in use.
    pub closed spec fn language_view(&self) -> Seq<char> {
        self.language@
    }

    /// The settings from the configuration: the provider (`whisperserver`
    /// when none or blank) and language (`ja` when none or blank), both
    /// normalized, and the fallback (on by default).
    pub fn new(provider: Option<String>, fallback_to_openai: Option<bool>, language: Option<String>) -> (r: AsrState)
        ensures
            r.provider_view() == asr_provider_of(or_default(opt_str(provider), "whisperserver"@)),
            r.fallback_view() == match fallback_to_openai {
                Some(f) => f,
                None => true,
            },
            r.language_view() == language_of(or_default(opt_str(language), "ja"@)),
    {
        let provider = text_or_default(&provider, "whisperserver");
        let language = text_or_default(&language, "ja");
        AsrState {
            provider: normalize_provider(provider.as_str()),
            fallback_to_openai: match fallback_to_openai {
                Some(f) => f,
                None => true,
            },
            language: normalize_language(language.as_str()),
        }
    }

    /// The provider in use.
    pub fn provider(&self) -> (r: String)
        ensures
            r@ == self.provider_view(),
    {
        self.provider.clone()
    }

    /// Switches the provider; gives the normalized name.
    pub fn set_provider(&mut self, provider: String) -> (r: String)
        ensures
            r@ == asr_provider_of(provider@),
            final(self).provider_view() == r@,
            final(self).fallback_view() == old(self).fallback_view(),
            final(self).language_view() == old(self).language_view(),
    {
        let normalized = normalize_provider(provider.as_str());
        self.provider = normalized.clone();
        normalized
    }

    /// Whether OpenAI is tried when the local recognizer fails.
    pub fn fallback_to_openai(&self) -> (r: bool)
        ensures
            r == self.fallback_view(),
    {
        self.fallback_to_openai
    }

    /// Turns the fallback on or off; gives the new value.
    pub fn set_fallback_to_openai(&mut self, value: bool) -> (r: bool)
        ensures
            r == value,
            final(self).fallback_view() == value,
            final(self).provider_view() == old(self).provider_view(),
            final(self).language_view() == old(self).language_view(),
    {
        self.fallback_to_openai = value;
        value
    }

    /// The language in use.
    pub fn language(&self) -> (r: String)
        ensures
            r@ == self.language_view(),
    {
        self.language.clone()
    }

    /// Switches the language; gives the normalized name.
    pub fn set_language(&mut self, language: String) -> (r: String)
        ensures
            r@ == language_of(language@),
            is_ascii_text(trim(language@)) ==> r@ == language_named(ascii_lower(trim(language@))),
            final(self).language_view() == r@,
            final(self).provider_view() == old(self).provider_view(),
            final(self).fallback_view() == old(self).fallback_view(),
    {
        let normalized = normalize_language(language.as_str());
        self.language = normalized.clone();
        normalized
    }
}

/// How audio reaches the whisper recognizer.
#[derive(Debug, Clone, Copy, PartialEq, Eq, Structural)]
pub enum WhisperTranscribeBackend {
    Server,
    Pipe,
}

impl WhisperTranscribeBackend {
    /// The name of the backend in logs.
    pub fn as_label(self) -> (r: &'static str)
        ensures
            self is Server ==> r@ == "server"@,
            self is Pipe ==> r@ == "pipe"@,
    {
        match self {
            WhisperTranscribeBackend::Server => "server",
            WhisperTranscribeBackend::Pipe => "pipe",
        }
    }
}

/// Whether a name, lower-cased, is one of the names of the pipe backend.
pub open spec fn names_pipe(n: Seq<char>) -> bool {
    n == "pipe"@ || n == "pipe-ipc"@ || n == "pipeipc"@ || n == "ipc"@ || n == "stdio"@ || n
        == "stdin"@ || n == "stdout"@
}

/// The whisper backend that the configuration names: the pipe for one of
/// its names (trimmed, ASCII lower-cased), the server otherwise.
pub fn resolve_whisper_transcribe_backend(whisper_backend: Option<&str>) -> (r: WhisperTranscribeBackend)
    ensures
        (r is Pipe) == names_pipe(
            ascii_lower(
                match whisper_backend {
                    Some(b) => trim(b@),
                    None => seq![],
                },
            ),
        ),
{
    let raw = match whisper_backend {
        Some(b) => trim_str(b),
        None => String::new(),
    };
    let n = to_ascii_lowercase(raw.as_str());
    let s = n.as_str();
    if str_eq(s, "pipe") || str_eq(s, "pipe-ipc") || str_eq(s, "pipeipc") || str_eq(s, "ipc") || str_eq(
        s,
        "stdio",
    ) || str_eq(s, "stdin") || str_eq(s, "stdout") {
        WhisperTranscribeBackend::Pipe
    } else {
        WhisperTranscribeBackend::Server
    }
}

/// Whether a provider name, lower-cased, names a whisper recognizer.
pub open spec fn names_whisper(n: Seq<char>) -> bool {
    n == "whisperserver"@ || n == "whisper-server"@ || n == "whisper_server"@ || n == "server"@ || n
        == "whispercpp"@ || n == "whisper.cpp"@ || n == "whisper"@
}

/// Whether the configured provider (`whisperserver` when none), trimmed
/// and ASCII lower-cased, is a whisper recognizer.
pub fn provider_uses_whisper(provider: Option<&str>) -> (r: bool)
    ensures
        r == names_whisper(
            ascii_lower(
                match provider {
                    Some(p) => trim(p@),
                    None => "whisperserver"@,
                },
            ),
        ),
{
    let raw = match provider {
        Some(p) => trim_str(p),
        None => "whisperserver".to_owned(),
    };
    let n = to_ascii_lowercase(raw.as_str());
    let s = n.as_str();
    str_eq(s, "whisperserver") || str_eq(s, "whisper-server") || str_eq(s, "whisper_server") || str_eq(
        s,
        "server",
    ) || str_eq(s, "whispercpp") || str_eq(s, "whisper.cpp") || str_eq(s, "whisper")
}

/// Whether a local whisper server is to be started: the provider is a
/// whisper recognizer reached through the server backend.
pub fn should_start_whisper_server(provider: Option<&str>, whisper_backend: Option<&str>) -> (r: bool)
    ensures
        r == (names_whisper(
            ascii_lower(
                match provider {
                    Some(p) => trim(p@),
                    None => "whisperserver"@,
                },
            ),
        ) && !names_pipe(
            ascii_lower(
                match whisper_backend {
                    Some(b) => trim(b@),
                    None => seq![],
                },
            ),
        )),
{
    if !provider_uses_whisper(provider) {
        return false;
    }
    match resolve_whisper_transcribe_backend(whisper_backend) {
        WhisperTranscribeBackend::Server => true,
        WhisperTranscribeBackend::Pipe => false,
    }
}

/// The transcription endpoint of an OpenAI-style address: trimmed, without
/// trailing `/`; kept when it ends with `/audio/transcriptions`; a
/// `/v1/responses` ending becomes `/v1/audio/transcriptions`; a `/v1`
/// ending gets `/audio/transcriptions`; kept when it contains `/v1/`;
/// otherwise `/v1/audio/transcriptions` is added.
pub open spec fn transcriptions_url(raw: Seq<char>) -> Seq<char> {
    let t = trim_end_char(trim(raw), '/');
    if ends_with(t, "/audio/transcriptions"@) {
        t
    } else if ends_with(t, "/v1/responses"@) {
        replace_all(t, "/v1/responses"@, "/v1/audio/transcriptions"@)
    } else if ends_with(t, "/v1"@) {
        t + "/audio/transcriptions"@
    } else if contains_seq(t, "/v1/"@) {
        t
    } else {
        t + "/v1/audio/transcriptions"@
    }
}

/// The transcription endpoint of an address (see `transcriptions_url`).
pub fn normalize_transcriptions_url(raw: &str) -> (r: String)
    ensures
        r@ == transcriptions_url(raw@),
{
    let trimmed = trim_str(raw);
    let t = trim_end_char_str(trimmed.as_str(), '/');
    let cs = chars_of(t.as_str());
    if ends_with_chars(&cs, &chars_of("/audio/transcriptions")) {
        return t;
    }
    if ends_with_chars(&cs, &chars_of("/v1/responses")) {
        proof {
            reveal_strlit("/v1/responses");
        }
        return replace_str(t.as_str(), "/v1/responses", "/v1/audio/transcriptions");
    }
    if ends_with_chars(&cs, &chars_of("/v1")) {
        return concat_str(t.as_str(), "/audio/transcriptions");
    }
    if contains_chars(&cs, &chars_of("/v1/")) {
        return t;
    }
    concat_str(t.as_str(), "/v1/audio/transcriptions")
}

/// How many characters of a recognizer's output an error message shows.
pub const PIPE_ERROR_SNIPPET_CHARS: usize = 320;

/// A recognizer's output shortened for an error message: `<empty>` when
/// blank, else its words joined by single spaces, cut to 320 characters
/// with `...` added when cut.
pub open spec fn error_snippet(raw: Seq<char>) -> Seq<char> {
    if trim(raw).len() == 0 {
        "<empty>"@
    } else {
        let c = collapsed(trim(raw));
        if c.len() > PIPE_ERROR_SNIPPET_CHARS {
            c.take(PIPE_ERROR_SNIPPET_CHARS as int) + "..."@
        } else {
            c
        }
    }
}

/// A recognizer's output shortened for an error message (see
/// `error_snippet`).
pub fn compact_error_text(raw: &str) -> (r: String)
    ensures
        r@ == error_snippet(raw@),
{
    if is_blank(raw) {
        return "<empty>".to_owned();
    }
    let trimmed = trim_str(raw);
    let compact = collapse_whitespace(trimmed.as_str());
    let cs = chars_of(compact.as_str());
    if cs.len() > PIPE_ERROR_SNIPPET_CHARS {
        let head = string_from_range(&cs, 0, PIPE_ERROR_SNIPPET_CHARS);
        proof {
            assert(cs@.subrange(0, PIPE_ERROR_SNIPPET_CHARS as int) =~= cs@.take(PIPE_ERROR_SNIPPET_CHARS as int));
        }
        concat_str(head.as_str(), "...")
    } else {
        compact
    }
}

/// The transcript in a pipe recognizer's output: nothing when the output is
/// blank; else, when the trimmed output is JSON with a non-blank `text`
/// (or else `transcript`), that field trimmed; else the trimmed output.
pub open spec fn pipe_transcript(stdout_text: Seq<char>, parsed: Option<JsonValue>) -> Option<Seq<char>> {
    let t = trim(stdout_text);
    if t.len() == 0 {
        None
    } else {
        match parsed {
            Some(v) => match nonblank_trim(str_field(v, "text"@)) {
                Some(x) => Some(x),
                None => match nonblank_trim(str_field(v, "transcript"@)) {
                    Some(x) => Some(x),
                    None => Some(t),
                },
            },
            None => Some(t),
        }
    }
}

/// What a finished pipe recognizer run gives: with a failing exit status
/// (`status_text` says which), an error naming it with snippets of both
/// outputs; else the transcript in its output (see `pipe_transcript`), or an
/// error with a snippet of its error output when there is none. `parsed` is
/// the trimmed output parsed as JSON, when it parses.
pub fn pipe_result(
    success: bool,
    status_text: &str,
    stdout_text: &str,
    stderr_text: &str,
    parsed: Option<JsonValue>,
) -> (r: Result<String, String>)
    ensures
        !success ==> (r matches Err(e) && e@ == "whisper pipe exited with "@ + status_text@ + " (stderr: "@
            + error_snippet(stderr_text@) + ", stdout: "@ + error_snippet(stdout_text@) + ")"@),
        success && pipe_transcript(stdout_text@, parsed) is Some ==> (r matches Ok(t) && t@
            == pipe_transcript(stdout_text@, parsed)->0),
        success && pipe_transcript(stdout_text@, parsed) is None ==> (r matches Err(e) && e@
            == "whisper pipe returned empty transcript (stderr: "@ + error_snippet(stderr_text@) + ")"@),
{
    if !success {
        let a = concat_str("whisper pipe exited with ", status_text);
        let b = concat_str(a.as_str(), " (stderr: ");
        let err = compact_error_text(stderr_text);
        let c = concat_str(b.as_str(), err.as_str());
        let d = concat_str(c.as_str(), ", stdout: ");
        let out = compact_error_text(stdout_text);
        let e = concat_str(d.as_str(), out.as_str());
        return Err(concat_str(e.as_str(), ")"));
    }
    match extract_pipe_transcript(stdout_text, parsed) {
        Some(t) => Ok(t),
        None => {
            let a = concat_str("whisper pipe returned empty transcript (stderr: ", compact_error_text(stderr_text).as_str());
            Err(concat_str(a.as_str(), ")"))
        },
    }
}

/// The transcript in a pipe recognizer's output (see `pipe_transcript`);
/// `parsed` is the trimmed output parsed as JSON, when it parses.
pub fn extract_pipe_transcript(stdout_text: &str, parsed: Option<JsonValue>) -> (r: Option<String>)
    ensures
        opt_str(r) == pipe_transcript(stdout_text@, parsed),
{
    if is_blank(stdout_text) {
        return None;
    }
    let trimmed = trim_str(stdout_text);
    if let Some(value) = &parsed {
        if let Some(text) = crate::json::get_str(value, "text") {
            if !is_blank(text) {
                return Some(trim_str(text));
            }
        }
        if let Some(text) = crate::json::get_str(value, "transcript") {
            if !is_blank(text) {
                return Some(trim_str(text));
            }
        }
    }
    Some(trimmed)
}

/// The arguments given to the pipe recognizer: the configured ones trimmed,
/// blank ones left out.
pub open spec fn pipe_args_of(args: Seq<Seq<char>>) -> Seq<Seq<char>>
    decreases args.len(),
{
    if args.len() == 0 {
        seq![]
    } else {
        let prev = pipe_args_of(args.drop_last());
        if trim(args.last()).len() > 0 {
            prev.push(trim(args.last()))
        } else {
            prev
        }
    }
}

/// The arguments given to the pipe recognizer (see `pipe_args_of`).
pub fn pipe_args(args: &Option<Vec<String>>) -> (r: Vec<String>)
    ensures
        r@.map_values(|a: String| a@) == match args {
            Some(v) => pipe_args_of(v@.map_values(|a: String| a@)),
            None => seq![],
        },
{
    let mut out: Vec<String> = Vec::new();
    match args {
        None => {
            proof {
                assert(out@.map_values(|a: String| a@) =~= Seq::<Seq<char>>::empty());
            }
            out
        },
        Some(v) => {
            let ghost av = v@.map_values(|a: String| a@);
            let mut k: usize = 0;
            proof {
                assert(av.take(0) =~= Seq::<Seq<char>>::empty());
                assert(out@.map_values(|a: String| a@) =~= Seq::<Seq<char>>::empty());
            }
            while k < v.len()
                invariant
                    k <= v.len(),
                    av == v@.map_values(|a: String| a@),
                    out@.map_values(|a: String| a@) == pipe_args_of(av.take(k as int)),
                decreases v.len() - k,
            {
                proof {
                    assert(av.take(k + 1).drop_last() =~= av.take(k as int));
                    assert(av.take(k + 1).last() == v@[k as int]@);
                }
                let ghost before = out@;
                if !is_blank(v[k].as_str()) {
                    out.push(trim_str(v[k].as_str()));
                    proof {
                        assert(out@.map_values(|a: String| a@) =~= before.map_values(|a: String| a@).push(
                            trim(v@[k as int]@),
                        ));
                    }
                }
                k += 1;
            }
            proof {
                assert(av.take(v.len() as int) =~= av);
            }
            out
        },
    }
}

/// How long the pipe recognizer may take, in seconds: the configured time
/// (120 s by default), at least 1.
pub fn pipe_timeout_secs(configured: Option<u64>) -> (r: u64)
    ensures
        r == ({
            let t = match configured {
                Some(t) => t,
                None => 120,
            };
            if t < 1 {
                1
            } else {
                t
            }
        }),
{
    let t = match configured {
        Some(t) => t,
        None => 120,
    };
    if t < 1 {
        1
    } else {
        t
    }
}

/// The text of an OpenAI transcription answer: its `text` trimmed;
/// "transcription returned empty text" when that is missing or blank.
pub fn transcription_text(value: &JsonValue) -> (r: Result<String, String>)
    ensures
        match nonblank_trim(str_field(*value, "text"@)) {
            Some(t) => r matches Ok(x) && x@ == t,
            None => r matches Err(e) && e@ == "transcription returned empty text"@,
        },
{
    match crate::json::get_str(value, "text") {
        Some(t) => {
            if is_blank(t) {
                Err("transcription returned empty text".to_owned())
            } else {
                Ok(trim_str(t))
            }
        },
        None => Err("transcription returned empty text".to_owned()),
    }
}

/// The number of samples in `ms` milliseconds at a sample rate (0 for a
/// rate of 0); the product saturates.
pub fn ms_to_samples(ms: u64, sample_rate: u32) -> (r: usize)
    ensures
        sample_rate == 0 ==> r == 0,
        sample_rate > 0 ==> r == ((if ms * sample_rate > u64::MAX {
            u64::MAX as int
        } else {
            ms * sample_rate
        }) / 1000) as usize,
{
    if sample_rate == 0 {
        return 0;
    }
    let product = match ms.checked_mul(sample_rate as u64) {
        Some(p) => p,
        None => u64::MAX,
    };
    (product / 1000) as usize
}

/// Where the whisper server runs.
#[derive(Debug, Clone, Copy, PartialEq, Eq, Structural)]
pub enum ServerDevice {
    Gpu,
    Cpu,
}

/// Where the configuration asks the whisper server to run.
#[derive(Debug, Clone, Copy, PartialEq, Eq, Structural)]
pub enum DevicePreference {
    Auto,
    Gpu,
    Cpu,
}

/// The device preference that the configuration names (lower-cased):
/// `gpu`, `cpu`, else automatic.
pub fn parse_device_preference(device: Option<&str>) -> (r: DevicePreference)
    ensures
        ({
            let d = lowercase(
                match device {
                    Some(d) => d@,
                    None => "auto"@,
                },
            );
            &&& (r is Gpu) == (d == "gpu"@)
            &&& (r is Cpu) == (d == "cpu"@)
        }),
{
    let d = match device {
        Some(d) => to_lowercase(d),
        None => to_lowercase("auto"),
    };
    device_from_named(d.as_str())
}

/// The device preference that a lower-cased name stands for: `gpu`, `cpu`,
/// else automatic.
pub fn device_from_named(d: &str) -> (r: DevicePreference)
    ensures
        (r is Gpu) == (d@ == "gpu"@),
        (r is Cpu) == (d@ == "cpu"@),
{
    proof {
        reveal_strlit("gpu");
        reveal_strlit("cpu");
        assert("gpu"@[0] != "cpu"@[0]);
        assert("gpu"@ != "cpu"@);
    }
    if str_eq(d, "gpu") {
        DevicePreference::Gpu
    } else if str_eq(d, "cpu") {
        DevicePreference::Cpu
    } else {
        DevicePreference::Auto
    }
}

/// The number of threads the whisper server gets on a machine with the
/// given number of physical cores.
pub open spec fn threads_for(device: ServerDevice, cores: int) -> int {
    match device {
        ServerDevice::Gpu => if cores <= 2 {
            2
        } else if cores <= 4 {
            3
        } else if cores <= 8 {
            4
        } else if cores <= 10 {
            5
        } else if cores <= 14 {
            8
        } else if cores <= 20 {
            10
        } else {
            12
        },
        ServerDevice::Cpu => if cores <= 2 {
            2
        } else if cores <= 4 {
            3
        } else if cores <= 6 {
            5
        } else if cores <= 8 {
            7
        } else if cores <= 12 {
            10
        } else if cores <= 16 {
            14
        } else {
            20
        },
    }
}

/// The number of threads the whisper server gets (see `threads_for`).
pub fn recommend_threads(device: ServerDevice, physical_cores: usize) -> (r: usize)
    ensures
        r == threads_for(device, physical_cores as int),
{
    match device {
        ServerDevice::Gpu => {
            if physical_cores <= 2 {
                2
            } else if physical_cores <= 4 {
                3
            } else if physical_cores <= 8 {
                4
            } else if physical_cores <= 10 {
                5
            } else if physical_cores <= 14 {
                8
            } else if physical_cores <= 20 {
                10
            } else {
                12
            }
        },
        ServerDevice::Cpu => {
            if physical_cores <= 2 {
                2
            } else if physical_cores <= 4 {
                3
            } else if physical_cores <= 6 {
                5
            } else if physical_cores <= 8 {
                7
            } else if physical_cores <= 12 {
                10
            } else if physical_cores <= 16 {
                14
            } else {
                20
            }
        },
    }
}

/// More cores never give the whisper server fewer threads.
pub proof fn threads_grow_with_cores(device: ServerDevice, a: int, b: int)
    requires
        a <= b,
    ensures
        threads_for(device, a) <= threads_for(device, b),
{
}

/// The configured location of the whisper server for a device: the
/// device's own setting when not blank, else the shared one when not blank.
pub fn server_path_setting(
    device: ServerDevice,
    gpu_path: &Option<String>,
    cpu_path: &Option<String>,
    path: &Option<String>,
) -> (r: Option<String>)
    ensures
        ({
            let own = match device {
                ServerDevice::Gpu => opt_str(*gpu_path),
                ServerDevice::Cpu => opt_str(*cpu_path),
            };
            let shared = opt_str(*path);
            opt_str(r) == if own is Some && !all_ws(own->0) {
                own
            } else if shared is Some && !all_ws(shared->0) {
                shared
            } else {
                None
            }
        }),
{
    let own = match device {
        ServerDevice::Gpu => gpu_path,
        ServerDevice::Cpu => cpu_path,
    };
    if let Some(p) = own {
        if !is_blank(p.as_str()) {
            return Some(p.clone());
        }
    }
    if let Some(p) = path {
        if !is_blank(p.as_str()) {
            return Some(p.clone());
        }
    }
    None
}

/// The model files tried for the whisper server, in order: the configured
/// one (or the base model when none is configured), then the small and
/// base models when they differ from it. Nothing when the configured name
/// is blank once trimmed.
pub open spec fn model_names(configured: Option<Seq<char>>) -> Seq<Seq<char>> {
    let raw = trim(or_default(configured, "resources/models/ggml-base.bin"@));
    if raw.len() == 0 {
        seq![]
    } else {
        let a = seq![raw];
        let b = if raw != "models/ggml-small-q5_1.bin"@ {
            a.push("models/ggml-small-q5_1.bin"@)
        } else {
            a
        };
        if raw != "resources/models/ggml-base.bin"@ {
            b.push("resources/models/ggml-base.bin"@)
        } else {
            b
        }
    }
}

/// The model files tried for the whisper server (see `model_names`).
pub fn model_path_names(configured: &Option<String>) -> (r: Vec<String>)
    ensures
        r@.map_values(|s: String| s@) == model_names(opt_str(*configured)),
{
    let chosen = text_or_default(configured, "resources/models/ggml-base.bin");
    let raw = trim_str(chosen.as_str());
    let mut out: Vec<String> = Vec::new();
    if chars_of(raw.as_str()).len() == 0 {
        proof {
            assert(out@.map_values(|s: String| s@) =~= Seq::<Seq<char>>::empty());
        }
        return out;
    }
    out.push(raw.clone());
    if !str_eq(raw.as_str(), "models/ggml-small-q5_1.bin") {
        out.push("models/ggml-small-q5_1.bin".to_owned());
    }
    if !str_eq(raw.as_str(), "resources/models/ggml-base.bin") {
        out.push("resources/models/ggml-base.bin".to_owned());
    }
    proof {
        assert(out@.map_values(|s: String| s@) =~= model_names(opt_str(*configured)));
    }
    out
}

/// What a request for the whisper server's address does.
#[derive(Debug)]
pub enum StartDecision {
    /// The server runs at this address.
    Ready(String),
    /// Another request is starting it: wait for that one.
    Wait,
    /// Start it; the caller reports the outcome with `finish`.
    Start,
}

/// What waiting for a server that another request starts finds.
#[derive(Debug)]
pub enum ReadyCheck {
    Ready(String),
    /// The start ended without an address.
    Failed,
    /// Still starting.
    Pending,
}

/// The whisper server as the application knows it: its address and device
/// once started, and whether a start is under way.
#[derive(Debug)]
pub struct WhisperServerState {
    url: Option<String>,
    device: Option<ServerDevice>,
    starting: bool,
}

impl WhisperServerState {
    /// The address of the running server.
    pub closed spec fn url_view(&self) -> Option<Seq<char>> {
        opt_str(self.url)
    }

    /// The device of the running server.
    pub closed spec fn device_view(&self) -> Option<ServerDevice> {
        self.device
    }

    /// Whether a start is under way.
    pub closed spec fn starting_view(&self) -> bool {
        self.starting
    }

    /// No server, no start under way.
    pub fn new() -> (r: WhisperServerState)
        ensures
            r.url_view() is None,
            r.device_view() is None,
            !r.starting_view(),
    {
        WhisperServerState { url: None, device: None, starting: false }
    }

    /// Decides what a request for the server's address does. A server whose
    /// process has exited is forgotten first; a running server is ready; a
    /// start under way is waited for; otherwise this request starts it.
    pub fn begin(&mut self, child_exited: bool) -> (r: StartDecision)
        ensures
            ({
                let url = if child_exited {
                    None
                } else {
                    old(self).url_view()
                };
                match url {
                    Some(u) => r matches StartDecision::Ready(v) && v@ == u && final(self).url_view()
                        == url && final(self).starting_view() == old(self).starting_view(),
                    None => if old(self).starting_view() {
                        r is Wait && final(self).url_view() is None && final(self).starting_view()
                    } else {
                        r is Start && final(self).url_view() is None && final(self).starting_view()
                    },
                }
            }),
            child_exited ==> final(self).device_view() is None,
            !child_exited ==> final(self).device_view() == old(self).device_view(),
    {
        if child_exited {
            self.url = None;
            self.device = None;
        }
        if let Some(url) = &self.url {
            return StartDecision::Ready(url.clone());
        }
        if self.starting {
            return StartDecision::Wait;
        }
        self.starting = true;
        StartDecision::Start
    }

    /// Takes in the outcome of a start: on success the server's address and
    /// device are kept and the address is given back; either way no start
    /// is under way any more.
    pub fn finish(&mut self, result: Result<(String, ServerDevice), String>) -> (r: Result<String, String>)
        ensures
            !final(self).starting_view(),
            match result {
                Ok((url, device)) => r matches Ok(u) && u@ == url@ && final(self).url_view() == Some(
                    url@,
                ) && final(self).device_view() == Some(device),
                Err(e) => r matches Err(x) && x@ == e@ && final(self).url_view() == old(
                    self,
                ).url_view() && final(self).device_view() == old(self).device_view(),
            },
    {
        self.starting = false;
        match result {
            Ok((url, device)) => {
                self.url = Some(url.clone());
                self.device = Some(device);
                Ok(url)
            },
            Err(e) => Err(e),
        }
    }

    /// What a waiting request finds.
    pub fn check_ready(&self) -> (r: ReadyCheck)
        ensures
            match self.url_view() {
                Some(u) => r matches ReadyCheck::Ready(v) && v@ == u,
                None => if self.starting_view() {
                    r is Pending
                } else {
                    r is Failed
                },
            },
    {
        if let Some(url) = &self.url {
            return ReadyCheck::Ready(url.clone());
        }
        if self.starting {
            ReadyCheck::Pending
        } else {
            ReadyCheck::Failed
        }
    }

    /// Forgets the server (its process is stopped by the caller).
    pub fn stop(&mut self)
        ensures
            final(self).url_view() is None,
            final(self).device_view() is None,
            !final(self).starting_view(),
    {
        self.url = None;
        self.device = None;
        self.starting = false;
    }
}

pub const DEFAULT_TRANSCRIBE_MODEL: &'static str = "whisper-1";

pub const DEFAULT_TRANSCRIBE_URL: &'static str = "https://api.openai.com/v1/audio/transcriptions";

pub const DEFAULT_TRANSCRIBE_TIMEOUT: u64 = 300;

/// The settings of an OpenAI transcription request.
#[derive(Debug)]
pub struct TranscriptionSettings {
    pub api_key: String,
    pub model: String,
    pub url: String,
    pub timeout_secs: u64,
    pub response_format: String,
    pub language: Option<String>,
}

/// The settings of an OpenAI transcription: refused with "OpenAI apiKey is
/// required" when the key is blank; otherwise the key trimmed, the model
/// (`whisper-1` when blank), the transcription endpoint of the address
/// (default when blank), the timeout (300 s by default), the response
/// format (`json` when blank), and the language when not blank.
pub fn transcription_settings(cfg: &crate::translate::OpenAiConfig) -> (r: Result<TranscriptionSettings, String>)
    ensures
        match r {
            Ok(s) => trim(cfg.api_key@).len() > 0 && s.api_key@ == trim(cfg.api_key@) && s.model@
                == or_default(opt_str(cfg.model), DEFAULT_TRANSCRIBE_MODEL@) && s.url@ == transcriptions_url(
                or_default(opt_str(cfg.base_url), DEFAULT_TRANSCRIBE_URL@),
            ) && s.timeout_secs == match cfg.timeout_secs {
                Some(t) => t,
                None => DEFAULT_TRANSCRIBE_TIMEOUT,
            } && s.response_format@ == or_default(opt_str(cfg.response_format), "json"@) && opt_str(
                s.language,
            ) == match opt_str(cfg.language) {
                Some(l) => if all_ws(l) {
                    None
                } else {
                    Some(l)
                },
                None => None,
            },
            Err(e) => trim(cfg.api_key@).len() == 0 && e@ == "OpenAI apiKey is required"@,
        },
{
    if is_blank(cfg.api_key.as_str()) {
        return Err("OpenAI apiKey is required".to_owned());
    }
    let api_key = trim_str(cfg.api_key.as_str());
    let model = text_or_default(&cfg.model, DEFAULT_TRANSCRIBE_MODEL);
    let base_url = text_or_default(&cfg.base_url, DEFAULT_TRANSCRIBE_URL);
    let url = normalize_transcriptions_url(base_url.as_str());
    let timeout_secs = match cfg.timeout_secs {
        Some(t) => t,
        None => DEFAULT_TRANSCRIBE_TIMEOUT,
    };
    let response_format = text_or_default(&cfg.response_format, "json");
    let language = match &cfg.language {
        Some(l) => {
            if is_blank(l.as_str()) {
                None
            } else {
                Some(l.clone())
            }
        },
        None => None,
    };
    Ok(TranscriptionSettings { api_key, model, url, timeout_secs, response_format, language })
}

/// Where a recording goes to be transcribed.
#[derive(Debug, Clone, Copy, PartialEq, Eq, Structural)]
pub enum AsrRoute {
    Whisper,
    OpenAi,
}

/// The recognizer for the current provider: the whisper backend for
/// `whisperserver`, OpenAI for `openai`; any other provider goes to OpenAI
/// when falling back is allowed, and is refused as "unsupported ASR
/// provider: …" when it is not.
pub fn asr_route(provider: &str, fallback_to_openai: bool) -> (r: Result<AsrRoute, String>)
    ensures
        provider@ == "whisperserver"@ ==> r == Ok::<AsrRoute, String>(AsrRoute::Whisper),
        provider@ == "openai"@ ==> r == Ok::<AsrRoute, String>(AsrRoute::OpenAi),
        provider@ != "whisperserver"@ && provider@ != "openai"@ && fallback_to_openai ==> r == Ok::<
            AsrRoute,
            String,
        >(AsrRoute::OpenAi),
        provider@ != "whisperserver"@ && provider@ != "openai"@ && !fallback_to_openai ==> (r matches Err(
            e,
        ) && e@ == "unsupported ASR provider: "@ + provider@),
{
    proof {
        reveal_strlit("whisperserver");
        reveal_strlit("openai");
        assert("whisperserver"@[0] != "openai"@[0]);
    }
    if str_eq(provider, "whisperserver") {
        Ok(AsrRoute::Whisper)
    } else if str_eq(provider, "openai") {
        Ok(AsrRoute::OpenAi)
    } else if fallback_to_openai {
        Ok(AsrRoute::OpenAi)
    } else {
        Err(concat_str("unsupported ASR provider: ", provider))
    }
}

/// What a whisper transcription leads to: its text, or its error when
/// falling back to OpenAI is not allowed; nothing (try OpenAI) when it
/// failed and falling back is allowed.
pub fn whisper_outcome(result: Result<String, String>, fallback_to_openai: bool) -> (r: Option<
    Result<String, String>,
>)
    ensures
        result is Ok ==> r == Some(result),
        result is Err && !fallback_to_openai ==> r == Some(result),
        result is Err && fallback_to_openai ==> r is None,
{
    match result {
        Ok(t) => Some(Ok(t)),
        Err(e) => {
            if fallback_to_openai {
                None
            } else {
                Some(Err(e))
            }
        },
    }
}

/// The language to recognize: the one chosen at run time when it is not
/// blank, else the configured one.
pub fn language_override(configured: Option<String>, chosen: &str) -> (r: Option<String>)
    ensures
        !all_ws(chosen@) ==> (r matches Some(l) && l@ == chosen@),
        all_ws(chosen@) ==> r == configured,
{
    if is_blank(chosen) {
        configured
    } else {
        Some(chosen.to_owned())
    }
}

/// The address that the whisper server listens on when started here.
pub const DEFAULT_WHISPER_SERVER_URL: &'static str = "http://127.0.0.1:8080/inference";

/// A whisper server address set by hand: the configured one when it is not
/// blank and, trimmed, not the default address; nothing otherwise (the
/// server is then started here).
pub fn manual_server_url(configured: &Option<String>) -> (r: Option<String>)
    ensures
        match *configured {
            Some(u) => if !all_ws(u@) && trim(u@) != DEFAULT_WHISPER_SERVER_URL@ {
                r matches Some(x) && x@ == u@
            } else {
                r is None
            },
            None => r is None,
        },
{
    match configured {
        Some(u) => {
            if is_blank(u.as_str()) {
                return None;
            }
            let t = trim_str(u.as_str());
            if str_eq(t.as_str(), DEFAULT_WHISPER_SERVER_URL) {
                None
            } else {
                Some(u.clone())
            }
        },
        None => None,
    }
}

/// The text of a whisper server answer: the body itself when the request
/// failed; "whisper-server returned empty text" when it is blank; else the
/// body trimmed.
pub fn server_transcript(status_ok: bool, body: &str) -> (r: Result<String, String>)
    ensures
        !status_ok ==> (r matches Err(e) && e@ == body@),
        status_ok && all_ws(body@) ==> (r matches Err(e) && e@ == "whisper-server returned empty text"@),
        status_ok && !all_ws(body@) ==> (r matches Ok(t) && t@ == trim(body@)),
{
    if !status_ok {
        return Err(body.to_owned());
    }
    if is_blank(body) {
        Err("whisper-server returned empty text".to_owned())
    } else {
        Ok(trim_str(body))
    }
}

/// The text of an OpenAI transcription asked for as plain text: the body
/// itself when the request failed, else the body trimmed.
pub fn plain_transcript(status_ok: bool, body: &str) -> (r: Result<String, String>)
    ensures
        !status_ok ==> (r matches Err(e) && e@ == body@),
        status_ok ==> (r matches Ok(t) && t@ == trim(body@)),
{
    if !status_ok {
        Err(body.to_owned())
    } else {
        Ok(trim_str(body))
    }
}

/// The model files tried for the whisper pipe, in order: the configured one
/// trimmed (when not blank), then the base and the small models.
pub open spec fn pipe_models(configured: Option<Seq<char>>) -> Seq<Seq<char>> {
    let tail = seq!["resources/models/ggml-base.bin"@, "models/ggml-small-q5_1.bin"@];
    match configured {
        Some(c) => if all_ws(c) {
            tail
        } else {
            seq![trim(c)] + tail
        },
        None => tail,
    }
}

/// The model files tried for the whisper pipe (see `pipe_models`).
pub fn pipe_model_names(configured: &Option<String>) -> (r: Vec<String>)
    ensures
        r@.map_values(|s: String| s@) == pipe_models(opt_str(*configured)),
{
    let mut out: Vec<String> = Vec::new();
    if let Some(c) = configured {
        if !is_blank(c.as_str()) {
            out.push(trim_str(c.as_str()));
        }
    }
    out.push("resources/models/ggml-base.bin".to_owned());
    out.push("models/ggml-small-q5_1.bin".to_owned());
    proof {
        assert(out@.map_values(|s: String| s@) =~= pipe_models(opt_str(*configured)));
    }
    out
}

/// The inference address of a whisper server started here on a port.
pub fn server_url(port: u16) -> (r: String)
    ensures
        r@ == "http://127.0.0.1:"@ + decimal(port as nat) + "/inference"@,
{
    let p = u64_to_decimal(port as u64);
    let a = concat_str("http://127.0.0.1:", p.as_str());
    concat_str(a.as_str(), "/inference")
}

/// The command-line arguments of a whisper server: its host, port,
/// inference path, model and thread count, and `--no-gpu` on the CPU.
pub open spec fn server_arg_list(port: nat, model: Seq<char>, threads: nat, device: ServerDevice) -> Seq<
    Seq<char>,
> {
    let base = seq![
        "--host"@,
        "127.0.0.1"@,
        "--port"@,
        decimal(port),
        "--inference-path"@,
        "/inference"@,
        "-m"@,
        model,
        "-t"@,
        decimal(threads),
    ];
    match device {
        ServerDevice::Cpu => base.push("--no-gpu"@),
        ServerDevice::Gpu => base,
    }
}

/// The command-line arguments of a whisper server (see `server_arg_list`).
pub fn server_args(port: u16, model: &str, threads: usize, device: ServerDevice) -> (r: Vec<String>)
    ensures
        r@.map_values(|s: String| s@) == server_arg_list(port as nat, model@, threads as nat, device),
{
    let mut out: Vec<String> = Vec::new();
    out.push("--host".to_owned());
    out.push("127.0.0.1".to_owned());
    out.push("--port".to_owned());
    out.push(u64_to_decimal(port as u64));
    out.push("--inference-path".to_owned());
    out.push("/inference".to_owned());
    out.push("-m".to_owned());
    out.push(model.to_owned());
    out.push("-t".to_owned());
    out.push(u64_to_decimal(threads as u64));
    match device {
        ServerDevice::Cpu => out.push("--no-gpu".to_owned()),
        ServerDevice::Gpu => {},
    }
    proof {
        assert(out@.map_values(|s: String| s@) =~= server_arg_list(port as nat, model@, threads as nat, device));
    }
    out
}

} // verus!
