//! The exchange with the model: the request, and what its reply means.

use crate::command::{
    clean_command, cleaned, law_bare_command_is_kept, law_cleaned_is_trimmed,
};
use crate::config::{Config, ConfigView, DEFAULT_BASE_URL};
use crate::text::{
    chars_of, decimal, decimal_text, first_index, last_index, law_trailing_run_is_dropped,
    lemma_first_index, lemma_last_index, same_text, starts_with, trim_end_matches, trimmed,
    without_trailing,
};
use vstd::prelude::*;

verus! {

/// What the model is told before it gets the description.
pub const SYSTEM_PROMPT: &'static str =
    "You are a Linux shell command assistant. When the user describes what they want to do, respond with ONLY the shell command that accomplishes it. Do not include any explanation, markdown, code fences, backticks, or extra text. Output only the bare command, ready to paste and run.";

/// The most tokens that the model may answer with.
pub const MAX_TOKENS: u32 = 500;

/// The sampling temperature, in whole units.
pub const TEMPERATURE: u32 = 0;

/// One message of a conversation.
#[derive(Debug)]
pub struct Message {
    pub role: &'static str,
    pub content: String,
}

/// The body of a request for a completion.
#[derive(Debug)]
pub struct ChatRequest {
    pub model: String,
    pub messages: Vec<Message>,
    pub temperature: u32,
    pub max_tokens: u32,
}

/// A header of a request.
#[derive(Debug)]
pub struct Header {
    pub name: &'static str,
    pub value: String,
}

/// A request to post.
#[derive(Debug)]
pub struct Request {
    pub url: String,
    pub headers: Vec<Header>,
    pub body: ChatRequest,
}

/// What the model wrote.
#[derive(Debug)]
pub struct ResponseMessage {
    pub content: String,
}

/// One of the completions that the model offers.
#[derive(Debug)]
pub struct Choice {
    pub message: ResponseMessage,
}

/// The body of a reply with completions.
#[derive(Debug)]
pub struct ChatResponse {
    pub choices: Vec<Choice>,
}

/// What came of posting a request.
#[derive(Debug)]
pub enum Reply {
    /// The completions.
    Answer(ChatResponse),
    /// A reply that is no list of completions, and why.
    Malformed(String),
    /// A status that reports an error, and the body that came with it.
    Refused { status: u16, body: String },
    /// No reply, and why.
    Unreachable(String),
}

/// The texts of a [`Message`].
pub struct MessageView {
    pub role: Seq<char>,
    pub content: Seq<char>,
}

/// The texts of a [`ChatRequest`].
pub struct ChatRequestView {
    pub model: Seq<char>,
    pub messages: Seq<MessageView>,
    pub temperature: u32,
    pub max_tokens: u32,
}

/// The texts of a [`Header`].
pub struct HeaderView {
    pub name: Seq<char>,
    pub value: Seq<char>,
}

/// The texts of a [`Request`].
pub struct RequestView {
    pub url: Seq<char>,
    pub headers: Seq<HeaderView>,
    pub body: ChatRequestView,
}

/// The texts of a [`Reply`]: of an answer, what each of the completions says.
pub enum ReplyView {
    Answer(Seq<Seq<char>>),
    Malformed(Seq<char>),
    Refused { status: u16, body: Seq<char> },
    Unreachable(Seq<char>),
}

impl View for Message {
    type V = MessageView;

    open spec fn view(&self) -> MessageView {
        MessageView { role: self.role@, content: self.content@ }
    }
}

impl View for ChatRequest {
    type V = ChatRequestView;

    open spec fn view(&self) -> ChatRequestView {
        ChatRequestView {
            model: self.model@,
            messages: self.messages@.map_values(|message: Message| message@),
            temperature: self.temperature,
            max_tokens: self.max_tokens,
        }
    }
}

impl View for Header {
    type V = HeaderView;

    open spec fn view(&self) -> HeaderView {
        HeaderView { name: self.name@, value: self.value@ }
    }
}

impl View for Request {
    type V = RequestView;

    open spec fn view(&self) -> RequestView {
        RequestView {
            url: self.url@,
            headers: self.headers@.map_values(|header: Header| header@),
            body: self.body@,
        }
    }
}

impl View for Reply {
    type V = ReplyView;

    open spec fn view(&self) -> ReplyView {
        match *self {
            Reply::Answer(response) => ReplyView::Answer(
                response.choices@.map_values(|choice: Choice| choice.message.content@),
            ),
            Reply::Malformed(reason) => ReplyView::Malformed(reason@),
            Reply::Refused { status, body } => ReplyView::Refused { status, body: body@ },
            Reply::Unreachable(reason) => ReplyView::Unreachable(reason@),
        }
    }
}

/// The texts of a command or an error message.
pub open spec fn result_text(result: Result<String, String>) -> Result<Seq<char>, Seq<char>> {
    match result {
        Ok(text) => Ok(text@),
        Err(text) => Err(text@),
    }
}

/// Whether `c` is dropped from a URL wherever it stands in it.
pub open spec fn dropped_from_url(c: char) -> bool {
    c == '\t' || c == '\n' || c == '\r'
}

/// `s` without the characters that are dropped from a URL.
pub open spec fn unbroken(s: Seq<char>) -> Seq<char> {
    s.filter(|c: char| !dropped_from_url(c))
}

/// Whether `c` ends the part of a URL that names the server. In a URL of the web
/// a backslash stands for a slash.
pub open spec fn ends_authority(c: char) -> bool {
    c == '/' || c == '\\' || c == '?' || c == '#'
}

/// The part of a URL that names the server, given what follows the scheme.
pub open spec fn authority(rest: Seq<char>) -> Seq<char>
    decreases rest.len(),
{
    if rest.len() == 0 || ends_authority(rest.first()) {
        seq![]
    } else {
        seq![rest.first()] + authority(rest.drop_first())
    }
}

/// A host's name without the dot at its end that stands for the root of all
/// names.
pub open spec fn without_root(name: Seq<char>) -> Seq<char> {
    if name.len() > 0 && name.last() == '.' {
        name.drop_last()
    } else {
        name
    }
}

/// The host in the part of a URL that names the server: what stands between the
/// user's name, if there is one, and the port, if there is one.
pub open spec fn host_in(authority: Seq<char>) -> Seq<char> {
    let server = authority.skip(last_index(authority, '@') + 1);
    without_root(server.take(first_index(server, ':')))
}

/// Whether `url` has this scheme and points to this host.
pub open spec fn points_to(url: Seq<char>, scheme: Seq<char>, host: Seq<char>) -> bool {
    scheme.is_prefix_of(url) && host_in(authority(unbroken(url.skip(scheme.len() as int)))) == host
}

/// Whether a base URL is that of a proxy on this machine.
pub open spec fn local_proxy(base_url: Seq<char>) -> bool {
    points_to(base_url, "http://"@, "127.0.0.1"@) || points_to(
        base_url,
        "http://"@,
        "localhost"@,
    )
}

/// Whether a base URL is that of the OpenAI API.
pub open spec fn openai_url(base_url: Seq<char>) -> bool {
    points_to(base_url, "https://"@, "api.openai.com"@)
}

/// Whether the API key that the server asks for is missing.
pub open spec fn lacks_key(config: ConfigView) -> bool {
    config.api_key is None && openai_url(config.base_url)
}

/// The URL that requests are posted to.
pub open spec fn endpoint(base_url: Seq<char>) -> Seq<char> {
    without_trailing(base_url, '/') + "/chat/completions"@
}

/// The headers of a request, with the API key where there is one.
pub open spec fn request_headers(api_key: Option<Seq<char>>) -> Seq<HeaderView> {
    let content_type = HeaderView { name: "Content-Type"@, value: "application/json"@ };
    match api_key {
        Some(key) => seq![
            content_type,
            HeaderView { name: "Authorization"@, value: "Bearer "@ + key },
        ],
        None => seq![content_type],
    }
}

/// The request for a command that does what `prompt` describes.
pub open spec fn request_for(config: ConfigView, prompt: Seq<char>) -> RequestView {
    RequestView {
        url: endpoint(config.base_url),
        headers: request_headers(config.api_key),
        body: ChatRequestView {
            model: config.model,
            messages: seq![
                MessageView { role: "system"@, content: SYSTEM_PROMPT@ },
                MessageView { role: "user"@, content: prompt },
            ],
            temperature: TEMPERATURE,
            max_tokens: MAX_TOKENS,
        },
    }
}

/// What the user is told where the API key is missing.
pub open spec fn missing_key_message(user_config: Seq<char>) -> Seq<char> {
    "API key not set. Add api_key to "@ + user_config + " or set AI_API_KEY."@
}

/// What the user is told where no reply came.
pub open spec fn unreachable_message(base_url: Seq<char>, reason: Seq<char>) -> Seq<char> {
    if local_proxy(base_url) {
        "Cannot reach the hpc-job-analyst proxy at "@ + base_url
            + ".\nCheck that the proxy service is running:\n\n    analyze-job proxy status"@
    } else {
        "Connection failed: "@ + reason
    }
}

/// The command in a reply, or what the user is told where it holds none.
///
/// The first completion counts, and no other.
pub open spec fn answered(base_url: Seq<char>, reply: ReplyView) -> Result<Seq<char>, Seq<char>> {
    match reply {
        ReplyView::Answer(completions) => if completions.len() == 0 || cleaned(
            completions[0],
        ).len() == 0 {
            Err("Model returned an empty response."@)
        } else {
            Ok(cleaned(completions[0]))
        },
        ReplyView::Malformed(reason) => Err("Failed to parse response: "@ + reason),
        ReplyView::Refused { status, body } => Err(
            "API error "@ + decimal(status as nat) + ": "@ + body,
        ),
        ReplyView::Unreachable(reason) => Err(unreachable_message(base_url, reason)),
    }
}

proof fn lemma_authority(rest: Seq<char>, n: int)
    requires
        0 <= n <= rest.len(),
        n < rest.len() ==> ends_authority(rest[n]),
        forall|i: int| 0 <= i < n ==> !ends_authority(#[trigger] rest[i]),
    ensures
        authority(rest) == rest.take(n),
    decreases n,
{
    if n > 0 {
        let tail = rest.drop_first();
        assert(!ends_authority(rest[0]));
        assert forall|i: int| 0 <= i < n - 1 implies !ends_authority(#[trigger] tail[i]) by {
            assert(tail[i] == rest[i + 1]);
        }
        lemma_authority(tail, n - 1);
        assert(seq![rest.first()] + tail.take(n - 1) =~= rest.take(n));
    } else {
        assert(rest.take(0) =~= seq![]);
    }
}

proof fn lemma_unbroken_push(s: Seq<char>, c: char)
    ensures
        unbroken(s.push(c)) == if dropped_from_url(c) {
            unbroken(s)
        } else {
            unbroken(s).push(c)
        },
{
    reveal(Seq::filter);
    assert(s.push(c).drop_last() =~= s);
}

/// `s` without the characters that are dropped from a URL.
fn drop_breaks(s: &str) -> (kept: String)
    ensures
        kept@ == unbroken(s@),
{
    let chars = chars_of(s);
    let mut kept = String::new();
    let mut i: usize = 0;
    proof {
        reveal(Seq::filter);
        assert(kept@ =~= unbroken(s@.take(0)));
    }
    while i < chars.len()
        invariant
            chars@ == s@,
            i <= chars.len(),
            kept@ == unbroken(s@.take(i as int)),
        decreases chars.len() - i,
    {
        let c = chars[i];
        proof {
            lemma_unbroken_push(s@.take(i as int), c);
            assert(s@.take(i + 1) =~= s@.take(i as int).push(c));
        }
        if c != '\t' && c != '\n' && c != '\r' {
            let part = s.substring_char(i, i + 1);
            assert(kept@ + part@ =~= kept@.push(c));
            kept.append(part);
        }
        i += 1;
    }
    assert(s@.take(i as int) =~= s@);
    kept
}

/// The host that a URL points to, given what follows its scheme, without the
/// characters that are dropped from a URL.
pub fn host_of<'a>(rest: &'a str) -> (host: &'a str)
    ensures
        host@ == host_in(authority(rest@)),
{
    let chars = chars_of(rest);
    let mut end: usize = 0;
    let mut start: usize = 0;
    while end < chars.len() && chars[end] != '/' && chars[end] != '\\' && chars[end] != '?'
        && chars[end] != '#'
        invariant
            chars@ == rest@,
            start <= end <= chars.len(),
            forall|i: int| 0 <= i < end ==> !ends_authority(#[trigger] rest@[i]),
            start > 0 ==> rest@[start - 1] == '@',
            forall|i: int| start <= i < end ==> rest@[i] != '@',
        decreases chars.len() - end,
    {
        if chars[end] == '@' {
            start = end + 1;
        }
        end += 1;
    }
    let mut stop: usize = start;
    while stop < end && chars[stop] != ':'
        invariant
            chars@ == rest@,
            start <= stop <= end <= chars.len(),
            forall|i: int| start <= i < stop ==> rest@[i] != ':',
        decreases end - stop,
    {
        stop += 1;
    }
    let last: usize = if stop > start && chars[stop - 1] == '.' {
        stop - 1
    } else {
        stop
    };
    proof {
        lemma_authority(rest@, end as int);
        let name = rest@.take(end as int);
        lemma_last_index(name, '@', start - 1);
        let server = name.skip(start as int);
        assert forall|i: int| 0 <= i < stop - start implies server[i] != ':' by {
            assert(server[i] == rest@[i + start]);
        }
        lemma_first_index(server, ':', stop - start);
        assert(server.take(stop - start) =~= rest@.subrange(start as int, stop as int));
        assert(host_in(name) =~= rest@.subrange(start as int, last as int));
    }
    rest.substring_char(start, last)
}

/// Whether `url` has this scheme and points to this host.
fn url_points_to(url: &str, scheme: &str, host: &str) -> (found: bool)
    ensures
        found == points_to(url@, scheme@, host@),
{
    if !starts_with(url, scheme) {
        return false;
    }
    let start = scheme.unicode_len();
    let end = url.unicode_len();
    let rest = url.substring_char(start, end);
    assert(rest@ =~= url@.skip(start as int));
    same_text(host_of(drop_breaks(rest).as_str()), host)
}

/// Whether the base URL points to a proxy on this machine, at 127.0.0.1 or
/// localhost.
pub fn is_local_proxy(base_url: &str) -> (found: bool)
    ensures
        found == local_proxy(base_url@),
{
    url_points_to(base_url, "http://", "127.0.0.1") || url_points_to(
        base_url,
        "http://",
        "localhost",
    )
}

/// Whether the base URL is that of the OpenAI API, which asks for an API key.
pub fn is_openai_url(base_url: &str) -> (found: bool)
    ensures
        found == openai_url(base_url@),
{
    url_points_to(base_url, "https://", "api.openai.com")
}

/// The URL that requests are posted to.
pub fn endpoint_url(base_url: &str) -> (url: String)
    ensures
        url@ == endpoint(base_url@),
{
    trim_end_matches(base_url, '/').to_owned().concat("/chat/completions")
}

/// The request for a command that does what `prompt` describes, or what the user
/// is told where the API key that it takes is missing. `user_config` is the file
/// that the key may be added to.
pub fn prepare_request(config: &Config, prompt: &str, user_config: &str) -> (request: Result<
    Request,
    String,
>)
    ensures
        match request {
            Ok(request) => !lacks_key(config@) && request@ == request_for(config@, prompt@),
            Err(message) => lacks_key(config@) && message@ == missing_key_message(user_config@),
        },
        request is Err <==> config.api_key is None && openai_url(config.base_url@),
        match request {
            Ok(request) => {
                &&& request.url@ == endpoint(config.base_url@)
                &&& request.body.model@ == config.model@
                &&& request.body.messages@.len() == 2
                &&& request.body.messages@[0].role@ == "system"@
                &&& request.body.messages@[0].content@ == SYSTEM_PROMPT@
                &&& request.body.messages@[1].role@ == "user"@
                &&& request.body.messages@[1].content@ == prompt@
                &&& request.body.temperature == 0
                &&& request.body.max_tokens == 500
            },
            Err(message) => message@ == "API key not set. Add api_key to "@ + user_config@
                + " or set AI_API_KEY."@,
        },
{
    // Only the OpenAI API asks for a key.
    if config.api_key.is_none() && is_openai_url(config.base_url.as_str()) {
        return Err(
            "API key not set. Add api_key to ".to_owned().concat(user_config).concat(
                " or set AI_API_KEY.",
            ),
        );
    }
    let mut headers: Vec<Header> = Vec::new();
    headers.push(Header { name: "Content-Type", value: "application/json".to_owned() });
    if let Some(key) = &config.api_key {
        headers.push(
            Header { name: "Authorization", value: "Bearer ".to_owned().concat(key.as_str()) },
        );
    }
    let mut messages: Vec<Message> = Vec::new();
    messages.push(Message { role: "system", content: SYSTEM_PROMPT.to_owned() });
    messages.push(Message { role: "user", content: prompt.to_owned() });
    let request = Request {
        url: endpoint_url(config.base_url.as_str()),
        headers,
        body: ChatRequest {
            model: config.model.clone(),
            messages,
            temperature: TEMPERATURE,
            max_tokens: MAX_TOKENS,
        },
    };
    proof {
        let wanted = request_for(config@, prompt@);
        assert(request@.headers =~= wanted.headers);
        assert(request@.body.messages =~= wanted.body.messages);
    }
    Ok(request)
}

/// The command in a reply that came from `base_url`, or what the user is told
/// where it holds none.
pub fn interpret_reply(base_url: &str, reply: &Reply) -> (result: Result<String, String>)
    ensures
        result_text(result) == answered(base_url@, reply@),
        result is Ok <==> (reply matches Reply::Answer(response) && response.choices@.len() > 0
            && cleaned(response.choices@[0].message.content@).len() > 0),
        result matches Ok(command) ==> (reply matches Reply::Answer(response) && command@
            == cleaned(response.choices@[0].message.content@)),
{
    match reply {
        Reply::Answer(response) => {
            if response.choices.len() == 0 {
                return Err("Model returned an empty response.".to_owned());
            }
            let command = clean_command(response.choices[0].message.content.as_str());
            if command.as_str().is_empty() {
                Err("Model returned an empty response.".to_owned())
            } else {
                Ok(command)
            }
        },
        Reply::Malformed(reason) => Err(
            "Failed to parse response: ".to_owned().concat(reason.as_str()),
        ),
        Reply::Refused { status, body } => Err(
            "API error ".to_owned().concat(decimal_text(*status as u64).as_str()).concat(
                ": ",
            ).concat(body.as_str()),
        ),
        Reply::Unreachable(reason) => {
            if is_local_proxy(base_url) {
                Err(
                    "Cannot reach the hpc-job-analyst proxy at ".to_owned().concat(
                        base_url,
                    ).concat(
                        ".\nCheck that the proxy service is running:\n\n    analyze-job proxy status",
                    ),
                )
            } else {
                Err("Connection failed: ".to_owned().concat(reason.as_str()))
            }
        },
    }
}

/// A command that does what `prompt` describes, or what the user is told where
/// there is none.
///
/// `send` posts the request and says what came of it. It is not called where the
/// API key is missing; otherwise it is called with the request for `prompt`, and
/// the command is the one in its reply.
pub fn fetch_command<S: FnOnce(&Request) -> Reply>(
    config: &Config,
    prompt: &str,
    user_config: &str,
    send: S,
) -> (result: Result<String, String>)
    requires
        !lacks_key(config@) ==> forall|request: &Request|
            request@ == request_for(config@, prompt@) ==> #[trigger] send.requires((request,)),
    ensures
        lacks_key(config@) ==> result_text(result) == Err::<Seq<char>, Seq<char>>(
            missing_key_message(user_config@),
        ),
        !lacks_key(config@) ==> exists|request: &Request, reply: Reply|
            {
                &&& request@ == request_for(config@, prompt@)
                &&& #[trigger] send.ensures((request,), reply)
                &&& result_text(result) == answered(config@.base_url, reply@)
            },
{
    match prepare_request(config, prompt, user_config) {
        Err(message) => Err(message),
        Ok(request) => {
            let reply = send(&request);
            interpret_reply(config.base_url.as_str(), &reply)
        },
    }
}

proof fn lemma_authority_with_slash(rest: Seq<char>)
    ensures
        authority(rest.push('/')) == authority(rest),
    decreases rest.len(),
{
    if rest.len() > 0 && !ends_authority(rest.first()) {
        lemma_authority_with_slash(rest.drop_first());
        assert(rest.push('/').drop_first() =~= rest.drop_first().push('/'));
    }
}

proof fn lemma_points_to_with_slash(url: Seq<char>, scheme: Seq<char>, host: Seq<char>)
    requires
        host.len() > 0,
    ensures
        points_to(url.push('/'), scheme, host) == points_to(url, scheme, host),
{
    let n = scheme.len() as int;
    let longer = url.push('/');
    if n <= url.len() {
        assert(longer.subrange(0, n) =~= url.subrange(0, n));
        assert(longer.skip(n) =~= url.skip(n).push('/'));
        lemma_unbroken_push(url.skip(n), '/');
        lemma_authority_with_slash(unbroken(url.skip(n)));
    } else if n == longer.len() {
        reveal(Seq::filter);
        assert(longer.skip(n) =~= seq![]);
        assert(unbroken(longer.skip(n)) =~= seq![]);
        assert(authority(unbroken(longer.skip(n))) =~= seq![]);
        assert(host_in(authority(unbroken(longer.skip(n)))).len() == 0);
    }
}

/// A slash at the end of the base URL makes no difference: the request is the
/// same, and so is whether it takes an API key, and whether the server is a local
/// proxy.
pub proof fn law_trailing_slash_is_ignored(config: ConfigView, prompt: Seq<char>)
    ensures
        ({
            let slashed = ConfigView { base_url: config.base_url.push('/'), ..config };
            &&& endpoint(slashed.base_url) == endpoint(config.base_url)
            &&& request_for(slashed, prompt) == request_for(config, prompt)
            &&& lacks_key(slashed) == lacks_key(config)
            &&& local_proxy(slashed.base_url) == local_proxy(config.base_url)
        }),
{
    let base_url = config.base_url;
    reveal_strlit("127.0.0.1");
    reveal_strlit("localhost");
    reveal_strlit("api.openai.com");
    assert(base_url.push('/').drop_last() =~= base_url);
    lemma_points_to_with_slash(base_url, "http://"@, "127.0.0.1"@);
    lemma_points_to_with_slash(base_url, "http://"@, "localhost"@);
    lemma_points_to_with_slash(base_url, "https://"@, "api.openai.com"@);
}

/// A command that is offered is not empty, has no white space at either end, and
/// is the one in the first completion.
pub proof fn law_offered_command_is_usable(base_url: Seq<char>, reply: ReplyView)
    ensures
        answered(base_url, reply) matches Ok(command) ==> {
            &&& command.len() > 0
            &&& trimmed(command) == command
            &&& reply matches ReplyView::Answer(completions)
            &&& completions.len() > 0
            &&& command == cleaned(completions[0])
        },
{
    if let ReplyView::Answer(completions) = reply {
        law_cleaned_is_trimmed(completions[0]);
    }
}

/// Every URL that starts with the default base URL is one of the OpenAI API.
pub proof fn law_default_url_prefix_is_openai(base_url: Seq<char>)
    requires
        DEFAULT_BASE_URL@.is_prefix_of(base_url),
    ensures
        openai_url(base_url),
{
    reveal_strlit("https://api.openai.com/v1");
    reveal_strlit("https://");
    reveal_strlit("api.openai.com");
    let default = DEFAULT_BASE_URL@;
    let host = "api.openai.com"@;
    assert forall|i: int| 0 <= i < default.len() implies base_url[i] == default[i] by {
        assert(base_url.subrange(0, default.len() as int)[i] == default[i]);
    }
    let rest = base_url.skip(8);
    assert(base_url.subrange(0, 8) =~= "https://"@);
    let path = rest.skip(15);
    let behind = seq!['/'] + unbroken(path);
    assert(rest =~= (host + seq!['/']) + path);
    Seq::filter_distributes_over_add(
        host + seq!['/'],
        path,
        |c: char| !dropped_from_url(c),
    );
    lemma_unbroken_kept(host + seq!['/']);
    assert(unbroken(rest) =~= host + behind);
    law_host_between_scheme_and_path(host, behind);
}

proof fn lemma_unbroken_kept(s: Seq<char>)
    requires
        forall|i: int| 0 <= i < s.len() ==> !dropped_from_url(#[trigger] s[i]),
    ensures
        unbroken(s) == s,
    decreases s.len(),
{
    if s.len() > 0 {
        let rest = s.drop_last();
        assert forall|i: int| 0 <= i < rest.len() implies !dropped_from_url(#[trigger] rest[i]) by {
            assert(rest[i] == s[i]);
        }
        assert(!dropped_from_url(s[s.len() - 1]));
        lemma_unbroken_kept(rest);
        lemma_unbroken_push(rest, s.last());
        assert(rest.push(s.last()) =~= s);
    } else {
        reveal(Seq::filter);
        assert(unbroken(s) =~= s);
    }
}

/// A plain host with a port, a path, a query, a fragment or nothing behind it is
/// the host that the URL points to, with or without a dot at its end.
pub proof fn law_host_between_scheme_and_path(host: Seq<char>, behind: Seq<char>)
    requires
        !host.contains('/'),
        !host.contains('\\'),
        !host.contains('?'),
        !host.contains('#'),
        !host.contains('@'),
        !host.contains(':'),
        host.len() > 0 ==> host.last() != '.',
        behind.len() == 0 || ends_authority(behind[0]) || (behind[0] == ':' && !authority(
            behind,
        ).contains('@')),
    ensures
        host_in(authority(host + behind)) == host,
        host_in(authority(host.push('.') + behind)) == host,
{
    lemma_plain_host(host, behind);
    lemma_plain_host(host.push('.'), behind);
    assert(host.push('.').drop_last() =~= host);
}

proof fn lemma_plain_host(host: Seq<char>, behind: Seq<char>)
    requires
        forall|i: int|
            0 <= i < host.len() ==> !ends_authority(#[trigger] host[i]) && host[i] != '@' && host[i]
                != ':',
        behind.len() == 0 || ends_authority(behind[0]) || (behind[0] == ':' && !authority(
            behind,
        ).contains('@')),
    ensures
        host_in(authority(host + behind)) == without_root(host),
{
    lemma_authority_behind(host, behind);
    let more = authority(behind);
    let name = host + more;
    assert forall|i: int| 0 <= i < name.len() implies name[i] != '@' by {
        if i < host.len() {
            assert(name[i] == host[i]);
        } else {
            assert(name[i] == more[i - host.len()]);
        }
    }
    lemma_last_index(name, '@', -1);
    assert(name.skip(0) =~= name);
    assert forall|i: int| 0 <= i < host.len() implies name[i] != ':' by {
        assert(name[i] == host[i]);
    }
    if more.len() > 0 {
        assert(more[0] == ':');
        assert(name[host.len() as int] == ':');
    }
    lemma_first_index(name, ':', host.len() as int);
    assert(name.take(host.len() as int) =~= host);
}

proof fn lemma_authority_behind(host: Seq<char>, behind: Seq<char>)
    requires
        forall|i: int| 0 <= i < host.len() ==> !ends_authority(#[trigger] host[i]),
    ensures
        authority(host + behind) == host + authority(behind),
    decreases host.len(),
{
    if host.len() == 0 {
        assert(host + behind =~= behind);
        assert(host + authority(behind) =~= authority(behind));
    } else {
        let tail = host.drop_first();
        assert(!ends_authority(host[0]));
        assert forall|i: int| 0 <= i < tail.len() implies !ends_authority(#[trigger] tail[i]) by {
            assert(tail[i] == host[i + 1]);
        }
        lemma_authority_behind(tail, behind);
        assert((host + behind).drop_first() =~= tail + behind);
        assert(seq![host.first()] + (tail + authority(behind)) =~= host + authority(behind));
    }
}

/// The default base URL is that of the OpenAI API, so it takes an API key.
pub proof fn law_default_url_takes_a_key(config: ConfigView)
    requires
        config.base_url == DEFAULT_BASE_URL@,
    ensures
        lacks_key(config) == (config.api_key is None),
{
    assert(DEFAULT_BASE_URL@.subrange(0, DEFAULT_BASE_URL@.len() as int) =~= DEFAULT_BASE_URL@);
    law_default_url_prefix_is_openai(DEFAULT_BASE_URL@);
}

/// A local proxy takes no API key.
pub proof fn law_local_proxy_takes_no_key(config: ConfigView)
    requires
        local_proxy(config.base_url),
    ensures
        !lacks_key(config),
{
    reveal_strlit("https://");
    reveal_strlit("http://");
    let url = config.base_url;
    if openai_url(url) {
        assert(url.subrange(0, 8)[4] == 's');
        assert(url.subrange(0, 7)[4] == ':');
    }
}

/// The API key is sent where there is one, as a bearer token; where there is none
/// no authorization is sent.
pub proof fn law_key_is_sent_where_there_is_one(config: ConfigView, prompt: Seq<char>)
    ensures
        config.api_key matches Some(key) ==> request_for(config, prompt).headers.contains(
            HeaderView { name: "Authorization"@, value: "Bearer "@ + key },
        ),
        config.api_key is None ==> forall|i: int|
            0 <= i < request_for(config, prompt).headers.len() ==> (#[trigger] request_for(
                config,
                prompt,
            ).headers[i]).name != "Authorization"@,
{
    reveal_strlit("Authorization");
    reveal_strlit("Content-Type");
    assert("Authorization"@.len() != "Content-Type"@.len());
    let headers = request_for(config, prompt).headers;
    if let Some(key) = config.api_key {
        assert(headers[1] == (HeaderView { name: "Authorization"@, value: "Bearer "@ + key }));
    }
}

/// The request holds what was configured and what was asked for, with or without an
/// API key: the model, the prompt for the system, and then the description.
pub proof fn law_request_holds_model_and_description(
    config: Config,
    prompt: Seq<char>,
    request: Request,
)
    requires
        request@ == request_for(config@, prompt),
    ensures
        request.body.model@ == config.model@,
        request.body.messages@.len() == 2,
        request.body.messages@[0].role@ == "system"@,
        request.body.messages@[0].content@
            == "You are a Linux shell command assistant. When the user describes what they want to do, respond with ONLY the shell command that accomplishes it. Do not include any explanation, markdown, code fences, backticks, or extra text. Output only the bare command, ready to paste and run."@,
        request.body.messages@[1].role@ == "user"@,
        request.body.messages@[1].content@ == prompt,
        request.body.temperature == 0,
        request.body.max_tokens == 500,
{
    let messages = request@.body.messages;
    assert(messages.len() == request.body.messages@.len());
    assert(messages[0] == request.body.messages@[0]@);
    assert(messages[1] == request.body.messages@[1]@);
}

/// The request says that its body is JSON, and carries the API key as a bearer token
/// where there is one. It has no other header.
pub proof fn law_headers_of_the_request(config: Config, prompt: Seq<char>, request: Request)
    requires
        request@ == request_for(config@, prompt),
    ensures
        request.headers@.len() == if config.api_key is Some {
            2nat
        } else {
            1
        },
        request.headers@[0].name@ == "Content-Type"@,
        request.headers@[0].value@ == "application/json"@,
        config.api_key matches Some(key) ==> {
            &&& request.headers@[1].name@ == "Authorization"@
            &&& request.headers@[1].value@ == "Bearer "@ + key@
        },
{
    let headers = request@.headers;
    assert(headers.len() == request.headers@.len());
    assert(headers[0] == request.headers@[0]@);
    if let Some(key) = config.api_key {
        assert(config@.api_key == Some(key@));
        assert(headers[1] == request.headers@[1]@);
    }
}

/// The request goes to the base URL, less the slashes at its end, with the path of
/// the completions behind it.
pub proof fn law_request_goes_to_the_base_url(
    config: Config,
    prompt: Seq<char>,
    request: Request,
    kept: Seq<char>,
    slashes: Seq<char>,
)
    requires
        request@ == request_for(config@, prompt),
        config.base_url@ == kept + slashes,
        kept.len() > 0 ==> kept[kept.len() - 1] != '/',
        forall|i: int| 0 <= i < slashes.len() ==> #[trigger] slashes[i] == '/',
    ensures
        request.url@ == kept + "/chat/completions"@,
        endpoint(kept + slashes) == kept + "/chat/completions"@,
{
    law_trailing_run_is_dropped(kept, slashes, '/');
}

/// No request is made where there is no API key and the server is that of the OpenAI
/// API, and only there.
pub proof fn law_key_is_asked_for_by_openai_alone(
    config: Config,
    user_config: Seq<char>,
)
    ensures
        lacks_key(config@) <==> config.api_key is None && openai_url(config.base_url@),
        missing_key_message(user_config) == "API key not set. Add api_key to "@ + user_config
            + " or set AI_API_KEY."@,
{
}

/// A reply is answered with a command if and only if it has a first completion with
/// something left in it after cleaning, and then that is the command. Every other
/// reply is answered with what is wrong with it.
pub proof fn law_what_each_reply_is_answered(
    base_url: Seq<char>,
    reply: Reply,
    result: Result<String, String>,
)
    requires
        result_text(result) == answered(base_url, reply@),
    ensures
        result is Ok <==> (reply matches Reply::Answer(response) && response.choices@.len() > 0
            && cleaned(response.choices@[0].message.content@).len() > 0),
        match result {
            Ok(command) => reply matches Reply::Answer(response) && command@ == cleaned(
                response.choices@[0].message.content@,
            ),
            Err(message) => match reply {
                Reply::Answer(_) => message@ == "Model returned an empty response."@,
                Reply::Malformed(reason) => message@ == "Failed to parse response: "@ + reason@,
                Reply::Refused { status, body } => message@ == "API error "@ + decimal(
                    status as nat,
                ) + ": "@ + body@,
                Reply::Unreachable(reason) => message@ == if local_proxy(base_url) {
                    "Cannot reach the hpc-job-analyst proxy at "@ + base_url
                        + ".\nCheck that the proxy service is running:\n\n    analyze-job proxy status"@
                } else {
                    "Connection failed: "@ + reason@
                },
            },
        },
{
    if let Reply::Answer(response) = reply {
        let completions = response.choices@.map_values(|choice: Choice| choice.message.content@);
        assert(completions.len() == response.choices@.len());
        assert(reply@ == ReplyView::Answer(completions));
    }
}

/// A text that stands in a reply as a bare command is the command that is offered.
pub proof fn law_bare_command_is_offered(
    base_url: Seq<char>,
    reply: Reply,
    response: ChatResponse,
    result: Result<String, String>,
)
    requires
        result_text(result) == answered(base_url, reply@),
        reply == Reply::Answer(response),
        response.choices@.len() > 0,
        ({
            let command = trimmed(response.choices@[0].message.content@);
            command.len() > 0 && command[0] != '`'
        }),
    ensures
        result matches Ok(command) && command@ == trimmed(response.choices@[0].message.content@),
{
    law_what_each_reply_is_answered(base_url, reply, result);
    law_bare_command_is_kept(response.choices@[0].message.content@);
}

/// Whether `s` holds nothing that ends the part of a URL that names the server, and no
/// tab or line break.
#[verifier::opaque]
pub open spec fn stands_in_authority(s: Seq<char>) -> bool {
    forall|i: int|
        0 <= i < s.len() ==> {
            let c = #[trigger] s[i];
            c != '/' && c != '\\' && c != '?' && c != '#' && c != '\t' && c != '\n' && c != '\r'
        }
}

/// Whether `s` is the name of a user in a URL, up to the host, or nothing.
#[verifier::opaque]
pub open spec fn names_user(s: Seq<char>) -> bool {
    stands_in_authority(s) && (s.len() > 0 ==> s[s.len() - 1] == '@')
}

/// Whether `s` holds nothing that parts a host from what stands around it.
#[verifier::opaque]
pub open spec fn names_host(s: Seq<char>) -> bool {
    stands_in_authority(s) && forall|i: int|
        0 <= i < s.len() ==> #[trigger] s[i] != ':' && s[i] != '@'
}

/// Whether `s` is a port with the colon before it, or nothing.
#[verifier::opaque]
pub open spec fn names_port(s: Seq<char>) -> bool {
    &&& stands_in_authority(s)
    &&& s.len() > 0 ==> s[0] == ':'
    &&& forall|i: int| 0 <= i < s.len() ==> #[trigger] s[i] != '@'
}

/// Whether `s` is a path, a query, a fragment or nothing, without tabs and line
/// breaks.
#[verifier::opaque]
pub open spec fn names_place(s: Seq<char>) -> bool {
    &&& s.len() > 0 ==> s[0] == '/' || s[0] == '\\' || s[0] == '?' || s[0] == '#'
    &&& forall|i: int|
        0 <= i < s.len() ==> #[trigger] s[i] != '\t' && s[i] != '\n' && s[i] != '\r'
}

#[verifier::spinoff_prover]
proof fn lemma_authority_of_parts(named: Seq<char>, place: Seq<char>)
    requires
        stands_in_authority(named),
        names_place(place),
    ensures
        authority(named + place) == named,
        unbroken(named + place) == named + place,
{
    reveal(stands_in_authority);
    reveal(names_place);
    let rest = named + place;
    let n = named.len() as int;
    assert forall|i: int| 0 <= i < rest.len() implies !dropped_from_url(#[trigger] rest[i]) by {
        if i < n {
            assert(rest[i] == named[i]);
        } else {
            assert(rest[i] == place[i - n]);
        }
    }
    lemma_unbroken_kept(rest);
    assert forall|i: int| 0 <= i < n implies !ends_authority(#[trigger] rest[i]) by {
        assert(rest[i] == named[i]);
    }
    assert(n < rest.len() ==> rest[n] == place[0]);
    lemma_authority(rest, n);
    assert(rest.take(n) =~= named);
}

proof fn lemma_user_is_dropped(user: Seq<char>, server: Seq<char>)
    requires
        user.len() > 0 ==> user[user.len() - 1] == '@',
        forall|i: int| 0 <= i < server.len() ==> server[i] != '@',
    ensures
        last_index(user + server, '@') == user.len() - 1,
        (user + server).skip(user.len() as int) == server,
{
    let named = user + server;
    let n = user.len() as int;
    assert(named.skip(n) =~= server);
    assert forall|i: int| n <= i < named.len() implies named[i] != '@' by {
        assert(named[i] == server[i - n]);
    }
    if n > 0 {
        assert(named[n - 1] == user[n - 1]);
        lemma_last_index(named, '@', n - 1);
    } else {
        lemma_no_last_index(named, '@');
    }
}

proof fn lemma_port_is_dropped(name: Seq<char>, port: Seq<char>)
    requires
        port.len() > 0 ==> port[0] == ':',
        forall|i: int| 0 <= i < name.len() ==> name[i] != ':',
    ensures
        (name + port).take(first_index(name + port, ':')) == name,
{
    let server = name + port;
    let n = name.len() as int;
    assert forall|i: int| 0 <= i < n implies server[i] != ':' by {
        assert(server[i] == name[i]);
    }
    assert(n < server.len() ==> server[n] == port[0]);
    lemma_first_index(server, ':', n);
    assert(server.take(n) =~= name);
}

proof fn lemma_server_names_no_user(name: Seq<char>, port: Seq<char>)
    requires
        names_host(name),
        names_port(port),
    ensures
        forall|i: int| 0 <= i < (name + port).len() ==> (name + port)[i] != '@',
{
    reveal(names_host);
    reveal(names_port);
    let server = name + port;
    assert forall|i: int| 0 <= i < server.len() implies server[i] != '@' by {
        if i < name.len() {
            assert(server[i] == name[i]);
        } else {
            assert(server[i] == port[i - name.len()]);
        }
    }
}

#[verifier::spinoff_prover]
proof fn lemma_host_of_parts(user: Seq<char>, name: Seq<char>, port: Seq<char>)
    requires
        names_user(user),
        names_host(name),
        names_port(port),
    ensures
        host_in(user + name + port) == without_root(name),
        stands_in_authority(user + name + port),
{
    assert(user + name + port =~= user + (name + port));
    lemma_server_names_no_user(name, port);
    assert(user.len() > 0 ==> user[user.len() - 1] == '@') by {
        reveal(names_user);
    }
    lemma_user_is_dropped(user, name + port);
    assert(port.len() > 0 ==> port[0] == ':') by {
        reveal(names_port);
    }
    assert(forall|i: int| 0 <= i < name.len() ==> name[i] != ':') by {
        reveal(names_host);
    }
    lemma_port_is_dropped(name, port);
    assert(stands_in_authority(user) && stands_in_authority(name) && stands_in_authority(port)) by {
        reveal(names_user);
        reveal(names_host);
        reveal(names_port);
    }
    lemma_parts_stand_in_authority(user, name);
    lemma_parts_stand_in_authority(user + name, port);
}

#[verifier::spinoff_prover]
proof fn lemma_parts_stand_in_authority(low: Seq<char>, high: Seq<char>)
    requires
        stands_in_authority(low),
        stands_in_authority(high),
    ensures
        stands_in_authority(low + high),
{
    reveal(stands_in_authority);
    let all = low + high;
    assert forall|i: int| 0 <= i < all.len() implies {
        let c = #[trigger] all[i];
        c != '/' && c != '\\' && c != '?' && c != '#' && c != '\t' && c != '\n' && c != '\r'
    } by {
        if i < low.len() {
            assert(all[i] == low[i]);
        } else {
            assert(all[i] == high[i - low.len()]);
        }
    }
}

proof fn lemma_points_to_host(
    scheme: Seq<char>,
    rest: Seq<char>,
    host: Seq<char>,
    wanted: Seq<char>,
)
    requires
        unbroken(rest) == rest,
        host_in(authority(rest)) == host,
    ensures
        points_to(scheme + rest, scheme, wanted) <==> host == wanted,
{
    lemma_scheme_behind(scheme, rest);
}

/// The host tells whether a URL is that of a local proxy, or of the OpenAI API. It
/// stands between the name of a user and a port, with or without a dot at its end, and
/// whatever place on the server follows.
pub proof fn law_host_tells_the_server(
    user: Seq<char>,
    host: Seq<char>,
    port: Seq<char>,
    place: Seq<char>,
)
    requires
        names_user(user),
        names_host(host),
        names_port(port),
        names_place(place),
    ensures
        host.len() == 0 || host[host.len() - 1] != '.' ==> {
            let rest = user + host + port + place;
            &&& host_in(authority(rest)) == host
            &&& local_proxy("http://"@ + rest) <==> host == "127.0.0.1"@ || host == "localhost"@
            &&& openai_url("https://"@ + rest) <==> host == "api.openai.com"@
        },
        ({
            let rest = user + host.push('.') + port + place;
            &&& host_in(authority(rest)) == host
            &&& local_proxy("http://"@ + rest) <==> host == "127.0.0.1"@ || host == "localhost"@
            &&& openai_url("https://"@ + rest) <==> host == "api.openai.com"@
        }),
{
    lemma_name_tells_the_server(user, host, port, place);
    assert(names_host(host.push('.'))) by {
        reveal(names_host);
        reveal(stands_in_authority);
    }
    lemma_name_tells_the_server(user, host.push('.'), port, place);
    assert(host.push('.').drop_last() =~= host);
}

#[verifier::spinoff_prover]
proof fn lemma_name_tells_the_server(
    user: Seq<char>,
    name: Seq<char>,
    port: Seq<char>,
    place: Seq<char>,
)
    requires
        names_user(user),
        names_host(name),
        names_port(port),
        names_place(place),
    ensures
        ({
            let rest = user + name + port + place;
            let host = without_root(name);
            &&& host_in(authority(rest)) == host
            &&& local_proxy("http://"@ + rest) <==> host == "127.0.0.1"@ || host == "localhost"@
            &&& openai_url("https://"@ + rest) <==> host == "api.openai.com"@
        }),
{
    let rest = user + name + port + place;
    let host = without_root(name);
    lemma_host_of_parts(user, name, port);
    lemma_authority_of_parts(user + name + port, place);
    lemma_points_to_host("http://"@, rest, host, "127.0.0.1"@);
    lemma_points_to_host("http://"@, rest, host, "localhost"@);
    lemma_points_to_host("https://"@, rest, host, "api.openai.com"@);
}

proof fn lemma_no_last_index(s: Seq<char>, c: char)
    requires
        forall|i: int| 0 <= i < s.len() ==> s[i] != c,
    ensures
        last_index(s, c) == -1,
{
    if s.len() > 0 {
        lemma_last_index(s, c, -1);
    }
}

proof fn lemma_scheme_behind(scheme: Seq<char>, rest: Seq<char>)
    ensures
        scheme.is_prefix_of(scheme + rest),
        (scheme + rest).skip(scheme.len() as int) == rest,
{
    let url = scheme + rest;
    assert(url.subrange(0, scheme.len() as int) =~= scheme);
    assert(url.skip(scheme.len() as int) =~= rest);
}

/// A local proxy is spoken to without encryption and the OpenAI API with it: no URL
/// with another scheme is that of either.
pub proof fn law_scheme_tells_the_server(url: Seq<char>)
    ensures
        local_proxy(url) ==> url.len() >= 7 && url.take(7) == "http://"@,
        openai_url(url) ==> url.len() >= 8 && url.take(8) == "https://"@,
{
    reveal_strlit("http://");
    reveal_strlit("https://");
    if local_proxy(url) {
        assert(url.take(7) =~= url.subrange(0, 7));
    }
    if openai_url(url) {
        assert(url.take(8) =~= url.subrange(0, 8));
    }
}

/// A tab or a line break in a URL, behind the scheme, makes no difference to where it
/// points.
pub proof fn law_breaks_in_a_url_are_ignored(before: Seq<char>, c: char, after: Seq<char>)
    requires
        c == '\t' || c == '\n' || c == '\r',
    ensures
        local_proxy("http://"@ + (before + seq![c] + after)) == local_proxy(
            "http://"@ + (before + after),
        ),
        openai_url("https://"@ + (before + seq![c] + after)) == openai_url(
            "https://"@ + (before + after),
        ),
{
    let broken = before + seq![c] + after;
    let whole = before + after;
    let kept = |c: char| !dropped_from_url(c);
    Seq::filter_distributes_over_add(before.push(c), after, kept);
    Seq::filter_distributes_over_add(before, after, kept);
    lemma_unbroken_push(before, c);
    assert(broken =~= before.push(c) + after);
    assert(unbroken(broken) == unbroken(whole));
    lemma_scheme_behind("http://"@, broken);
    lemma_scheme_behind("http://"@, whole);
    lemma_scheme_behind("https://"@, broken);
    lemma_scheme_behind("https://"@, whole);
}

} // verus!
