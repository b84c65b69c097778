use vstd::prelude::*;
use crate::text::{decimal, push_decimal, push_str, str_eq, str_starts_with};

verus! {

/// One message of a chat request.
#[derive(Debug, Clone)]
pub struct ChatMessage {
    pub role: String,
    pub content: String,
}

/// A message as the prompt renders it: a role header line for the system,
/// user and assistant roles, the bare content for any other role.
pub open spec fn render_message(role: Seq<char>, content: Seq<char>) -> Seq<char> {
    if role == "system"@ {
        "<|system|>\n"@ + content + "\n"@
    } else if role == "user"@ {
        "<|user|>\n"@ + content + "\n"@
    } else if role == "assistant"@ {
        "<|assistant|>\n"@ + content + "\n"@
    } else {
        content + "\n"@
    }
}

/// The rendered messages, in order.
pub open spec fn render_messages(ms: Seq<ChatMessage>) -> Seq<char>
    decreases ms.len(),
{
    if ms.len() == 0 {
        seq![]
    } else {
        render_messages(ms.drop_last()) + render_message(ms.last().role@, ms.last().content@)
    }
}

/// The Qwen chat prompt of a conversation: its messages, then the header
/// of the assistant's turn.
pub open spec fn chat_prompt(ms: Seq<ChatMessage>) -> Seq<char> {
    render_messages(ms) + "<|assistant|>\n"@
}

/// Renders a conversation as a Qwen chat prompt.
pub fn build_chat_prompt(messages: &[ChatMessage]) -> (r: String)
    ensures
        r@ == chat_prompt(messages@),
{
    let mut result = String::new();
    let mut i: usize = 0;
    while i < messages.len()
        invariant
            i <= messages@.len(),
            result@ == render_messages(messages@.take(i as int)),
        decreases messages@.len() - i,
    {
        let msg = &messages[i];
        let role = msg.role.as_str();
        let content = msg.content.as_str();
        let ghost before = result@;
        if str_eq(role, "system") {
            push_str(&mut result, "<|system|>\n");
            push_str(&mut result, content);
            push_str(&mut result, "\n");
        } else if str_eq(role, "user") {
            push_str(&mut result, "<|user|>\n");
            push_str(&mut result, content);
            push_str(&mut result, "\n");
        } else if str_eq(role, "assistant") {
            push_str(&mut result, "<|assistant|>\n");
            push_str(&mut result, content);
            push_str(&mut result, "\n");
        } else {
            push_str(&mut result, content);
            push_str(&mut result, "\n");
        }
        assert(messages@.take(i + 1).drop_last() =~= messages@.take(i as int));
        assert(result@ =~= before + render_message(msg.role@, msg.content@));
        i = i + 1;
    }
    assert(messages@.take(messages@.len() as int) =~= messages@);
    push_str(&mut result, "<|assistant|>\n");
    result
}

/// A request is authorized when the server has no key, or when its
/// `Authorization` header is `Bearer ` followed by exactly the key; a request
/// without the header is refused whenever a key is set.
pub open spec fn spec_authorized(api_key: Option<Seq<char>>, header: Option<Seq<char>>) -> bool {
    match api_key {
        None => true,
        Some(k) => header == Some("Bearer "@ + k),
    }
}

/// Whether a request with the `Authorization` header `header` (absent, or not
/// visible ASCII, as `None`) may use a server protected by `api_key`.
pub fn check_auth(api_key: Option<&str>, header: Option<&str>) -> (b: bool)
    ensures
        b == spec_authorized(
            match api_key {
                Some(k) => Some(k@),
                None => None,
            },
            match header {
                Some(h) => Some(h@),
                None => None,
            },
        ),
{
    match api_key {
        None => true,
        Some(expected) => match header {
            Some(h) => {
                proof {
                    reveal_strlit("Bearer ");
                }
                if !str_starts_with(h, "Bearer ") {
                    assert(h@ != "Bearer "@ + expected@) by {
                        if h@ == "Bearer "@ + expected@ {
                            assert(h@.take(7) =~= "Bearer "@);
                        }
                    }
                    return false;
                }
                let cs = crate::text::str_chars(h);
                let provided = crate::text::string_from_char_range(cs.as_slice(), 7, cs.len());
                let same = str_eq(provided.as_str(), expected);
                proof {
                    assert(h@ =~= h@.take(7) + h@.subrange(7, h@.len() as int));
                    if h@ == "Bearer "@ + expected@ {
                        assert(h@.subrange(7, h@.len() as int) =~= expected@);
                    }
                }
                same
            },
            None => false,
        },
    }
}

/// The number of tokens a request may generate: what it asks for (512 when
/// it does not say), at most the context length.
pub fn request_max_tokens(requested: Option<usize>, max_seq_len: usize) -> (n: usize)
    ensures
        n == (match requested {
            Some(x) => if x < max_seq_len { x } else { max_seq_len },
            None => if 512 < max_seq_len { 512 } else { max_seq_len },
        }),
{
    let want = match requested {
        Some(x) => x,
        None => 512,
    };
    if want < max_seq_len {
        want
    } else {
        max_seq_len
    }
}

pub open spec fn msg_prompt_too_long(n_prompt: usize, max_seq_len: usize) -> Seq<char> {
    "prompt too long: "@ + decimal(n_prompt as nat) + " tokens, max context is "@ + decimal(
        max_seq_len as nat,
    )
}

/// The message of the answer to a request whose prompt and new tokens do not
/// fit in the context.
pub fn prompt_too_long_message(n_prompt: usize, max_seq_len: usize) -> (s: String)
    ensures
        s@ == msg_prompt_too_long(n_prompt, max_seq_len),
{
    let mut m = "prompt too long: ".to_owned();
    push_decimal(&mut m, n_prompt as u64);
    push_str(&mut m, " tokens, max context is ");
    push_decimal(&mut m, max_seq_len as u64);
    m
}

/// A request is authorized by the exact key after `Bearer `, and refused
/// without the header whenever the server has a key (an empty one too).
pub proof fn lemma_bearer_key(k: Seq<char>, header: Option<Seq<char>>)
    ensures
        spec_authorized(Some(k), Some("Bearer "@ + k)),
        !spec_authorized(Some(k), None),
        spec_authorized(None, header),
        header != Some("Bearer "@ + k) ==> !spec_authorized(Some(k), header),
{
}

/// Why the API refuses a request.
#[derive(Debug, Clone, PartialEq, Eq)]
pub enum ApiRejection {
    /// The API key is missing or wrong.
    Unauthorized,
    /// The request asks for a stream of partial results.
    StreamingUnsupported,
    /// The prompt and the tokens to generate do not fit in the context.
    PromptTooLong { n_prompt: usize, max_seq_len: usize },
    /// The model failed, with the message of its error.
    Inference(String),
}

/// The HTTP status of a refusal.
pub open spec fn rejection_status(r: ApiRejection) -> u16 {
    match r {
        ApiRejection::Unauthorized => 401,
        ApiRejection::StreamingUnsupported => 501,
        ApiRejection::PromptTooLong { .. } => 400,
        ApiRejection::Inference(_) => 500,
    }
}

/// The message that a refusal carries.
pub open spec fn rejection_message(r: ApiRejection) -> Seq<char> {
    match r {
        ApiRejection::Unauthorized => "unauthorized"@,
        ApiRejection::StreamingUnsupported => "streaming not yet supported"@,
        ApiRejection::PromptTooLong { n_prompt, max_seq_len } => msg_prompt_too_long(n_prompt, max_seq_len),
        ApiRejection::Inference(m) => m@,
    }
}

impl ApiRejection {
    /// The HTTP status code of the answer.
    pub fn status(&self) -> (code: u16)
        ensures
            code == rejection_status(*self),
    {
        match self {
            ApiRejection::Unauthorized => 401,
            ApiRejection::StreamingUnsupported => 501,
            ApiRejection::PromptTooLong { .. } => 400,
            ApiRejection::Inference(_) => 500,
        }
    }

    /// The message of the answer.
    pub fn message(&self) -> (m: String)
        ensures
            m@ == rejection_message(*self),
    {
        match self {
            ApiRejection::Unauthorized => "unauthorized".to_owned(),
            ApiRejection::StreamingUnsupported => "streaming not yet supported".to_owned(),
            ApiRejection::PromptTooLong { n_prompt, max_seq_len } => prompt_too_long_message(*n_prompt, *max_seq_len),
            ApiRejection::Inference(m) => m.clone(),
        }
    }
}

/// The views of an optional key and header.
pub open spec fn opt_view(o: Option<&str>) -> Option<Seq<char>> {
    match o {
        Some(s) => Some(s@),
        None => None,
    }
}

/// Whether a request is served at all: a request that is not authorized is
/// refused first, then one that asks for streaming.
pub fn screen_request(api_key: Option<&str>, header: Option<&str>, stream: Option<bool>) -> (r: Result<(), ApiRejection>)
    ensures
        !spec_authorized(opt_view(api_key), opt_view(header)) ==> r == Err::<(), ApiRejection>(ApiRejection::Unauthorized),
        spec_authorized(opt_view(api_key), opt_view(header)) && stream == Some(true)
            ==> r == Err::<(), ApiRejection>(ApiRejection::StreamingUnsupported),
        spec_authorized(opt_view(api_key), opt_view(header)) && stream != Some(true) ==> r is Ok,
{
    if !check_auth(api_key, header) {
        return Err(ApiRejection::Unauthorized);
    }
    match stream {
        Some(true) => Err(ApiRejection::StreamingUnsupported),
        _ => Ok(()),
    }
}

/// Refuses a request whose prompt of `n_prompt` tokens and `max_tokens` new
/// tokens exceed the context of `max_seq_len` tokens.
pub fn check_prompt(n_prompt: usize, max_tokens: usize, max_seq_len: usize) -> (r: Result<(), ApiRejection>)
    requires
        n_prompt + max_tokens <= usize::MAX,
    ensures
        n_prompt + max_tokens > max_seq_len ==> r == Err::<(), ApiRejection>(
            ApiRejection::PromptTooLong { n_prompt, max_seq_len },
        ),
        n_prompt + max_tokens <= max_seq_len ==> r is Ok,
{
    if n_prompt + max_tokens > max_seq_len {
        Err(ApiRejection::PromptTooLong { n_prompt, max_seq_len })
    } else {
        Ok(())
    }
}

} // verus!
