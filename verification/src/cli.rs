use vstd::prelude::*;
use crate::error::Error;
use crate::numparse::{trim, trim_bounds};
use crate::text::{hex_digits, push_hex_byte, push_str, str_chars, str_ends_with, str_eq, string_from_char_range, ends_with};
use crate::types::QualityPolicy;

verus! {

/// The policy that a command-line word names; any other word means `Quality`.
pub open spec fn spec_parse_policy(s: Seq<char>) -> QualityPolicy {
    if s == "exact"@ {
        QualityPolicy::Exact
    } else if s == "quality"@ {
        QualityPolicy::Quality
    } else if s == "balanced"@ {
        QualityPolicy::Balanced
    } else if s == "fast"@ {
        QualityPolicy::Fast
    } else if s == "tiny"@ {
        QualityPolicy::Tiny
    } else {
        QualityPolicy::Quality
    }
}

/// Reads a quality policy from its command-line word.
pub fn parse_policy(s: &str) -> (p: QualityPolicy)
    ensures
        p == spec_parse_policy(s@),
{
    if str_eq(s, "exact") {
        QualityPolicy::Exact
    } else if str_eq(s, "quality") {
        QualityPolicy::Quality
    } else if str_eq(s, "balanced") {
        QualityPolicy::Balanced
    } else if str_eq(s, "fast") {
        QualityPolicy::Fast
    } else if str_eq(s, "tiny") {
        QualityPolicy::Tiny
    } else {
        QualityPolicy::Quality
    }
}

/// The four bytes that open every GGUF file: `GGUF`.
pub open spec fn is_gguf_magic(magic: Seq<u8>) -> bool {
    magic == seq![0x47u8, 0x47u8, 0x55u8, 0x46u8]
}

/// The message for a file whose format is not recognised.
pub open spec fn unknown_format_message(magic: Seq<u8>) -> Seq<char> {
    "unknown format (magic: "@ + hex_digits(magic[0] as nat, 2) + " "@ + hex_digits(magic[1] as nat, 2)
        + " "@ + hex_digits(magic[2] as nat, 2) + " "@ + hex_digits(magic[3] as nat, 2) + ")"@
}

/// The format of a model file, from its first four bytes and its path:
/// `"gguf"` by the magic, else `"safetensors"` by the extension, else an error.
pub open spec fn spec_detect_format(magic: Seq<u8>, path: Seq<char>) -> Result<Seq<char>, Seq<char>> {
    if is_gguf_magic(magic) {
        Ok("gguf"@)
    } else if ends_with(path, ".safetensors"@) || ends_with(path, ".sft"@) {
        Ok("safetensors"@)
    } else {
        Err(unknown_format_message(magic))
    }
}

/// Tells the format of a model file from the first four bytes read from it and its path.
pub fn detect_format(magic: [u8; 4], path: &str) -> (r: Result<String, Error>)
    ensures
        match spec_detect_format(magic@, path@) {
            Ok(f) => r matches Ok(s) && s@ == f,
            Err(m) => r matches Err(Error::Other(s)) && s@ == m,
        },
{
    if magic[0] == 0x47 && magic[1] == 0x47 && magic[2] == 0x55 && magic[3] == 0x46 {
        assert(magic@ =~= seq![0x47u8, 0x47u8, 0x55u8, 0x46u8]);
        return Ok("gguf".to_owned());
    }
    assert(!is_gguf_magic(magic@)) by {
        if is_gguf_magic(magic@) {
            assert(magic@[0] == 0x47u8 && magic@[1] == 0x47u8 && magic@[2] == 0x55u8 && magic@[3] == 0x46u8);
        }
    }
    if str_ends_with(path, ".safetensors") || str_ends_with(path, ".sft") {
        return Ok("safetensors".to_owned());
    }
    let mut s = String::new();
    push_str(&mut s, "unknown format (magic: ");
    push_hex_byte(&mut s, magic[0]);
    push_str(&mut s, " ");
    push_hex_byte(&mut s, magic[1]);
    push_str(&mut s, " ");
    push_hex_byte(&mut s, magic[2]);
    push_str(&mut s, " ");
    push_hex_byte(&mut s, magic[3]);
    push_str(&mut s, ")");
    Err(Error::Other(s))
}

/// What a line typed into the chat means.
#[derive(Debug, Clone, PartialEq, Eq)]
pub enum ChatInput {
    /// `/q`, `:q` or `/exit`: leave the chat.
    Quit,
    /// Nothing but white space: ask again.
    Empty,
    /// A message, without its surrounding white space.
    Message(String),
}

/// Reads a line typed into the chat.
pub fn chat_input(line: &str) -> (r: ChatInput)
    ensures
        trim(line@) == "/q"@ || trim(line@) == ":q"@ || trim(line@) == "/exit"@ ==> r == ChatInput::Quit,
        !(trim(line@) == "/q"@ || trim(line@) == ":q"@ || trim(line@) == "/exit"@) && trim(line@).len() == 0
            ==> r == ChatInput::Empty,
        !(trim(line@) == "/q"@ || trim(line@) == ":q"@ || trim(line@) == "/exit"@) && trim(line@).len() > 0
            ==> (r matches ChatInput::Message(m) && m@ == trim(line@)),
{
    let cs = str_chars(line);
    let (lo, hi) = trim_bounds(cs.as_slice(), 0, cs.len());
    assert(cs@.subrange(0, cs@.len() as int) =~= line@);
    let t = string_from_char_range(cs.as_slice(), lo, hi);
    if str_eq(t.as_str(), "/q") || str_eq(t.as_str(), ":q") || str_eq(t.as_str(), "/exit") {
        ChatInput::Quit
    } else if hi == lo {
        ChatInput::Empty
    } else {
        ChatInput::Message(t)
    }
}

/// Adds a user turn to a chat: the message, then the header of the
/// assistant's answer.
pub fn push_user_turn(conversation: &mut String, message: &str)
    ensures
        final(conversation)@ == old(conversation)@ + "<|user|>\n"@ + message@ + "\n<|assistant|>\n"@,
{
    push_str(conversation, "<|user|>\n");
    push_str(conversation, message);
    push_str(conversation, "\n<|assistant|>\n");
}

/// Adds the assistant's answer to a chat, ending its line.
pub fn push_answer(conversation: &mut String, answer: &str)
    ensures
        final(conversation)@ == old(conversation)@ + answer@ + "\n"@,
{
    push_str(conversation, answer);
    push_str(conversation, "\n");
}

/// Whether a chat whose prompt has `n_prompt` tokens still fits the context
/// of `max_seq_len` tokens; a chat that does not is started afresh.
pub fn chat_fits_context(n_prompt: usize, max_seq_len: usize) -> (b: bool)
    ensures
        b == (n_prompt <= max_seq_len),
{
    n_prompt <= max_seq_len
}

} // verus!
