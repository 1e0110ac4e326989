use vstd::prelude::*;

use crate::text::{chars_of, string_from_range, trim_end_char, trim_end_char_len};

verus! {

/// A single message in a conversation.
pub struct ChatMessage {
    pub role: String,
    pub content: String,
}

impl ChatMessage {
    pub fn system(content: &str) -> (r: Self)
        ensures
            r.role@ == "system"@,
            r.content@ == content@,
    {
        ChatMessage { role: String::from_str("system"), content: String::from_str(content) }
    }

    pub fn user(content: &str) -> (r: Self)
        ensures
            r.role@ == "user"@,
            r.content@ == content@,
    {
        ChatMessage { role: String::from_str("user"), content: String::from_str(content) }
    }

    pub fn assistant(content: &str) -> (r: Self)
        ensures
            r.role@ == "assistant"@,
            r.content@ == content@,
    {
        ChatMessage { role: String::from_str("assistant"), content: String::from_str(content) }
    }

    pub fn tool(content: &str) -> (r: Self)
        ensures
            r.role@ == "tool"@,
            r.content@ == content@,
    {
        ChatMessage { role: String::from_str("tool"), content: String::from_str(content) }
    }
}

/// A tool call requested by the model; `arguments` is JSON text.
pub struct ToolCall {
    pub id: String,
    pub name: String,
    pub arguments: String,
}

/// Token counts reported for one response.
pub struct TokenUsage {
    pub prompt_tokens: u32,
    pub completion_tokens: u32,
    pub total_tokens: u32,
}

impl Default for TokenUsage {
    fn default() -> (r: Self)
        ensures
            r.prompt_tokens == 0 && r.completion_tokens == 0 && r.total_tokens == 0,
    {
        TokenUsage { prompt_tokens: 0, completion_tokens: 0, total_tokens: 0 }
    }
}

/// A model response: text, tool calls, or both.
pub struct ChatResponse {
    pub text: Option<String>,
    pub tool_calls: Vec<ToolCall>,
    pub usage: Option<TokenUsage>,
}

/// The text of a reply, or nothing.
pub open spec fn reply_text(r: ChatResponse) -> Seq<char> {
    match r.text {
        Some(t) => t@,
        None => Seq::<char>::empty(),
    }
}

impl ChatResponse {
    /// The chunks to forward for a reply that came whole: its text as one
    /// chunk, or none when it is empty. Joined, they give the text, and no
    /// chunk is empty.
    pub fn reply_chunks(&self) -> (v: Vec<String>)
        ensures
            crate::text::views(v@).flatten() == reply_text(*self),
            forall|i: int| 0 <= i < v@.len() ==> (#[trigger] v@[i])@.len() > 0,
    {
        let mut v: Vec<String> = Vec::new();
        match &self.text {
            Some(t) => {
                if !t.as_str().is_empty() {
                    v.push(t.clone());
                    proof {
                        assert(crate::text::views(v@) =~= seq![t@]);
                        assert(seq![t@].drop_first() =~= Seq::<Seq<char>>::empty());
                        assert(seq![t@].drop_first().flatten() =~= Seq::<char>::empty());
                        assert(seq![t@].flatten() =~= t@);
                    }
                } else {
                    proof {
                        assert(crate::text::views(v@) =~= Seq::<Seq<char>>::empty());
                        assert(t@ =~= Seq::<char>::empty());
                    }
                }
            },
            None => {
                proof {
                    assert(crate::text::views(v@) =~= Seq::<Seq<char>>::empty());
                }
            },
        }
        v
    }

    /// True when the model asks for at least one tool call.
    pub fn has_tool_calls(&self) -> (r: bool)
        ensures
            r == (self.tool_calls@.len() > 0),
    {
        self.tool_calls.len() > 0
    }

    /// The text, or the empty string when there is none.
    pub fn text_or_empty(&self) -> (r: &str)
        ensures
            r@ == match self.text {
                Some(t) => t@,
                None => Seq::<char>::empty(),
            },
    {
        match &self.text {
            Some(t) => t.as_str(),
            None => {
                proof {
                    reveal_strlit("");
                }
                ""
            },
        }
    }
}

/// The OpenAI Codex provider, which holds its credentials but does not chat yet.
pub struct OpenAiCodexProvider {
    pub oauth_token: String,
    pub account_id: String,
}

impl OpenAiCodexProvider {
    pub fn new(oauth_token: &str, account_id: &str) -> (r: Self)
        ensures
            r.oauth_token@ == oauth_token@,
            r.account_id@ == account_id@,
    {
        OpenAiCodexProvider {
            oauth_token: String::from_str(oauth_token),
            account_id: String::from_str(account_id),
        }
    }

    /// This provider has no native tool calling.
    pub fn supports_native_tools(&self) -> (r: bool)
        ensures
            !r,
    {
        false
    }
}

/// An OpenAI-compatible chat provider: its key and its base URL, kept
/// without trailing slashes.
pub struct OpenAiProvider {
    pub api_key: String,
    pub base_url: String,
}

impl OpenAiProvider {
    pub fn new(api_key: &str, base_url: &str) -> (r: Self)
        ensures
            r.api_key@ == api_key@,
            r.base_url@ == trim_end_char(base_url@, '/'),
    {
        let v = chars_of(base_url);
        let n = trim_end_char_len(v.as_slice(), v.len(), '/');
        proof {
            assert(v@.take(v@.len() as int) =~= v@);
        }
        OpenAiProvider {
            api_key: String::from_str(api_key),
            base_url: string_from_range(v.as_slice(), 0, n),
        }
    }

    /// The chat completions endpoint under the base URL.
    pub fn chat_completions_url(&self) -> (r: String)
        ensures
            r@ == self.base_url@ + "/chat/completions"@,
    {
        let mut out = self.base_url.clone();
        out.append("/chat/completions");
        out
    }

    /// Native tool calling is supported.
    pub fn supports_native_tools(&self) -> (r: bool)
        ensures
            r,
    {
        true
    }
}

/// The OpenRouter chat provider: its key.
pub struct OpenRouterProvider {
    pub api_key: String,
}

impl OpenRouterProvider {
    pub fn new(api_key: &str) -> (r: Self)
        ensures
            r.api_key@ == api_key@,
    {
        OpenRouterProvider { api_key: String::from_str(api_key) }
    }

    /// Native tool calling is supported.
    pub fn supports_native_tools(&self) -> (r: bool)
        ensures
            r,
    {
        true
    }
}

} // verus!
