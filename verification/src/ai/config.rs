//! Provider configuration: api key, base URL, model, the explicit-cache flag
//! and an optional response cap, plus the endpoint defaults. Resolution of
//! these settings from flags, environment and the config file lives in
//! `app::config`.
use vstd::prelude::*;
use crate::text::{chars_of, push_str, string_of, sub_chars};

verus! {

broadcast use vstd::seq_lib::group_seq_properties;

/// Default China-station compatible-mode base URL.
pub const DEFAULT_BASE_URL: &'static str = "https://dashscope.aliyuncs.com/compatible-mode/v1";

/// Recommended default model.
pub const DEFAULT_MODEL: &'static str = "qwen-plus";

/// Resolved provider configuration: the provider-owned settings a runner
/// hands across the `chat` seam.
#[derive(Clone, Debug, PartialEq, Eq)]
pub struct ProviderConfig {
    pub api_key: String,
    pub base_url: String,
    pub model: String,
    /// Explicit context caching (the `cache_control` marker on the system
    /// message). On by default.
    pub cache: bool,
    /// Optional response cap for a request (the wire `max_tokens`); `None`
    /// omits the field.
    pub max_tokens: Option<u32>,
}

/// `s` with every trailing `c` removed (`str::trim_end_matches(c)`).
pub open spec fn trim_end_char(s: Seq<char>, c: char) -> Seq<char>
    decreases s.len(),
{
    if s.len() > 0 && s.last() == c {
        trim_end_char(s.drop_last(), c)
    } else {
        s
    }
}

impl ProviderConfig {
    /// Construct explicitly. Cache is on by default and no response cap is
    /// set.
    pub fn new(api_key: &str, base_url: &str, model: &str) -> (c: ProviderConfig)
        ensures
            c.api_key@ == api_key@,
            c.base_url@ == base_url@,
            c.model@ == model@,
            c.cache,
            c.max_tokens is None,
    {
        ProviderConfig {
            api_key: String::from_str(api_key),
            base_url: String::from_str(base_url),
            model: String::from_str(model),
            cache: true,
            max_tokens: None,
        }
    }

    /// Builder-style setter for the explicit cache flag.
    pub fn with_cache(self, cache: bool) -> (c: ProviderConfig)
        ensures
            c == (ProviderConfig { cache, ..self }),
    {
        let mut c = self;
        c.cache = cache;
        c
    }

    /// Builder-style setter for the response cap.
    pub fn with_max_tokens(self, max_tokens: u32) -> (c: ProviderConfig)
        ensures
            c == (ProviderConfig { max_tokens: Some(max_tokens), ..self }),
    {
        let mut c = self;
        c.max_tokens = Some(max_tokens);
        c
    }

    /// `{base_url}/chat/completions`, with trailing slashes of the base URL
    /// dropped.
    pub fn chat_completions_url(&self) -> (url: String)
        ensures
            url@ == trim_end_char(self.base_url@, '/') + "/chat/completions"@,
    {
        let cs = chars_of(self.base_url.as_str());
        let mut e: usize = cs.len();
        assert(cs@.subrange(0, e as int) == cs@);
        while e > 0 && cs[e - 1] == '/'
            invariant
                e <= cs@.len(),
                trim_end_char(cs@, '/') == trim_end_char(cs@.subrange(0, e as int), '/'),
            decreases e,
        {
            assert(cs@.subrange(0, e as int).drop_last() == cs@.subrange(0, e - 1));
            e = e - 1;
        }
        let mut url = string_of(&sub_chars(&cs, 0, e));
        push_str(&mut url, "/chat/completions");
        url
    }
}

} // verus!
