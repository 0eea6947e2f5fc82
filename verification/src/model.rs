//! Model identifiers and token accounting.
use vstd::prelude::*;

verus! {

/// The identifier of a model, such as `gpt-4o`.
#[derive(Debug, Clone, PartialEq, Eq, Hash)]
pub struct ModelId(pub String);

impl ModelId {
    /// The identifier as a string slice.
    pub fn as_str(&self) -> (r: &str)
        ensures
            r@ == self.0@,
    {
        self.0.as_str()
    }

    /// The identifier as an owned string.
    pub fn to_string(&self) -> (r: String)
        ensures
            r@ == self.0@,
    {
        self.0.clone()
    }
}

impl From<&str> for ModelId {
    fn from(s: &str) -> (r: Self)
        ensures
            r.0@ == s@,
    {
        ModelId(s.to_owned())
    }
}

/// A `String` cannot be written down in a spec from a `&str`, so this
/// conversion states its result through the `ensures` of `from` instead.
impl vstd::std_specs::convert::FromSpecImpl<&str> for ModelId {
    open spec fn obeys_from_spec() -> bool {
        false
    }

    open spec fn from_spec(s: &str) -> Self {
        arbitrary()
    }
}

impl From<String> for ModelId {
    fn from(s: String) -> (r: Self) {
        ModelId(s)
    }
}

impl vstd::std_specs::convert::FromSpecImpl<String> for ModelId {
    open spec fn obeys_from_spec() -> bool {
        true
    }

    open spec fn from_spec(s: String) -> Self {
        ModelId(s)
    }
}

/// Tokens consumed by a request, by kind.
#[derive(Debug, Clone, Copy, PartialEq, Eq, Structural)]
pub struct TokenUsage {
    pub input_tokens: u64,
    pub output_tokens: u64,
    pub cache_read_tokens: u64,
    pub cache_creation_tokens: u64,
}

impl Default for TokenUsage {
    fn default() -> (r: Self)
        ensures
            r.input_tokens == 0,
            r.output_tokens == 0,
            r.cache_read_tokens == 0,
            r.cache_creation_tokens == 0,
    {
        TokenUsage { input_tokens: 0, output_tokens: 0, cache_read_tokens: 0, cache_creation_tokens: 0 }
    }
}

/// `a + b`, held at `u64::MAX` where the sum does not fit.
pub open spec fn sat_add(a: u64, b: u64) -> u64 {
    if a + b > u64::MAX {
        u64::MAX
    } else {
        (a + b) as u64
    }
}

impl TokenUsage {
    /// Input plus output tokens.
    pub fn total(&self) -> (r: u64)
        requires
            self.input_tokens + self.output_tokens <= u64::MAX,
        ensures
            r == self.input_tokens + self.output_tokens,
    {
        self.input_tokens + self.output_tokens
    }

    /// Whether no token of any kind was counted.
    pub fn is_empty(&self) -> (r: bool)
        ensures
            r == (self.input_tokens == 0 && self.output_tokens == 0 && self.cache_read_tokens == 0
                && self.cache_creation_tokens == 0),
    {
        self.input_tokens == 0 && self.output_tokens == 0 && self.cache_read_tokens == 0
            && self.cache_creation_tokens == 0
    }

    /// Adds the counts of `rhs`, kind by kind, each held at `u64::MAX`.
    pub fn accumulate(&mut self, rhs: TokenUsage)
        ensures
            final(self).input_tokens == sat_add(old(self).input_tokens, rhs.input_tokens),
            final(self).output_tokens == sat_add(old(self).output_tokens, rhs.output_tokens),
            final(self).cache_read_tokens == sat_add(old(self).cache_read_tokens, rhs.cache_read_tokens),
            final(self).cache_creation_tokens == sat_add(
                old(self).cache_creation_tokens,
                rhs.cache_creation_tokens,
            ),
    {
        self.input_tokens = self.input_tokens.saturating_add(rhs.input_tokens);
        self.output_tokens = self.output_tokens.saturating_add(rhs.output_tokens);
        self.cache_read_tokens = self.cache_read_tokens.saturating_add(rhs.cache_read_tokens);
        self.cache_creation_tokens = self.cache_creation_tokens.saturating_add(rhs.cache_creation_tokens);
    }
}

impl std::ops::AddAssign for TokenUsage {
    fn add_assign(&mut self, rhs: Self)
        ensures
            final(self).input_tokens == sat_add(old(self).input_tokens, rhs.input_tokens),
            final(self).output_tokens == sat_add(old(self).output_tokens, rhs.output_tokens),
            final(self).cache_read_tokens == sat_add(old(self).cache_read_tokens, rhs.cache_read_tokens),
            final(self).cache_creation_tokens == sat_add(
                old(self).cache_creation_tokens,
                rhs.cache_creation_tokens,
            ),
    {
        self.accumulate(rhs);
    }
}

} // verus!
