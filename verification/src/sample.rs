//! The payload type shipped with the library: two string fields, bound to a
//! file. It carries the verified codec for its shape and shows what a
//! payload type must establish to compose with the wrapper.

use vstd::prelude::*;
use vstd::std_specs::cmp::PartialEqSpec;
use vstd::string::StringExecFns;

use crate::config::{ConfigFile, JsonPayload};
use crate::errors::ConfigError;
use crate::json::{
    escape_str, lemma_parse_object_two_compact, lemma_parse_object_two_pretty,
    lemma_pretty_compact_whitespace_only, object_two_compact, object_two_pretty, parse_object_two,
    parse_object_two_at, string_char_ok, text_ok,
};

verus! {

/// A configuration of two string fields, rendered in declaration order.
#[derive(Debug)]
pub struct SampleConfig {
    pub hello: String,
    pub world: String,
}

/// The member names of [`SampleConfig`] are distinct and may stand
/// unescaped in JSON text.
proof fn lemma_keys_text_ok()
    ensures
        text_ok("hello"@),
        text_ok("world"@),
        "hello"@ != "world"@,
{
    reveal_strlit("hello");
    reveal_strlit("world");
    assert forall|i: int| 0 <= i < "hello"@.len() implies string_char_ok(#[trigger] "hello"@[i]) by {
        if i == 0 {
            assert(string_char_ok('h'));
        } else if i == 1 {
            assert(string_char_ok('e'));
        } else if i == 2 || i == 3 {
            assert(string_char_ok('l'));
        } else {
            assert(string_char_ok('o'));
        }
    }
    assert forall|i: int| 0 <= i < "world"@.len() implies string_char_ok(#[trigger] "world"@[i]) by {
        if i == 0 {
            assert(string_char_ok('w'));
        } else if i == 1 {
            assert(string_char_ok('o'));
        } else if i == 2 {
            assert(string_char_ok('r'));
        } else if i == 3 {
            assert(string_char_ok('l'));
        } else {
            assert(string_char_ok('d'));
        }
    }
    assert("hello"@[0] == 'h' && "world"@[0] == 'w');
}

impl JsonPayload for SampleConfig {
    /// Every payload is representable: the encoder escapes whatever the
    /// fields hold, so encoding never fails for this shape.
    open spec fn valid(&self) -> bool {
        true
    }

    open spec fn compact_json(&self) -> Seq<char> {
        object_two_compact("hello"@, self.hello@, "world"@, self.world@)
    }

    open spec fn pretty_json(&self) -> Seq<char> {
        object_two_pretty("hello"@, self.hello@, "world"@, self.world@)
    }

    open spec fn decodes_to(text: Seq<char>, v: Self) -> bool {
        parse_object_two(text, "hello"@, "world"@) == Some((v.hello@, v.world@))
    }

    open spec fn same(&self, other: &Self) -> bool {
        self.hello@ == other.hello@ && self.world@ == other.world@
    }

    fn encode_compact(&self) -> (r: Result<String, ConfigError>) {
        let hello_escaped = escape_str(self.hello.as_str());
        let world_escaped = escape_str(self.world.as_str());
        let mut out = String::new();
        out.append("{\"hello\":\"");
        out.append(hello_escaped.as_str());
        out.append("\",\"world\":\"");
        out.append(world_escaped.as_str());
        out.append("\"}");
        proof {
            reveal_strlit("{\"hello\":\"");
            reveal_strlit("\",\"world\":\"");
            reveal_strlit("\"}");
            reveal_strlit("hello");
            reveal_strlit("world");
            assert(out@ =~= self.compact_json());
        }
        Ok(out)
    }

    fn encode_pretty(&self) -> (r: Result<String, ConfigError>) {
        let hello_escaped = escape_str(self.hello.as_str());
        let world_escaped = escape_str(self.world.as_str());
        let mut out = String::new();
        out.append("{\n  \"hello\": \"");
        out.append(hello_escaped.as_str());
        out.append("\",\n  \"world\": \"");
        out.append(world_escaped.as_str());
        out.append("\"\n}");
        proof {
            reveal_strlit("{\n  \"hello\": \"");
            reveal_strlit("\",\n  \"world\": \"");
            reveal_strlit("\"\n}");
            reveal_strlit("hello");
            reveal_strlit("world");
            assert(out@ =~= self.pretty_json());
        }
        Ok(out)
    }

    fn decode_text(text: &str) -> (r: Result<Self, ConfigError>) {
        match parse_object_two_at(text, "hello", "world") {
            Some(p) => Ok(SampleConfig { hello: p.0, world: p.1 }),
            None => Err(ConfigError::DecodingError),
        }
    }

    proof fn compact_round_trip(v: Self) {
        lemma_keys_text_ok();
        lemma_parse_object_two_compact("hello"@, v.hello@, "world"@, v.world@);
    }

    proof fn pretty_round_trip(v: Self) {
        lemma_keys_text_ok();
        lemma_parse_object_two_pretty("hello"@, v.hello@, "world"@, v.world@);
    }

    proof fn decodes_unique(text: Seq<char>, a: Self, b: Self) {
    }

    proof fn decoded_valid(text: Seq<char>, v: Self) {
    }

    proof fn pretty_whitespace_only(v: Self) {
        lemma_pretty_compact_whitespace_only("hello"@, v.hello@, "world"@, v.world@);
    }

    proof fn same_symmetric(a: Self, b: Self) {
    }

    proof fn same_transitive(a: Self, b: Self, c: Self) {
    }
}

/// For this payload the codec's `same` relation is payload equality: what
/// the round-trip laws conclude is what `==` on the wrapper compares.
pub proof fn lemma_same_is_equality(a: &SampleConfig, b: &SampleConfig)
    ensures
        a.same(b) == a.eq_spec(b),
{
}

impl ConfigFile for SampleConfig {
    open spec fn path_spec() -> Seq<char> {
        "/tmp/sample_config.json"@
    }

    open spec fn pretty_spec() -> bool {
        true
    }

    fn path() -> (p: String) {
        "/tmp/sample_config.json".to_owned()
    }

    fn pretty() -> (b: bool) {
        true
    }
}

impl PartialEq for SampleConfig {
    /// Payloads are equal exactly when both fields hold the same text.
    fn eq(&self, other: &Self) -> bool {
        self.hello == other.hello && self.world == other.world
    }
}

impl vstd::std_specs::cmp::PartialEqSpecImpl for SampleConfig {
    open spec fn obeys_eq_spec() -> bool {
        true
    }

    open spec fn eq_spec(&self, other: &Self) -> bool {
        self.hello@ == other.hello@ && self.world@ == other.world@
    }
}

impl Default for SampleConfig {
    /// The default payload: each field holds its own name.
    fn default() -> (r: Self)
        ensures
            r.hello@ == "hello"@,
            r.world@ == "world"@,
    {
        SampleConfig { hello: "hello".to_owned(), world: "world".to_owned() }
    }
}

} // verus!
