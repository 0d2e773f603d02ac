//! The configuration wrapper: holds one payload value and converts it to and
//! from JSON text and bytes.
//!
//! File persistence itself is asynchronous I/O and lives with the hosting
//! application; the library fixes everything the application does not
//! decide: the exact text a save writes ([`Config::to_file_contents`]) and
//! the meaning of the text a load reads ([`Config::from_json_str`]).

use vstd::prelude::*;
use vstd::std_specs::cmp::PartialEqSpec;
use vstd::utf8::{decode_utf8, encode_utf8, valid_utf8};

use crate::errors::ConfigError;

verus! {

/// The JSON capability a payload type offers: its rendering to compact and
/// pretty JSON text, and the decoding relation of its shape.
///
/// The executable methods are proved against the spec-level model, and the
/// proof obligations are the laws every payload must establish: encoding
/// decodes back to the same payload, and a text decodes to at most one
/// payload.
pub trait JsonPayload: Sized {
    /// Whether the payload can be represented as JSON text by this
    /// library's encoder.
    spec fn valid(&self) -> bool;

    /// The compact JSON text of the payload: no whitespace between tokens.
    spec fn compact_json(&self) -> Seq<char>;

    /// The pretty JSON text of the payload: two-space indentation and
    /// newlines, nothing else different from the compact text.
    spec fn pretty_json(&self) -> Seq<char>;

    /// What JSON text means for this shape: `text` decodes to `v`.
    spec fn decodes_to(text: Seq<char>, v: Self) -> bool;

    /// Payloads the codec cannot tell apart: they render to the same JSON.
    spec fn same(&self, other: &Self) -> bool;

    /// Serializes the payload to compact JSON text.
    fn encode_compact(&self) -> (r: Result<String, ConfigError>)
        ensures
            match r {
                Ok(s) => self.valid() && s@ == self.compact_json(),
                Err(e) => !self.valid() && e == ConfigError::EncodingError,
            },
    ;

    /// Serializes the payload to pretty JSON text.
    fn encode_pretty(&self) -> (r: Result<String, ConfigError>)
        ensures
            match r {
                Ok(s) => self.valid() && s@ == self.pretty_json(),
                Err(e) => !self.valid() && e == ConfigError::EncodingError,
            },
    ;

    /// Parses JSON text into a payload: exactly the meaning `decodes_to`
    /// gives the text, an error when it has none.
    fn decode_text(text: &str) -> (r: Result<Self, ConfigError>)
        ensures
            match r {
                Ok(v) => Self::decodes_to(text@, v),
                Err(e) => e == ConfigError::DecodingError && !(exists|v: Self|
                    Self::decodes_to(text@, v)),
            },
    ;

    /// Law: the compact text of a representable payload decodes back to it.
    proof fn compact_round_trip(v: Self)
        requires
            v.valid(),
        ensures
            Self::decodes_to(v.compact_json(), v),
    ;

    /// Law: the pretty text of a representable payload decodes back to it.
    proof fn pretty_round_trip(v: Self)
        requires
            v.valid(),
        ensures
            Self::decodes_to(v.pretty_json(), v),
    ;

    /// Law: a text decodes to at most one payload.
    proof fn decodes_unique(text: Seq<char>, a: Self, b: Self)
        requires
            Self::decodes_to(text, a),
            Self::decodes_to(text, b),
        ensures
            a.same(&b),
    ;

    /// Law: whatever decodes is representable, so it can be saved again.
    proof fn decoded_valid(text: Seq<char>, v: Self)
        requires
            Self::decodes_to(text, v),
        ensures
            v.valid(),
    ;

    /// Law: the pretty text differs from the compact text only in
    /// whitespace.
    proof fn pretty_whitespace_only(v: Self)
        requires
            v.valid(),
        ensures
            crate::json::without_ws(v.pretty_json()) == crate::json::without_ws(v.compact_json()),
    ;

    /// Law: `same` is symmetric.
    proof fn same_symmetric(a: Self, b: Self)
        requires
            a.same(&b),
        ensures
            b.same(&a),
    ;

    /// Law: `same` is transitive.
    proof fn same_transitive(a: Self, b: Self, c: Self)
        requires
            a.same(&b),
            b.same(&c),
        ensures
            a.same(&c),
    ;
}

/// The file binding a payload type declares for persistence: a path and a
/// formatting flag, both pure functions of the type — every wrapper of the
/// same payload type binds to the same file.
pub trait ConfigFile {
    /// The bound file-system path.
    spec fn path_spec() -> Seq<char>;

    /// Whether saves write pretty JSON rather than compact.
    spec fn pretty_spec() -> bool;

    /// The bound path: stable across calls, no hidden instance state.
    fn path() -> (p: String)
        ensures
            p@ == Self::path_spec(),
    ;

    /// The bound formatting flag: stable across calls.
    fn pretty() -> (b: bool)
        ensures
            b == Self::pretty_spec(),
    ;
}

/// The configuration wrapper: exactly one payload value, exclusively owned.
///
/// Every read and write goes through the same in-memory value until an
/// explicit load replaces it wholesale.
#[derive(Debug)]
pub struct Config<T> {
    configuration: T,
}

impl<T> Config<T> {
    /// The payload the wrapper holds.
    pub closed spec fn payload(self) -> T {
        self.configuration
    }

    /// Wraps a payload value.
    pub fn new(value: T) -> (c: Config<T>)
        ensures
            c.payload() == value,
    {
        Config { configuration: value }
    }

    /// The payload, for reading: the wrapper behaves as the payload.
    pub fn get(&self) -> (r: &T)
        ensures
            *r == self.payload(),
    {
        &self.configuration
    }

    /// Replaces the payload: the wrapper behaves as the payload.
    pub fn set(&mut self, value: T)
        ensures
            final(self).payload() == value,
    {
        self.configuration = value;
    }

    /// The payload, for mutation: the wrapper behaves as the payload.
    pub fn get_mut(&mut self) -> (r: &mut T)
        ensures
            *r == old(self).payload(),
            final(self).payload() == *final(r),
    {
        &mut self.configuration
    }

    /// Unwraps the payload.
    pub fn into_value(self) -> (r: T)
        ensures
            r == self.payload(),
    {
        self.configuration
    }
}

impl<T: PartialEqSpec> PartialEq for Config<T> {
    /// Two wrappers are equal exactly when their payloads are.
    fn eq(&self, other: &Self) -> bool {
        self.configuration == other.configuration
    }
}

impl<T: PartialEqSpec> vstd::std_specs::cmp::PartialEqSpecImpl for Config<T> {
    open spec fn obeys_eq_spec() -> bool {
        T::obeys_eq_spec()
    }

    open spec fn eq_spec(&self, other: &Self) -> bool {
        self.payload().eq_spec(&other.payload())
    }
}

impl<T: Default> Default for Config<T> {
    /// Default construction delegates to the payload's own default rule:
    /// the payload is a value `T::default` could have returned.
    fn default() -> (r: Self)
        ensures
            call_ensures(T::default, (), r.payload()),
    {
        Config { configuration: T::default() }
    }
}

/// Relies on str::from_utf8: `Some` exactly on input that is valid UTF-8,
/// with the characters those bytes encode.
#[verifier::external_body]
fn bytes_to_str(bytes: &[u8]) -> (r: Option<&str>)
    ensures
        match r {
            Some(s) => valid_utf8(bytes@) && s@ == decode_utf8(bytes@),
            None => !valid_utf8(bytes@),
        },
{
    core::str::from_utf8(bytes).ok()
}

impl<T: JsonPayload> Config<T> {
    /// Serializes the current payload to compact JSON text.
    pub fn to_json(&self) -> (r: Result<String, ConfigError>)
        ensures
            match r {
                Ok(s) => self.payload().valid() && s@ == self.payload().compact_json(),
                Err(e) => !self.payload().valid() && e == ConfigError::EncodingError,
            },
    {
        self.configuration.encode_compact()
    }

    /// Serializes the current payload to pretty JSON text.
    pub fn to_json_pretty(&self) -> (r: Result<String, ConfigError>)
        ensures
            match r {
                Ok(s) => self.payload().valid() && s@ == self.payload().pretty_json(),
                Err(e) => !self.payload().valid() && e == ConfigError::EncodingError,
            },
    {
        self.configuration.encode_pretty()
    }

    /// Parses JSON text into a new payload instance and wraps it.
    pub fn from_json_str(json: &str) -> (r: Result<Config<T>, ConfigError>)
        ensures
            match r {
                Ok(c) => T::decodes_to(json@, c.payload()),
                Err(e) => e == ConfigError::DecodingError && !(exists|v: T|
                    T::decodes_to(json@, v)),
            },
    {
        match T::decode_text(json) {
            Ok(v) => Ok(Config { configuration: v }),
            Err(e) => Err(e),
        }
    }

    /// Parses a byte sequence expected to be UTF-8-encoded JSON text and
    /// wraps the decoded payload.
    pub fn from_json_slice(json_buffer: &[u8]) -> (r: Result<Config<T>, ConfigError>)
        ensures
            match r {
                Ok(c) => valid_utf8(json_buffer@) && T::decodes_to(
                    decode_utf8(json_buffer@),
                    c.payload(),
                ),
                Err(e) => e == ConfigError::DecodingError && (!valid_utf8(json_buffer@) || !(
                exists|v: T| T::decodes_to(decode_utf8(json_buffer@), v))),
            },
    {
        match bytes_to_str(json_buffer) {
            Some(s) => Self::from_json_str(s),
            None => Err(ConfigError::DecodingError),
        }
    }
}

impl<T: JsonPayload + ConfigFile> Config<T> {
    /// The exact text a save writes to the bound path: compact or pretty
    /// per the payload type's formatting flag.
    pub open spec fn file_json(self) -> Seq<char> {
        if T::pretty_spec() {
            self.payload().pretty_json()
        } else {
            self.payload().compact_json()
        }
    }

    /// Serializes the payload per the bound formatting flag: the full
    /// content that a save writes, replacing whatever the file held.
    pub fn to_file_contents(&self) -> (r: Result<String, ConfigError>)
        ensures
            match r {
                Ok(s) => self.payload().valid() && s@ == self.file_json(),
                Err(e) => !self.payload().valid() && e == ConfigError::EncodingError,
            },
    {
        if T::pretty() {
            self.to_json_pretty()
        } else {
            self.to_json()
        }
    }
}

/// Round-trip law: the compact and the pretty JSON text of a representable
/// payload both decode back to it.
pub proof fn lemma_round_trip<T: JsonPayload>(v: T)
    requires
        v.valid(),
    ensures
        T::decodes_to(v.compact_json(), v),
        T::decodes_to(v.pretty_json(), v),
{
    T::compact_round_trip(v);
    T::pretty_round_trip(v);
}

/// Round-trip law at the wrapper: whatever `from_json_str` decodes from
/// `to_json`'s output is the payload that was encoded.
pub proof fn lemma_text_round_trip<T: JsonPayload>(c: Config<T>, d: Config<T>)
    requires
        c.payload().valid(),
        T::decodes_to(c.payload().compact_json(), d.payload()),
    ensures
        d.payload().same(&c.payload()),
{
    T::compact_round_trip(c.payload());
    T::decodes_unique(c.payload().compact_json(), d.payload(), c.payload());
}

/// Round-trip law, byte-slice variant: the UTF-8 bytes of a representable
/// payload's compact text are valid UTF-8, and whatever `from_json_slice`
/// decodes from them is the payload that was encoded.
pub proof fn lemma_bytes_round_trip<T: JsonPayload>(c: Config<T>, d: Config<T>)
    requires
        c.payload().valid(),
        T::decodes_to(decode_utf8(encode_utf8(c.payload().compact_json())), d.payload()),
    ensures
        d.payload().same(&c.payload()),
{
    vstd::utf8::encode_utf8_decode_utf8(c.payload().compact_json());
    T::compact_round_trip(c.payload());
    T::decodes_unique(c.payload().compact_json(), d.payload(), c.payload());
}

/// The UTF-8 bytes of any text are valid UTF-8 and decode back to it: the
/// byte form of an encoded payload never fails the UTF-8 check of
/// `from_json_slice`.
pub proof fn lemma_utf8_bytes_decode(text: Seq<char>)
    ensures
        valid_utf8(vstd::utf8::encode_utf8(text)),
        decode_utf8(vstd::utf8::encode_utf8(text)) == text,
{
    vstd::utf8::encode_utf8_valid_utf8(text);
    vstd::utf8::encode_utf8_decode_utf8(text);
}

/// Pretty/compact equivalence: what decodes from the pretty text equals
/// what decodes from the compact text — formatting carries no meaning.
pub proof fn lemma_pretty_compact_agree<T: JsonPayload>(v: T, a: T, b: T)
    requires
        v.valid(),
        T::decodes_to(v.compact_json(), a),
        T::decodes_to(v.pretty_json(), b),
    ensures
        a.same(&b),
{
    T::compact_round_trip(v);
    T::pretty_round_trip(v);
    T::decodes_unique(v.compact_json(), a, v);
    T::decodes_unique(v.pretty_json(), v, b);
    T::same_transitive(a, v, b);
}

/// File round-trip law: whatever decodes back from the exact text a save
/// writes — compact or pretty, per the bound flag — is the payload saved.
pub proof fn lemma_file_round_trip<T: JsonPayload + ConfigFile>(c: Config<T>, d: Config<T>)
    requires
        c.payload().valid(),
        T::decodes_to(c.file_json(), d.payload()),
    ensures
        d.payload().same(&c.payload()),
{
    if T::pretty_spec() {
        T::pretty_round_trip(c.payload());
    } else {
        T::compact_round_trip(c.payload());
    }
    T::decodes_unique(c.file_json(), d.payload(), c.payload());
}

} // verus!

