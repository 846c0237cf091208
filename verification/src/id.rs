//! Profile identifiers (`i18n:v1:<base32>`) and the error type of the core.
use vstd::prelude::*;
use vstd::utf8::encode_utf8;
use crate::text::{upper_seq, ascii_upper, chars_of, to_ascii_upper, string_push, starts_with, seq_starts_with};
use crate::cbor::{canonical_profile_bytes, encode_canonical_profile};
use crate::profile::{I18nProfile, ProfileModel};

verus! {

/// The error of `data_encoding` decoding, carried through unchanged.
#[verifier::external_type_specification]
#[verifier::external_body]
pub struct ExDecodeError(data_encoding::DecodeError);

/// Errors surfaced by the i18n core helpers.
#[derive(Debug)]
pub enum I18nError {
    EmptyTag,
    InvalidId(String),
    DecodeId(data_encoding::DecodeError),
    MissingField(&'static str),
}

/// Trusted: the `Display` text of a `data_encoding` decoding error. Nothing
/// is stated of the text.
#[verifier::external_body]
fn decode_error_text(err: &data_encoding::DecodeError) -> String {
    err.to_string()
}

impl From<data_encoding::DecodeError> for I18nError {
    fn from(err: data_encoding::DecodeError) -> (e: Self) {
        I18nError::DecodeId(err)
    }
}

impl vstd::std_specs::convert::FromSpecImpl<data_encoding::DecodeError> for I18nError {
    open spec fn obeys_from_spec() -> bool {
        true
    }

    open spec fn from_spec(err: data_encoding::DecodeError) -> Self {
        I18nError::DecodeId(err)
    }
}

/// The message of an error that carries no outside value.
pub open spec fn error_message(err: I18nError) -> Option<Seq<char>> {
    match err {
        I18nError::EmptyTag => Some("locale tag cannot be empty"@),
        I18nError::InvalidId(value) => Some("invalid I18nId `"@ + value@ + "`"@),
        I18nError::MissingField(field) => Some("missing required field `"@ + field@ + "`"@),
        I18nError::DecodeId(_) => None,
    }
}

impl I18nError {
    /// Human-readable description of the error.
    pub fn message(&self) -> (m: String)
        ensures
            match error_message(*self) {
                Some(text) => m@ == text,
                None => exists|detail: Seq<char>| m@ == "failed to decode I18nId: "@ + detail,
            },
    {
        match self {
            I18nError::EmptyTag => "locale tag cannot be empty".to_string(),
            I18nError::InvalidId(value) => {
                let mut m = "invalid I18nId `".to_string();
                crate::text::push_str(&mut m, value.as_str());
                crate::text::push_str(&mut m, "`");
                m
            },
            I18nError::DecodeId(err) => {
                let mut m = "failed to decode I18nId: ".to_string();
                let detail = decode_error_text(err);
                crate::text::push_str(&mut m, detail.as_str());
                assert(m@ == "failed to decode I18nId: "@ + detail@);
                m
            },
            I18nError::MissingField(field) => {
                let mut m = "missing required field `".to_string();
                crate::text::push_str(&mut m, field);
                crate::text::push_str(&mut m, "`");
                m
            },
        }
    }
}

// ---------------------------------------------------------------------------
// Outside functions
// ---------------------------------------------------------------------------

/// The 32-byte BLAKE3 digest of `input`.
pub uninterp spec fn blake3_digest(input: Seq<u8>) -> Seq<u8>;

/// Trusted: `blake3::hash` returns the 32-byte digest of its input, a
/// function of the input alone. (The crate documents `Hasher::new()`,
/// `update` and `finalize` as computing the same digest.)
#[verifier::external_body]
pub(crate) fn blake3_hash(input: &[u8]) -> (digest: [u8; 32])
    ensures
        digest@ == blake3_digest(input@),
{
    *blake3::hash(input).as_bytes()
}

/// Unpadded RFC 4648 base32 text of `data`.
pub uninterp spec fn base32_nopad_encode(data: Seq<u8>) -> Seq<char>;

/// Unpadded RFC 4648 base32 decoding; `None` when the input is not a
/// possible encoding.
pub uninterp spec fn base32_nopad_decode(input: Seq<u8>) -> Option<Seq<u8>>;

/// A symbol of the base32 alphabet `A-Z2-7`.
pub open spec fn is_base32_symbol(c: char) -> bool {
    ('A' <= c && c <= 'Z') || ('2' <= c && c <= '7')
}

/// Trusted: `BASE32_NOPAD.encode` returns the unpadded base32 text of its
/// input. Its symbols are `ABCDEFGHIJKLMNOPQRSTUVWXYZ234567` (the encoding's
/// specification), one for each 5 bits of input, the last one padded with
/// zero bits, so 16 bytes give 26 symbols (`encode_len` is `ceil(8n/5)`
/// without padding), and decoding the text gives the input back (the crate
/// documents encoding followed by decoding as the identity).
#[verifier::external_body]
fn base32_encode(data: &[u8; 16]) -> (text: String)
    ensures
        text@ == base32_nopad_encode(data@),
        text@.len() == 26,
        forall|i: int| 0 <= i < text@.len() ==> is_base32_symbol(#[trigger] text@[i]),
        base32_nopad_decode(encode_utf8(text@)) == Some(data@),
{
    data_encoding::BASE32_NOPAD.encode(data)
}

/// Trusted: `BASE32_NOPAD.decode` succeeds exactly when the input is a
/// possible encoding and then returns the decoded bytes. It asserts that the
/// input is at most `usize::MAX / 8` bytes long, hence the precondition.
#[verifier::external_body]
fn base32_decode(input: &[u8]) -> (r: Result<Vec<u8>, data_encoding::DecodeError>)
    requires
        input@.len() <= usize::MAX / 8,
    ensures
        r is Ok <==> base32_nopad_decode(input@) is Some,
        r matches Ok(v) ==> Some(v@) == base32_nopad_decode(input@),
{
    data_encoding::BASE32_NOPAD.decode(input)
}

// ---------------------------------------------------------------------------
// I18nId
// ---------------------------------------------------------------------------

/// Canonical ID derived from a resolved profile (BLAKE3 digest over canonical CBOR).
#[derive(Clone, Copy, PartialEq, Eq, Hash, Default, Debug)]
pub struct I18nId([u8; 16]);

impl View for I18nId {
    type V = Seq<u8>;

    closed spec fn view(&self) -> Seq<u8> {
        self.0@
    }
}

/// `i18n:v1:`
pub open spec fn id_prefix() -> Seq<char> {
    "i18n:v1:"@
}

/// The text form of an identifier.
pub open spec fn id_text(bytes: Seq<u8>) -> Seq<char> {
    id_prefix() + base32_nopad_encode(bytes)
}

/// The identifier of a profile: the first 16 bytes of the BLAKE3 digest of
/// its canonical encoding.
pub open spec fn profile_id_bytes(p: ProfileModel) -> Seq<u8> {
    blake3_digest(canonical_profile_bytes(p)).take(16)
}

/// What `I18nId::parse` makes of a text.
pub enum IdParse {
    /// Parsed, with these 16 bytes.
    Parsed(Seq<u8>),
    /// Rejected as `InvalidId`.
    Invalid,
    /// Rejected as `DecodeId`.
    Undecodable,
}

/// The base32 part of an identifier text, upper-cased.
pub open spec fn id_payload(input: Seq<char>) -> Seq<char> {
    upper_seq(input.skip(id_prefix().len() as int))
}

pub open spec fn parse_id_spec(input: Seq<char>) -> IdParse {
    if !starts_with(input, id_prefix()) {
        IdParse::Invalid
    } else {
        match base32_nopad_decode(encode_utf8(id_payload(input))) {
            None => IdParse::Undecodable,
            Some(data) => if data.len() < 16 {
                IdParse::Invalid
            } else {
                IdParse::Parsed(data.take(16))
            },
        }
    }
}

proof fn lemma_encode_utf8_len_drop_first(s: Seq<char>)
    requires
        s.len() > 0,
    ensures
        encode_utf8(s.drop_first()).len() <= encode_utf8(s).len(),
{
}

proof fn lemma_encode_utf8_len_skip(s: Seq<char>, n: int)
    requires
        0 <= n <= s.len(),
    ensures
        encode_utf8(s.skip(n)).len() <= encode_utf8(s).len(),
    decreases n,
{
    if n > 0 {
        lemma_encode_utf8_len_skip(s.drop_first(), n - 1);
        assert(s.drop_first().skip(n - 1) == s.skip(n));
        lemma_encode_utf8_len_drop_first(s);
    } else {
        assert(s.skip(0) =~= s);
    }
}

proof fn lemma_encode_utf8_upper_len(s: Seq<char>)
    ensures
        encode_utf8(upper_seq(s)).len() == encode_utf8(s).len(),
    decreases s.len(),
{
    if s.len() > 0 {
        lemma_encode_utf8_upper_len(s.drop_first());
        assert(upper_seq(s).drop_first() =~= upper_seq(s.drop_first()));
        let c = s[0];
        let u = ascii_upper(c);
        vstd::utf8::char_is_scalar(c);
        vstd::utf8::char_is_scalar(u);
        assert(encode_utf8(upper_seq(s)) == vstd::utf8::encode_scalar(u as u32) + encode_utf8(
            upper_seq(s).drop_first(),
        ));
    }
}

proof fn lemma_ascii_upper_of_symbols(s: Seq<char>)
    requires
        forall|i: int| 0 <= i < s.len() ==> is_base32_symbol(#[trigger] s[i]),
    ensures
        upper_seq(s) == s,
{
    assert(upper_seq(s) =~= s);
}

impl I18nId {
    pub fn zero() -> (id: Self)
        ensures
            id@ == Seq::new(16, |i: int| 0u8),
    {
        let id = I18nId([0u8; 16]);
        assert(id@ =~= Seq::new(16, |i: int| 0u8));
        id
    }

    pub fn version(&self) -> (v: &'static str)
        ensures
            v@ == "v1"@,
    {
        "v1"
    }

    pub fn bytes(&self) -> (b: [u8; 16])
        ensures
            b@ == self@,
    {
        self.0
    }

    /// `i18n:v1:` followed by the unpadded base32 form of the 16 bytes;
    /// parsing the text gives the same identifier back.
    pub fn as_str(&self) -> (s: String)
        ensures
            s@ == id_text(self@),
            parse_id_spec(s@) == IdParse::Parsed(self@),
    {
        let mut s = "i18n:v1:".to_string();
        let encoded = base32_encode(&self.0);
        s.append(encoded.as_str());
        proof {
            reveal_strlit("i18n:v1:");
            let text = s@;
            assert(text.take(8) =~= id_prefix());
            assert(text.skip(8) =~= encoded@);
            lemma_ascii_upper_of_symbols(encoded@);
            assert(self.0@.len() == 16);
            assert(self.0@.take(16) =~= self.0@);
        }
        s
    }

    /// The identifier of a profile: BLAKE3 over its canonical CBOR, first 16 bytes.
    pub fn from_profile(profile: &I18nProfile) -> (id: Self)
        ensures
            id@ == profile_id_bytes(profile.model()),
    {
        let canonical = encode_canonical_profile(profile);
        let digest = blake3_hash(canonical.as_slice());
        Self::from_digest(&digest)
    }

    fn from_digest(digest: &[u8; 32]) -> (id: Self)
        ensures
            id@ == digest@.take(16),
    {
        let mut bytes = [0u8; 16];
        let mut i: usize = 0;
        while i < 16
            invariant
                i <= 16,
                digest@.len() == 32,
                bytes@.len() == 16,
                forall|j: int| 0 <= j < i ==> bytes@[j] == digest@[j],
            decreases 16 - i,
        {
            bytes[i] = digest[i];
            i = i + 1;
        }
        let id = I18nId(bytes);
        assert(id@ =~= digest@.take(16));
        id
    }

    /// Parses `i18n:v1:<base32>` (the base32 part in either case); at least
    /// 16 decoded bytes are needed, the first 16 are kept.
    pub fn parse(input: &str) -> (r: Result<Self, I18nError>)
        requires
            encode_utf8(input@).len() <= usize::MAX / 8,
        ensures
            match parse_id_spec(input@) {
                IdParse::Parsed(bytes) => r matches Ok(id) && id@ == bytes,
                IdParse::Invalid => r matches Err(I18nError::InvalidId(s)) && s@ == input@,
                IdParse::Undecodable => r matches Err(I18nError::DecodeId(_)),
            },
    {
        let chars = chars_of(input);
        let prefix = chars_of("i18n:v1:");
        if !seq_starts_with(&chars, &prefix) {
            return Err(I18nError::InvalidId(input.to_string()));
        }
        proof {
            reveal_strlit("i18n:v1:");
        }
        let mut encoded = String::new();
        let mut i: usize = prefix.len();
        while i < chars.len()
            invariant
                8 <= i <= chars.len(),
                prefix@ == id_prefix(),
                encoded@ == upper_seq(chars@.subrange(8, i as int)),
            decreases chars.len() - i,
        {
            string_push(&mut encoded, to_ascii_upper(chars[i]));
            i = i + 1;
            assert(encoded@ =~= upper_seq(chars@.subrange(8, i as int)));
        }
        assert(chars@.subrange(8, chars@.len() as int) =~= input@.skip(8));
        assert(encoded@ == id_payload(input@));
        let bytes = encoded.as_str().as_bytes();
        proof {
            lemma_encode_utf8_upper_len(input@.skip(8));
            lemma_encode_utf8_len_skip(input@, 8);
        }
        let data = match base32_decode(bytes) {
            Ok(data) => data,
            Err(e) => return Err(I18nError::DecodeId(e)),
        };
        if data.len() < 16 {
            return Err(I18nError::InvalidId(input.to_string()));
        }
        let mut out = [0u8; 16];
        let mut k: usize = 0;
        while k < 16
            invariant
                k <= 16,
                data@.len() >= 16,
                out@.len() == 16,
                forall|j: int| 0 <= j < k ==> out@[j] == data@[j],
            decreases 16 - k,
        {
            out[k] = data[k];
            k = k + 1;
        }
        let id = I18nId(out);
        assert(id@ =~= data@.take(16));
        Ok(id)
    }
}

} // verus!
