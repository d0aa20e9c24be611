//! Token claims, intents and permission checks.
//!
//! A token's intent names the endpoint it was issued for and the action it
//! permits, written as `<endpoint-ulid>_<action number>`. The data proxy
//! honours a token only when its intent is to create secrets on this very
//! proxy.
use crate::cache::Cache;
use crate::decimal::{
    decimal, decimal_string, is_digit, lemma_decimal_denotes, lemma_parse_u8_decimal, parse_i32,
    parse_i32_spec, parse_u8, parse_u8_spec,
};
use crate::ids::{
    crockford_decode, crockford_encode, lemma_crockford_round_trip, ulid_from_str, ulid_to_string,
};
use crate::text::{
    ascii_chars, find_char, first_pos, header_text, is_visible_ascii, lemma_first_pos,
    lemma_first_pos_found,
};
use std::sync::{Arc, RwLock};
use vstd::prelude::*;

verus! {

/// What a token permits its holder to do.
#[non_exhaustive]
#[derive(Debug, Clone, Copy, PartialEq, Eq, Structural, PartialOrd, Ord)]
pub enum Action {
    All,
    Notifications,
    CreateSecrets,
}

/// The action that a number stands for; only `0`, `1` and `2` stand for
/// one.
pub open spec fn action_of_code(code: nat) -> Option<Action> {
    if code == 0 {
        Some(Action::All)
    } else if code == 1 {
        Some(Action::Notifications)
    } else if code == 2 {
        Some(Action::CreateSecrets)
    } else {
        None
    }
}

impl Action {
    /// The number that stands for the action in an intent.
    pub open spec fn spec_code(self) -> nat {
        match self {
            Action::All => 0,
            Action::Notifications => 1,
            Action::CreateSecrets => 2,
        }
    }

    /// The number that stands for the action in an intent.
    pub fn as_u8(&self) -> (res: u8)
        ensures
            res == self.spec_code(),
    {
        match self {
            Action::All => 0,
            Action::Notifications => 1,
            Action::CreateSecrets => 2,
        }
    }

    /// The action that a number stands for; only `0`, `1` and `2` stand for
    /// one.
    pub fn from(input: u8) -> (res: Action)
        requires
            input <= 2,
        ensures
            action_of_code(input as nat) == Some(res),
            res.spec_code() == input,
    {
        if input == 0 {
            Action::All
        } else if input == 1 {
            Action::Notifications
        } else {
            Action::CreateSecrets
        }
    }
}

/// Reading the number of an action gives the action back, and the number of
/// the action that a number stands for is that number.
pub proof fn lemma_action_code_round_trip(a: Action, code: nat)
    ensures
        action_of_code(a.spec_code()) == Some(a),
        code <= 2 ==> (action_of_code(code) matches Some(b) && b.spec_code() == code),
        code > 2 ==> action_of_code(code) is None,
{
}

/// The endpoint a token was issued for and the action it permits.
#[derive(Debug, Clone, Copy, PartialEq, Eq, Structural)]
pub struct Intent {
    pub target: u128,
    pub action: Action,
}

/// Why the text of an intent could not be read.
#[derive(Debug, Clone, Copy, PartialEq, Eq, Structural)]
pub enum IntentError {
    /// The part before the first `_` is not the text of an identifier.
    InvalidUuid,
    /// The part after it is not a number from 0 to 255.
    InvalidAction,
}

/// The text of an intent: the endpoint's identifier, `_`, and the number of
/// the action.
pub open spec fn intent_text(intent: Intent) -> Seq<char> {
    crockford_encode(intent.target) + seq!['_'] + decimal(intent.action.spec_code())
}

/// The first two `_`-separated fields of a text: what stands before the
/// first `_`, and what stands between it and the next `_` (or the end).
pub open spec fn intent_fields(s: Seq<char>) -> (Seq<char>, Seq<char>) {
    let p = first_pos(s, '_');
    let rest = if p < s.len() { s.skip(p + 1) } else { Seq::empty() };
    (s.take(p), rest.take(first_pos(rest, '_')))
}

/// What reading an intent from a text gives, or `None` where reading fails
/// hard: the first field names a valid identifier, and the text holds no `_`
/// or carries an action number above 2.
pub open spec fn intent_from_text(s: Seq<char>) -> Option<Result<Intent, IntentError>> {
    let (id, action) = intent_fields(s);
    match crockford_decode(id) {
        None => Some(Err(IntentError::InvalidUuid)),
        Some(target) => if first_pos(s, '_') >= s.len() {
            None
        } else {
            match parse_u8_spec(action) {
                None => Some(Err(IntentError::InvalidAction)),
                Some(code) => match action_of_code(code as nat) {
                    Some(a) => Some(Ok(Intent { target, action: a })),
                    None => None,
                },
            }
        },
    }
}

/// The texts that an intent can be read from without failing hard.
pub open spec fn intent_readable(s: Seq<char>) -> bool {
    intent_from_text(s) is Some
}

/// Reading the text that `serialize` writes gives the intent back.
pub proof fn lemma_intent_round_trip(intent: Intent)
    ensures
        intent_readable(intent_text(intent)),
        intent_from_text(intent_text(intent)) == Some(Ok::<Intent, IntentError>(intent)),
{
    let e = crockford_encode(intent.target);
    let code = intent.action.spec_code();
    let d = decimal(code);
    let s = intent_text(intent);
    lemma_crockford_round_trip(intent.target);
    lemma_decimal_denotes(code);
    lemma_parse_u8_decimal(code as u8);
    lemma_action_code_round_trip(intent.action, code);
    assert forall|i: int| 0 <= i < 26 implies s[i] != '_' by {
        assert(s[i] == e[i]);
    }
    lemma_first_pos(s, '_', 26);
    let rest = s.skip(27);
    assert(rest =~= d);
    assert forall|i: int| 0 <= i < d.len() implies d[i] != '_' by {
        assert(is_digit(d[i]));
    }
    lemma_first_pos(d, '_', d.len() as int);
    assert(d.take(d.len() as int) =~= d);
    assert(s.take(26) =~= e);
}

impl Intent {
    /// The text of the intent, `<endpoint-ulid>_<action number>`.
    pub fn serialize(&self) -> (res: String)
        ensures
            res@ == intent_text(*self),
    {
        let mut text = ulid_to_string(self.target);
        text.append("_");
        let code = decimal_string(self.action.as_u8() as u64);
        text.append(code.as_str());
        proof {
            reveal_strlit("_");
            assert(text@ =~= intent_text(*self));
        }
        text
    }

    /// Whether `text` is one that `deserialize` accepts (see
    /// `intent_readable`).
    pub fn readable(text: &str) -> (res: bool)
        ensures
            res == intent_readable(text@),
    {
        let (id, action) = Self::fields(text);
        match ulid_from_str(id) {
            Err(_) => true,
            Ok(_) => {
                let p = find_char(text, '_');
                if p >= text.unicode_len() {
                    return false;
                }
                match parse_u8(action) {
                    Some(v) => v <= 2,
                    None => true,
                }
            },
        }
    }

    fn fields(text: &str) -> (res: (&str, &str))
        ensures
            res.0@ == intent_fields(text@).0,
            res.1@ == intent_fields(text@).1,
    {
        let len = text.unicode_len();
        let p = find_char(text, '_');
        let id = text.substring_char(0, p);
        let rest = if p < len {
            text.substring_char(p + 1, len)
        } else {
            text.substring_char(len, len)
        };
        proof {
            if p < len {
                assert(rest@ =~= text@.skip(p + 1));
            } else {
                assert(rest@ =~= Seq::<char>::empty());
            }
        }
        let q = find_char(rest, '_');
        let action = rest.substring_char(0, q);
        (id, action)
    }

    /// Reads an intent from its text. A text whose first field names a valid
    /// identifier must hold a `_` and must not carry an action number above 2
    /// (`intent_readable`); `readable` tells whether it does.
    pub fn deserialize(text: &str) -> (res: Result<Intent, IntentError>)
        requires
            intent_readable(text@),
        ensures
            intent_from_text(text@) == Some(res),
    {
        let (id, action) = Self::fields(text);
        let target = match ulid_from_str(id) {
            Ok(t) => t,
            Err(_) => return Err(IntentError::InvalidUuid),
        };
        let code = match parse_u8(action) {
            Some(c) => c,
            None => return Err(IntentError::InvalidAction),
        };
        Ok(Intent { target, action: Action::from(code) })
    }
}

/// The claims of an Aruna token.
pub struct ArunaTokenClaims {
    /// The issuer; currently always `aruna`.
    pub iss: String,
    /// The user or data proxy the token belongs to.
    pub sub: String,
    /// When the token expires.
    pub exp: usize,
    /// The token's id, where it has one.
    pub tid: Option<String>,
    /// What the token was issued for, where it says.
    pub it: Option<Intent>,
}

/// Why a request was not authorized.
#[derive(Debug, Clone, Copy, PartialEq, Eq, Structural)]
pub enum AuthError {
    /// The request's metadata has no `authorization` entry.
    TokenNotFound,
    /// The `authorization` entry is not visible ASCII text.
    TokenNotText,
    /// The `authorization` entry is not `Bearer <token>`.
    AuthorizationFlow,
    /// The token's header cannot be decoded.
    InvalidHeader,
    /// The token's header names no key.
    UnspecifiedKid,
    /// The key the header names is not a number.
    InvalidKid,
    /// No cached public key has the id that the header names.
    UnknownKey,
    /// The cached public key is not an EdDSA key in PEM form.
    InvalidKey,
    /// The token does not permit what is asked.
    InvalidPermissions,
    /// The token's subject is not an identifier.
    InvalidSubject,
}

/// `tonic::metadata::MetadataMap`, the metadata of a gRPC request.
#[verifier::external_type_specification]
#[verifier::external_body]
pub struct ExMetadataMap(tonic::metadata::MetadataMap);

/// The ASCII entries of a metadata map: for each key, in lower case, the
/// bytes of its values in the order they were added.
pub uninterp spec fn metadata_ascii_entries(md: tonic::metadata::MetadataMap) -> Map<
    Seq<char>,
    Seq<Seq<u8>>,
>;

/// The key under which a request carries its token.
pub open spec fn authorization_key() -> Seq<char> {
    seq!['a', 'u', 't', 'h', 'o', 'r', 'i', 'z', 'a', 't', 'i', 'o', 'n']
}

/// The bytes of the first `authorization` value in `md`, if any.
pub open spec fn authorization_value(md: tonic::metadata::MetadataMap) -> Option<Seq<u8>> {
    let entries = metadata_ascii_entries(md);
    if entries.dom().contains(authorization_key()) && entries[authorization_key()].len() > 0 {
        Some(entries[authorization_key()][0])
    } else {
        None
    }
}

/// `MetadataMap::get("Authorization")`, with the bytes of the value it
/// returns (`MetadataValue::as_bytes`). The contract claims that the lookup
/// ignores case and gives the first value stored under the key.
#[verifier::external_body]
fn metadata_authorization(md: &tonic::metadata::MetadataMap) -> (res: Option<Vec<u8>>)
    ensures
        res is Some <==> (metadata_ascii_entries(*md).dom().contains(authorization_key())
            && metadata_ascii_entries(*md)[authorization_key()].len() > 0),
        res matches Some(bytes) ==> bytes@ == metadata_ascii_entries(*md)[authorization_key()][0],
{
    match md.get("Authorization") {
        Some(value) => Some(value.as_bytes().to_vec()),
        None => None,
    }
}

/// The `Bearer ` that opens an `authorization` value.
pub open spec fn bearer_prefix() -> Seq<char> {
    seq!['B', 'e', 'a', 'r', 'e', 'r', ' ']
}

/// Whether an `authorization` value is `Bearer `, followed by a non-empty
/// token without spaces: split at each space it has exactly two parts, the
/// first `Bearer` and the second not empty.
pub open spec fn is_bearer(value: Seq<char>) -> bool {
    &&& value.len() > 7
    &&& value.take(7) == bearer_prefix()
    &&& forall|i: int| 7 <= i < value.len() ==> value[i] != ' '
}

/// What the token of a request is, given the bytes of its first
/// `authorization` value.
pub open spec fn token_from_value(value: Option<Seq<u8>>) -> Result<Seq<char>, AuthError> {
    match value {
        None => Err(AuthError::TokenNotFound),
        Some(bytes) => if forall|i: int| 0 <= i < bytes.len() ==> is_visible_ascii(#[trigger] bytes[i]) {
            let text = ascii_chars(bytes);
            if is_bearer(text) {
                Ok(text.skip(7))
            } else {
                Err(AuthError::AuthorizationFlow)
            }
        } else {
            Err(AuthError::TokenNotText)
        },
    }
}

/// `Bearer ` followed by a non-empty token without spaces is read back as
/// that token.
pub proof fn lemma_bearer_round_trip(token: Seq<char>)
    requires
        token.len() > 0,
        forall|i: int| 0 <= i < token.len() ==> token[i] != ' ',
    ensures
        is_bearer(bearer_prefix() + token),
        (bearer_prefix() + token).skip(7) == token,
{
    let v = bearer_prefix() + token;
    assert(v.take(7) =~= bearer_prefix());
    assert(v.skip(7) =~= token);
    assert forall|i: int| 7 <= i < v.len() implies v[i] != ' ' by {
        assert(v[i] == token[i - 7]);
    }
}

/// Whether a header value's bytes are `Bearer ` followed by a non-empty token
/// of visible ASCII without spaces.
pub open spec fn bearer_bytes_with_token(b: Seq<u8>) -> bool {
    &&& b.len() > 7
    &&& b.take(7) == seq![66u8, 101, 97, 114, 101, 114, 32]
    &&& forall|i: int| 7 <= i < b.len() ==> 32 < #[trigger] b[i] < 127
}

/// The first `authorization` value `Bearer <token>`, with a token of any
/// length of visible ASCII without spaces, gives that token.
pub proof fn lemma_token_from_bearer_value(b: Seq<u8>)
    requires
        bearer_bytes_with_token(b),
    ensures
        token_from_value(Some(b)) == Ok::<Seq<char>, AuthError>(ascii_chars(b.skip(7))),
{
    assert forall|i: int| 0 <= i < b.len() implies is_visible_ascii(#[trigger] b[i]) by {
        if i < 7 {
            assert(b[i] == b.take(7)[i]);
        }
    }
    let text = ascii_chars(b);
    assert(text.take(7) =~= bearer_prefix()) by {
        assert forall|i: int| 0 <= i < 7 implies text.take(7)[i] == bearer_prefix()[i] by {
            assert(b[i] == b.take(7)[i]);
        }
    }
    assert forall|i: int| 7 <= i < text.len() implies text[i] != ' ' by {
        assert(text[i] == b[i] as char);
    }
    assert(text.skip(7) =~= ascii_chars(b.skip(7)));
}

/// A token is accepted on this proxy exactly when its intent is to create
/// secrets here, whatever its token id; it then gives the subject and the
/// token id.
pub proof fn lemma_claims_permission(self_id: u128, claims: ArunaTokenClaims)
    ensures
        claims.it == Some(Intent { target: self_id, action: Action::CreateSecrets })
            ==> (crockford_decode(claims.sub@) matches Some(sub) ==> claims_outcome(self_id, claims)
            == Ok::<(u128, Option<String>), AuthError>((sub, claims.tid))),
        claims.it != Some(Intent { target: self_id, action: Action::CreateSecrets })
            ==> claims_outcome(self_id, claims) == Err::<(u128, Option<String>), AuthError>(
            AuthError::InvalidPermissions,
        ),
{
}

/// The token of an `authorization` value `Bearer <token>`.
pub fn token_from_header(value: &str) -> (res: Result<String, AuthError>)
    ensures
        res is Ok <==> is_bearer(value@),
        res matches Ok(token) ==> token@ == value@.skip(7),
        res matches Err(e) ==> e == AuthError::AuthorizationFlow,
        (value@.len() > 7 && value@.take(7) == seq!['B', 'e', 'a', 'r', 'e', 'r', ' '] && forall|i: int|
            7 <= i < value@.len() ==> value@[i] != ' ') ==> (res matches Ok(token) && token@
            == value@.skip(7)),
{
    let len = value.unicode_len();
    if len <= 7 {
        return Err(AuthError::AuthorizationFlow);
    }
    let head = value.substring_char(0, 7);
    let mut i: usize = 0;
    let expected = "Bearer ";
    proof {
        reveal_strlit("Bearer ");
        assert(expected@ =~= bearer_prefix());
    }
    while i < 7
        invariant
            i <= 7,
            head@ == value@.take(7),
            value@.len() > 7,
            expected@ == bearer_prefix(),
            forall|j: int| 0 <= j < i ==> head@[j] == bearer_prefix()[j],
        decreases 7 - i,
    {
        if head.get_char(i) != expected.get_char(i) {
            return Err(AuthError::AuthorizationFlow);
        }
        i = i + 1;
    }
    proof {
        assert(head@ =~= bearer_prefix());
    }
    let token = value.substring_char(7, len);
    let space = find_char(token, ' ');
    if space < token.unicode_len() {
        proof {
            lemma_first_pos_found(token@, ' ');
            assert(value@[7 + space] == token@[space as int]);
        }
        return Err(AuthError::AuthorizationFlow);
    }
    proof {
        lemma_first_pos_found(token@, ' ');
        assert forall|k: int| 7 <= k < value@.len() implies value@[k] != ' ' by {
            assert(value@[k] == token@[k - 7]);
        }
    }
    Ok(token.to_owned())
}

/// The token that a gRPC request carries in its `authorization` metadata,
/// written `Bearer <token>`.
pub fn get_token_from_md(md: &tonic::metadata::MetadataMap) -> (res: Result<String, AuthError>)
    ensures
        res is Ok <==> token_from_value(authorization_value(*md)) is Ok,
        res matches Ok(token) ==> token_from_value(authorization_value(*md)) == Ok::<Seq<char>, AuthError>(token@),
        res matches Err(e) ==> token_from_value(authorization_value(*md)) == Err::<Seq<char>, AuthError>(e),
        ({
            let entries = metadata_ascii_entries(*md);
            let k = authorization_key();
            entries.dom().contains(k) && entries[k].len() > 0 && bearer_bytes_with_token(entries[k][0])
        }) ==> (res matches Ok(token) && token@ == ascii_chars(
            metadata_ascii_entries(*md)[authorization_key()][0].skip(7),
        )),
{
    proof {
        let entries = metadata_ascii_entries(*md);
        let k = authorization_key();
        if entries.dom().contains(k) && entries[k].len() > 0 && bearer_bytes_with_token(entries[k][0]) {
            lemma_token_from_bearer_value(entries[k][0]);
        }
    }
    let bytes = match metadata_authorization(md) {
        Some(b) => b,
        None => return Err(AuthError::TokenNotFound),
    };
    let text = match header_text(&bytes) {
        Some(t) => t,
        None => return Err(AuthError::TokenNotText),
    };
    token_from_header(text.as_str())
}

/// `jsonwebtoken::errors::Error`.
#[verifier::external_type_specification]
#[verifier::external_body]
pub struct ExJwtError(jsonwebtoken::errors::Error);


/// The `kid` of a token's header, where the header can be decoded.
pub uninterp spec fn jwt_header_kid(token: Seq<char>) -> Option<Option<Seq<char>>>;

/// The view of an optional string.
pub open spec fn opt_view(s: Option<String>) -> Option<Seq<char>> {
    match s {
        Some(t) => Some(t@),
        None => None,
    }
}

/// `jsonwebtoken::decode_header`, keeping the header's `kid`. The contract
/// only ties the result to the token through `jwt_header_kid`.
#[verifier::external_body]
fn decode_header_kid(token: &str) -> (res: Result<Option<String>, jsonwebtoken::errors::Error>)
    ensures
        res is Ok <==> jwt_header_kid(token@) is Some,
        res matches Ok(kid) ==> jwt_header_kid(token@) == Some(opt_view(kid)),
{
    match jsonwebtoken::decode_header(token) {
        Ok(header) => Ok(header.kid),
        Err(e) => Err(e),
    }
}

/// What the key id of a header's `kid` is: it must be there and be an `i32`.
pub open spec fn key_id_of(kid: Option<Seq<char>>) -> Result<i32, AuthError> {
    match kid {
        None => Err(AuthError::UnspecifiedKid),
        Some(k) => match parse_i32_spec(k) {
            Some(id) => Ok(id),
            None => Err(AuthError::InvalidKid),
        },
    }
}

/// The key id that a header's `kid` names.
pub fn key_id_from_kid(kid: Option<&str>) -> (res: Result<i32, AuthError>)
    ensures
        res == key_id_of(match kid { Some(k) => Some(k@), None => None }),
{
    match kid {
        None => Err(AuthError::UnspecifiedKid),
        Some(k) => match parse_i32(k) {
            Some(id) => Ok(id),
            None => Err(AuthError::InvalidKid),
        },
    }
}

/// The id of the key that a token says it was signed with.
pub fn token_key_id(token: &str) -> (res: Result<i32, AuthError>)
    ensures
        res == (match jwt_header_kid(token@) {
            None => Err(AuthError::InvalidHeader),
            Some(kid) => key_id_of(kid),
        }),
{
    match decode_header_kid(token) {
        Err(_) => Err(AuthError::InvalidHeader),
        Ok(kid) => match kid {
            Some(k) => key_id_from_kid(Some(k.as_str())),
            None => key_id_from_kid(None),
        },
    }
}

/// Checks tokens for this data proxy.
pub struct AuthHandler {
    /// The cached public keys.
    pub cache: Arc<RwLock<Cache>>,
    /// This proxy's own identifier.
    pub self_id: u128,
}

/// Whether a token's claims permit creating secrets on the proxy `self_id`.
pub open spec fn permits_secrets(self_id: u128, claims: ArunaTokenClaims) -> bool {
    claims.it matches Some(it) && it.action == Action::CreateSecrets && it.target == self_id
}

/// What a token's claims are worth to the proxy `self_id`: the subject and
/// the token id, when the token permits creating secrets there.
pub open spec fn claims_outcome(self_id: u128, claims: ArunaTokenClaims) -> Result<
    (u128, Option<String>),
    AuthError,
> {
    if permits_secrets(self_id, claims) {
        match crockford_decode(claims.sub@) {
            Some(sub) => Ok((sub, claims.tid)),
            None => Err(AuthError::InvalidSubject),
        }
    } else {
        Err(AuthError::InvalidPermissions)
    }
}

impl AuthHandler {
    /// A handler over the given key cache for the proxy `self_id`.
    pub fn new(cache: Arc<RwLock<Cache>>, self_id: u128) -> (res: Self)
        ensures
            res.cache == cache,
            res.self_id == self_id,
    {
        Self { cache, self_id }
    }

    /// The subject and token id of verified claims, when they permit creating
    /// secrets on this proxy.
    pub fn check_claims(&self, claims: ArunaTokenClaims) -> (res: Result<(u128, Option<String>), AuthError>)
        ensures
            res == claims_outcome(self.self_id, claims),
            claims.it == Some(Intent { target: self.self_id, action: Action::CreateSecrets })
                ==> (crockford_decode(claims.sub@) matches Some(sub) ==> res == Ok::<
                (u128, Option<String>),
                AuthError,
            >((sub, claims.tid))),
            claims.it != Some(Intent { target: self.self_id, action: Action::CreateSecrets })
                ==> res == Err::<(u128, Option<String>), AuthError>(AuthError::InvalidPermissions),
    {
        let permitted = match &claims.it {
            Some(it) => it.action == Action::CreateSecrets && it.target == self.self_id,
            None => false,
        };
        if !permitted {
            return Err(AuthError::InvalidPermissions);
        }
        match ulid_from_str(claims.sub.as_str()) {
            Ok(sub) => Ok((sub, claims.tid)),
            Err(_) => Err(AuthError::InvalidSubject),
        }
    }
}

} // verus!
