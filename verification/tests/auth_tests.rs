use aruna_proxy::auth::{
    get_token_from_md, key_id_from_kid, token_from_header, token_key_id, Action, ArunaTokenClaims,
    AuthError, AuthHandler, Intent, IntentError,
};
use aruna_proxy::cache::Cache;
use std::sync::{Arc, RwLock};
use tonic::metadata::MetadataMap;

const ULID_TEXT: &str = "01ARZ3NDEKTSV4RRFFQ69G5FAV";
const ULID_VALUE: u128 = 0x01563e3ab5d3d6764c61efb99302bd5b;

#[test]
fn action_numbers() {
    assert_eq!(Action::All.as_u8(), 0);
    assert_eq!(Action::Notifications.as_u8(), 1);
    assert_eq!(Action::CreateSecrets.as_u8(), 2);
    assert_eq!(Action::from(0), Action::All);
    assert_eq!(Action::from(1), Action::Notifications);
    assert_eq!(Action::from(2), Action::CreateSecrets);
    for code in 0u8..=2 {
        assert_eq!(Action::from(code).as_u8(), code);
    }
}

#[test]
fn intent_serializes_as_ulid_and_number() {
    let intent = Intent { target: ULID_VALUE, action: Action::CreateSecrets };
    assert_eq!(intent.serialize(), format!("{}_2", ULID_TEXT));
    let zero = Intent { target: 0, action: Action::All };
    assert_eq!(zero.serialize(), "00000000000000000000000000_0");
    let max = Intent { target: u128::MAX, action: Action::Notifications };
    assert_eq!(max.serialize(), "7ZZZZZZZZZZZZZZZZZZZZZZZZZ_1");
}

#[test]
fn intent_round_trip() {
    for target in [0u128, 1, ULID_VALUE, u128::MAX, 0xdead_beef] {
        for action in [Action::All, Action::Notifications, Action::CreateSecrets] {
            let intent = Intent { target, action };
            let text = intent.serialize();
            assert!(Intent::readable(&text));
            assert_eq!(Intent::deserialize(&text), Ok(intent));
        }
    }
}

#[test]
fn intent_reading_accepts_lower_case_and_aliases() {
    let text = "01arz3ndektsv4rrffq69g5fav_1";
    assert_eq!(
        Intent::deserialize(text),
        Ok(Intent { target: ULID_VALUE, action: Action::Notifications })
    );
    // `O` reads as 0 and `I`, `L` as 1.
    let aliased = "OOOOOOOOOOOOOOOOOOOOOOOOOI_0";
    assert_eq!(Intent::deserialize(aliased), Ok(Intent { target: 1, action: Action::All }));
    // Fields after the second separator are ignored.
    let extra = format!("{}_2_whatever", ULID_TEXT);
    assert_eq!(
        Intent::deserialize(&extra),
        Ok(Intent { target: ULID_VALUE, action: Action::CreateSecrets })
    );
    // A `+` sign is accepted before the action number.
    let plus = format!("{}_+2", ULID_TEXT);
    assert_eq!(
        Intent::deserialize(&plus),
        Ok(Intent { target: ULID_VALUE, action: Action::CreateSecrets })
    );
}

#[test]
fn intent_reading_errors() {
    assert_eq!(Intent::deserialize("not-a-ulid_1"), Err(IntentError::InvalidUuid));
    assert_eq!(Intent::deserialize("80000000000000000000000000_1"), Err(IntentError::InvalidUuid));
    assert_eq!(Intent::deserialize("0000000000000000000000000U_1"), Err(IntentError::InvalidUuid));
    let bad_action = format!("{}_x", ULID_TEXT);
    assert_eq!(Intent::deserialize(&bad_action), Err(IntentError::InvalidAction));
    let empty_action = format!("{}_", ULID_TEXT);
    assert_eq!(Intent::deserialize(&empty_action), Err(IntentError::InvalidAction));
    let big_action = format!("{}_256", ULID_TEXT);
    assert_eq!(Intent::deserialize(&big_action), Err(IntentError::InvalidAction));
    // An invalid identifier is reported before the action is looked at.
    assert!(Intent::readable("bad_7"));
    assert_eq!(Intent::deserialize("bad_7"), Err(IntentError::InvalidUuid));
}

#[test]
fn intent_texts_without_separator() {
    // Without `_` the whole text is the identifier's field.
    assert!(Intent::readable("no separator"));
    assert_eq!(Intent::deserialize("no separator"), Err(IntentError::InvalidUuid));
}

#[test]
fn intent_texts_that_cannot_be_read() {
    assert!(!Intent::readable(ULID_TEXT));
    assert!(!Intent::readable(&format!("{}_3", ULID_TEXT)));
    assert!(!Intent::readable(&format!("{}_255", ULID_TEXT)));
    assert!(Intent::readable(&format!("{}_2", ULID_TEXT)));
}

#[test]
fn bearer_header_values() {
    assert_eq!(token_from_header("Bearer abc.def.ghi"), Ok("abc.def.ghi".to_string()));
    assert_eq!(token_from_header("Bearer "), Err(AuthError::AuthorizationFlow));
    assert_eq!(token_from_header("Bearer"), Err(AuthError::AuthorizationFlow));
    assert_eq!(token_from_header("Basic abc"), Err(AuthError::AuthorizationFlow));
    assert_eq!(token_from_header("bearer abc"), Err(AuthError::AuthorizationFlow));
    assert_eq!(token_from_header("Bearer a b"), Err(AuthError::AuthorizationFlow));
    assert_eq!(token_from_header(" Bearer abc"), Err(AuthError::AuthorizationFlow));
    assert_eq!(token_from_header("Bearer  abc"), Err(AuthError::AuthorizationFlow));
}

#[test]
fn token_from_metadata() {
    let mut md = MetadataMap::new();
    assert_eq!(get_token_from_md(&md), Err(AuthError::TokenNotFound));
    md.insert("authorization", "Bearer my.token.value".parse().unwrap());
    assert_eq!(get_token_from_md(&md), Ok("my.token.value".to_string()));

    let mut wrong = MetadataMap::new();
    wrong.insert("authorization", "Token xyz".parse().unwrap());
    assert_eq!(get_token_from_md(&wrong), Err(AuthError::AuthorizationFlow));

    let mut first_wins = MetadataMap::new();
    first_wins.append("authorization", "Bearer first".parse().unwrap());
    first_wins.append("authorization", "Bearer second".parse().unwrap());
    assert_eq!(get_token_from_md(&first_wins), Ok("first".to_string()));

    let mut binary = MetadataMap::new();
    binary.insert(
        "authorization",
        tonic::metadata::MetadataValue::try_from(&b"Bearer \xfa"[..]).unwrap(),
    );
    assert_eq!(get_token_from_md(&binary), Err(AuthError::TokenNotText));
}

#[test]
fn key_ids() {
    assert_eq!(key_id_from_kid(Some("7")), Ok(7));
    assert_eq!(key_id_from_kid(Some("-2147483648")), Ok(i32::MIN));
    assert_eq!(key_id_from_kid(Some("+2147483647")), Ok(i32::MAX));
    assert_eq!(key_id_from_kid(Some("2147483648")), Err(AuthError::InvalidKid));
    assert_eq!(key_id_from_kid(Some("abc")), Err(AuthError::InvalidKid));
    assert_eq!(key_id_from_kid(Some("")), Err(AuthError::InvalidKid));
    assert_eq!(key_id_from_kid(None), Err(AuthError::UnspecifiedKid));
}

#[test]
fn key_id_of_token() {
    let with_kid = "eyJhbGciOiJFZERTQSIsInR5cCI6IkpXVCIsImtpZCI6IjcifQ.e30.c2ln";
    assert_eq!(token_key_id(with_kid), Ok(7));
    let without_kid = "eyJhbGciOiJFZERTQSIsInR5cCI6IkpXVCJ9.e30.c2ln";
    assert_eq!(token_key_id(without_kid), Err(AuthError::UnspecifiedKid));
    let text_kid = "eyJhbGciOiJFZERTQSIsInR5cCI6IkpXVCIsImtpZCI6ImFiYyJ9.e30.c2ln";
    assert_eq!(token_key_id(text_kid), Err(AuthError::InvalidKid));
    assert_eq!(token_key_id("not a token"), Err(AuthError::InvalidHeader));
}

fn claims(sub: &str, it: Option<Intent>) -> ArunaTokenClaims {
    ArunaTokenClaims {
        iss: "aruna".to_string(),
        sub: sub.to_string(),
        exp: 1_700_000_000,
        tid: Some("token-1".to_string()),
        it,
    }
}

#[test]
fn claims_permit_secrets_on_this_proxy_only() {
    let cache = Arc::new(RwLock::new(Cache::new()));
    let handler = AuthHandler::new(cache, 42);
    assert_eq!(handler.self_id, 42);
    let granted = claims(ULID_TEXT, Some(Intent { target: 42, action: Action::CreateSecrets }));
    assert_eq!(handler.check_claims(granted), Ok((ULID_VALUE, Some("token-1".to_string()))));

    let other_proxy = claims(ULID_TEXT, Some(Intent { target: 43, action: Action::CreateSecrets }));
    assert_eq!(handler.check_claims(other_proxy), Err(AuthError::InvalidPermissions));
    let other_action = claims(ULID_TEXT, Some(Intent { target: 42, action: Action::All }));
    assert_eq!(handler.check_claims(other_action), Err(AuthError::InvalidPermissions));
    let no_intent = claims(ULID_TEXT, None);
    assert_eq!(handler.check_claims(no_intent), Err(AuthError::InvalidPermissions));
    let bad_subject = claims("someone", Some(Intent { target: 42, action: Action::CreateSecrets }));
    assert_eq!(handler.check_claims(bad_subject), Err(AuthError::InvalidSubject));
}

const PEM: &str = "-----BEGIN PUBLIC KEY-----\nMCowBQYDK2VwAyEA0a3VV/CjQfeuD4Q3bsV6OzM+CZlD/ay3TKPPTNF0YCM=\n-----END PUBLIC KEY-----\n";

#[test]
fn cache_lookup() {
    let mut cache = Cache::new();
    assert!(matches!(cache.get_pubkey(1), Err(AuthError::UnknownKey)));
    cache.pubkeys.push((1, PEM.to_string()));
    cache.pubkeys.push((2, "not a key".to_string()));
    cache.pubkeys.push((1, "shadowed".to_string()));
    match cache.get_pubkey(1) {
        Ok((pem, _key)) => assert_eq!(pem, PEM),
        Err(e) => panic!("expected the first key, got {:?}", e),
    }
    assert!(matches!(cache.get_pubkey(2), Err(AuthError::InvalidKey)));
    assert!(matches!(cache.get_pubkey(3), Err(AuthError::UnknownKey)));
}
