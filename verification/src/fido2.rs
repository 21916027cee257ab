//! Signing in with a FIDO2 security key: what is asked of the key, and the
//! token that is made of its answer. Talking to the key is left to the
//! caller; everything that is decided before and after stands here.

use crate::encoding::{base64url, base64url_decode, base64url_decoded, base64url_encode};
use vstd::prelude::*;
use vstd::string::StringExecFns;
use vstd::utf8::encode_utf8;

verus! {

/// Why no token was made.
#[derive(Clone, Copy, Debug, PartialEq, Eq, Structural)]
pub enum Fido2ClientError {
    WrongPin,
    NoCredentials,
    NoDevice,
    InvalidInput,
    AssertionError,
}

/// What is asked of the security key.
#[derive(Debug)]
pub struct AssertionRequest {
    pub rpid: String,
    pub client_data: String,
    /// The key's PIN. With a PIN the key picks the credential itself.
    pub pin: Option<String>,
    /// Without a PIN, the credentials that the key may answer for.
    pub credential_ids: Vec<Vec<u8>>,
}

/// One answer of the security key.
#[derive(Debug)]
pub struct Assertion {
    pub credential_id: Vec<u8>,
    pub auth_data: Vec<u8>,
    pub signature: Vec<u8>,
}

/// What the relying party's extensions said.
#[derive(Debug)]
pub struct WebauthnExtensions {
    pub appid: Option<bool>,
}

/// The key's answer, each part as unpadded URL-safe base64.
#[derive(Debug)]
pub struct WebauthnResponseData {
    pub authenticator_data: String,
    pub client_data_json: String,
    pub signature: String,
}

/// The token that proves the second factor.
#[derive(Debug)]
pub struct TwoFactorAuthToken {
    pub id: String,
    pub raw_id: String,
    pub type_: String,
    pub extensions: WebauthnExtensions,
    pub response: WebauthnResponseData,
}

/// The client data that the key signs for `challenge` at the relying party `rpid`.
pub open spec fn client_data_of(challenge: Seq<char>, rpid: Seq<char>) -> Seq<char> {
    "{\"type\":\"webauthn.get\",\"challenge\":\""@ + challenge + "\",\"origin\":\"https://"@ + rpid
        + "\",\"crossOrigin\": true}"@
}

/// Whether the base64 text of `len` bytes can be held in memory.
pub open spec fn encodable(len: nat) -> bool {
    (len / 3) * 4 + 3 <= usize::MAX
}

/// The credential identities that `credentials` name, if every one of them
/// is unpadded URL-safe base64.
pub open spec fn decoded_all(credentials: Seq<String>) -> Option<Seq<Seq<u8>>> {
    if forall|i: int|
        0 <= i < credentials.len() ==> base64url_decoded(
            encode_utf8((#[trigger] credentials[i])@),
        ) is Some {
        Some(
            Seq::new(
                credentials.len(),
                |i: int| base64url_decoded(encode_utf8(credentials[i]@))->Some_0,
            ),
        )
    } else {
        None
    }
}

/// The credential identities of a request as plain values.
pub open spec fn identities(ids: Seq<Vec<u8>>) -> Seq<Seq<u8>> {
    Seq::new(ids.len(), |i: int| ids[i]@)
}

/// Whether a token can be made of `assertion`.
pub open spec fn presentable(assertion: Assertion, client_data: Seq<char>) -> bool {
    &&& encodable(assertion.credential_id@.len())
    &&& encodable(assertion.auth_data@.len())
    &&& encodable(assertion.signature@.len())
    &&& encodable(encode_utf8(client_data).len())
}

/// The client data that the key signs for `challenge` at the relying party `rpid`.
pub fn client_data(challenge: &str, rpid: &str) -> (text: String)
    ensures
        text@ == client_data_of(challenge@, rpid@),
{
    let mut text = String::from_str("{\"type\":\"webauthn.get\",\"challenge\":\"");
    text.append(challenge);
    text.append("\",\"origin\":\"https://");
    text.append(rpid);
    text.append("\",\"crossOrigin\": true}");
    text
}

/// Decodes the credential identities that the caller named.
pub fn decode_credentials(credentials: &Vec<String>) -> (ids: Result<
    Vec<Vec<u8>>,
    Fido2ClientError,
>)
    ensures
        ids is Ok <==> decoded_all(credentials@) is Some,
        ids is Ok ==> identities(ids->Ok_0@) == decoded_all(credentials@)->Some_0,
        ids is Err ==> ids->Err_0 == Fido2ClientError::InvalidInput,
{
    let n: usize = credentials.len();
    let mut ids: Vec<Vec<u8>> = Vec::new();
    let mut i: usize = 0;
    while i < n
        invariant
            i <= n,
            n == credentials@.len(),
            ids@.len() == i,
            forall|k: int|
                0 <= k < i ==> base64url_decoded(encode_utf8((#[trigger] credentials@[k])@))
                    == Some(ids@[k]@),
        decreases n - i,
    {
        match base64url_decode(credentials[i].as_str().as_bytes()) {
            Some(id) => {
                ids.push(id);
            },
            None => {
                return Err(Fido2ClientError::InvalidInput);
            },
        }
        i += 1;
    }
    proof {
        assert(identities(ids@) =~= decoded_all(credentials@)->Some_0);
    }
    Ok(ids)
}

/// What to ask of the security key. With a PIN the named credentials are
/// not looked at; without one, every one of them must decode.
pub fn assertion_request(
    challenge: &str,
    credentials: &Vec<String>,
    rpid: &str,
    pin: Option<String>,
) -> (request: Result<AssertionRequest, Fido2ClientError>)
    ensures
        request is Ok <==> pin is Some || decoded_all(credentials@) is Some,
        request is Err ==> request->Err_0 == Fido2ClientError::InvalidInput,
        request is Ok ==> {
            &&& request->Ok_0.rpid@ == rpid@
            &&& request->Ok_0.client_data@ == client_data_of(challenge@, rpid@)
            &&& request->Ok_0.pin == pin
            &&& pin is Some ==> request->Ok_0.credential_ids@.len() == 0
            &&& pin is None ==> identities(request->Ok_0.credential_ids@) == decoded_all(
                credentials@,
            )->Some_0
        },
{
    let client_data = client_data(challenge, rpid);
    let credential_ids = if pin.is_some() {
        Vec::new()
    } else {
        match decode_credentials(credentials) {
            Ok(ids) => ids,
            Err(error) => {
                return Err(error);
            },
        }
    };
    Ok(AssertionRequest { rpid: String::from_str(rpid), client_data, pin, credential_ids })
}

/// The base64 text of `data`, where it can be held in memory.
fn encode_part(data: &[u8]) -> (text: Option<String>)
    ensures
        text is Some <==> encodable(data@.len()),
        text is Some ==> text->Some_0@ == base64url(data@),
{
    if data.len() / 3 > (usize::MAX - 3) / 4 {
        None
    } else {
        Some(base64url_encode(data))
    }
}

/// The token for the first of the key's answers to a request with the
/// client data `client_data`. A key that gave an error has no credential
/// for the relying party; a key that gave no answer, or one that cannot be
/// encoded, leaves no token.
pub fn assertion_token(client_data: &str, outcome: Option<Vec<Assertion>>) -> (token: Result<
    TwoFactorAuthToken,
    Fido2ClientError,
>)
    ensures
        token is Ok <==> outcome is Some && outcome->Some_0@.len() > 0 && presentable(
            outcome->Some_0@[0],
            client_data@,
        ),
        outcome is None ==> token == Err::<TwoFactorAuthToken, Fido2ClientError>(
            Fido2ClientError::NoCredentials,
        ),
        outcome is Some && token is Err ==> token->Err_0 == Fido2ClientError::AssertionError,
        token is Ok ==> {
            let first = outcome->Some_0@[0];
            &&& token->Ok_0.id@ == base64url(first.credential_id@)
            &&& token->Ok_0.raw_id@ == base64url(first.credential_id@)
            &&& token->Ok_0.type_@ == "public-key"@
            &&& token->Ok_0.extensions.appid == Some(false)
            &&& token->Ok_0.response.authenticator_data@ == base64url(first.auth_data@)
            &&& token->Ok_0.response.client_data_json@ == base64url(encode_utf8(client_data@))
            &&& token->Ok_0.response.signature@ == base64url(first.signature@)
        },
{
    let assertions = match outcome {
        Some(assertions) => assertions,
        None => {
            return Err(Fido2ClientError::NoCredentials);
        },
    };
    if assertions.len() == 0 {
        return Err(Fido2ClientError::AssertionError);
    }
    let first = &assertions[0];
    let id = encode_part(first.credential_id.as_slice());
    let raw_id = encode_part(first.credential_id.as_slice());
    let authenticator_data = encode_part(first.auth_data.as_slice());
    let client_data_json = encode_part(client_data.as_bytes());
    let signature = encode_part(first.signature.as_slice());
    match (id, raw_id, authenticator_data, client_data_json, signature) {
        (
            Some(id),
            Some(raw_id),
            Some(authenticator_data),
            Some(client_data_json),
            Some(signature),
        ) => Ok(
            TwoFactorAuthToken {
                id,
                raw_id,
                type_: String::from_str("public-key"),
                extensions: WebauthnExtensions { appid: Some(false) },
                response: WebauthnResponseData { authenticator_data, client_data_json, signature },
            },
        ),
        _ => Err(Fido2ClientError::AssertionError),
    }
}

} // verus!
