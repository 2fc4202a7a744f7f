//! The API client and the TC3-HMAC-SHA256 request signing protocol.

use crate::text::{decimal, decimal_text, hex_encoding, hex_lower, push_decimal};
use hmac::Mac;
use sha2::Digest;
use vstd::prelude::*;
use vstd::string::*;
use vstd::utf8::encode_utf8;

verus! {

/// The SHA-256 digest of a byte sequence.
pub uninterp spec fn sha256_digest(data: Seq<u8>) -> Seq<u8>;

/// The HMAC-SHA256 authentication code of `data` under `key`.
pub uninterp spec fn hmac_sha256_tag(key: Seq<u8>, data: Seq<u8>) -> Seq<u8>;

/// The UTC calendar date of a Unix timestamp: year, month and day with
/// hyphens between them, as in `2019-02-25`.
pub uninterp spec fn utc_date_text(timestamp: int) -> Seq<char>;

/// The lowercase equivalent of a text, by the rules of Unicode.
pub uninterp spec fn lowercase_text(text: Seq<char>) -> Seq<char>;

/// The first second of the earliest year that has a calendar date.
pub const MIN_TIMESTAMP: i64 = -8_334_601_228_800;

/// The last second of the latest year that has a calendar date.
pub const MAX_TIMESTAMP: i64 = 8_210_266_876_799;

/// The value of the `Content-Type` header, as sent and as signed.
pub const CONTENT_TYPE: &'static str = "application/json; charset=utf-8";

/// The names of the signed headers.
pub const SIGNED_HEADERS: &'static str = "content-type;host;x-tc-action";

/// The tag of the signing algorithm.
pub const ALGORITHM: &'static str = "TC3-HMAC-SHA256";

/// The word that ends a credential scope and the key derivation.
pub const SCOPE_END: &'static str = "tc3_request";

/// `str::to_lowercase` returns the lowercase equivalent of the text.
pub assume_specification[ str::to_lowercase ](text: &str) -> (lowered: String)
    ensures
        lowered@ == lowercase_text(text@),
;

/// `Sha256::digest` of the sha2 crate: the SHA-256 digest of `data`, which
/// has 32 bytes.
#[verifier::external_body]
fn sha256(data: &[u8]) -> (digest: Vec<u8>)
    ensures
        digest@ == sha256_digest(data@),
        digest@.len() == 32,
{
    sha2::Sha256::digest(data).to_vec()
}

/// `DateTime::from_timestamp` and `DateTime::format` of the chrono crate:
/// the UTC date of the timestamp in the form `%Y-%m-%d`. chrono has a date
/// for the years -262143 to 262142 and for no other.
#[verifier::external_body]
fn utc_date(timestamp: i64) -> (date: Option<String>)
    ensures
        date is Some <==> MIN_TIMESTAMP <= timestamp <= MAX_TIMESTAMP,
        date matches Some(text) ==> text@ == utc_date_text(timestamp as int),
{
    chrono::DateTime::from_timestamp(timestamp, 0).map(|date| date.format("%Y-%m-%d").to_string())
}

/// std's `SystemTime`: a reading of the system clock.
#[verifier::external_type_specification]
#[verifier::external_body]
pub struct ExSystemTime(std::time::SystemTime);

/// std's `SystemTimeError`: what `SystemTime::duration_since` gives
/// where the second reading is the later one.
#[verifier::external_type_specification]
#[verifier::external_body]
pub struct ExSystemTimeError(std::time::SystemTimeError);

/// `SystemTime::now` reads the system clock. Nothing is known of the
/// reading.
pub assume_specification[ std::time::SystemTime::now ]() -> (now: std::time::SystemTime)
;

/// `SystemTime::duration_since` gives the time from `earlier` to `time`,
/// or an error where `earlier` is the later one. It depends on the two
/// readings, of which nothing is known.
pub assume_specification[ std::time::SystemTime::duration_since ](
    time: &std::time::SystemTime,
    earlier: std::time::SystemTime,
) -> (elapsed: Result<std::time::Duration, std::time::SystemTimeError>)
;

/// `Duration::as_secs` gives the whole seconds of a duration. Nothing is
/// known of the duration.
pub assume_specification[ std::time::Duration::as_secs ](duration: &std::time::Duration) -> (seconds:
    u64)
;

/// std's `UNIX_EPOCH`: the reading of the clock at the start of 1970,
/// UTC.
#[verifier::external_body]
fn unix_epoch() -> (epoch: std::time::SystemTime) {
    std::time::UNIX_EPOCH
}

/// Reads the system clock: the whole seconds since the Unix epoch.
/// Gives nothing where the clock stands before the epoch, or where the
/// seconds are more than the type holds.
fn current_timestamp() -> (timestamp: Option<i64>)
    ensures
        timestamp matches Some(seconds) ==> seconds >= 0,
{
    let now = std::time::SystemTime::now();
    match now.duration_since(unix_epoch()) {
        Ok(elapsed) => {
            let seconds: u64 = elapsed.as_secs();
            if seconds <= 0x7fff_ffff_ffff_ffff {
                Some(seconds as i64)
            } else {
                None
            }
        },
        Err(_) => None,
    }
}

/// Why a request could not be signed.
#[derive(Debug, Clone, Copy, PartialEq, Eq, Structural)]
pub enum ClientError {
    /// The timestamp has no calendar date.
    TimestampOutOfRange,
    /// The system clock stands before the Unix epoch, or too far behind
    /// it to count the seconds.
    ClockUnreadable,
}

/// The credentials and the endpoint of one service of the provider.
#[derive(Debug)]
pub struct TencentCloudClient {
    secret_id: String,
    secret_key: String,
    service: String,
    host: String,
    region: String,
    token: String,
}

/// What a client holds, as plain text.
pub struct ClientView {
    pub secret_id: Seq<char>,
    pub secret_key: Seq<char>,
    pub service: Seq<char>,
    pub host: Seq<char>,
    pub region: Seq<char>,
    pub token: Seq<char>,
}

impl View for TencentCloudClient {
    type V = ClientView;

    closed spec fn view(&self) -> ClientView {
        ClientView {
            secret_id: self.secret_id@,
            secret_key: self.secret_key@,
            service: self.service@,
            host: self.host@,
            region: self.region@,
            token: self.token@,
        }
    }
}

/// An authenticated HTTP request, ready to be sent as it stands.
#[derive(Debug)]
pub struct SignedRequest {
    pub method: String,
    pub url: String,
    pub headers: Vec<(String, String)>,
    pub body: String,
}

/// A signed request as plain text.
pub struct SignedRequestView {
    pub method: Seq<char>,
    pub url: Seq<char>,
    pub headers: Seq<(Seq<char>, Seq<char>)>,
    pub body: Seq<char>,
}

impl View for SignedRequest {
    type V = SignedRequestView;

    open spec fn view(&self) -> SignedRequestView {
        SignedRequestView {
            method: self.method@,
            url: self.url@,
            headers: self.headers.deep_view(),
            body: self.body@,
        }
    }
}

/// The lowercase hexadecimal SHA-256 digest of a text's UTF-8 bytes.
pub open spec fn text_digest(text: Seq<char>) -> Seq<char> {
    hex_encoding(sha256_digest(encode_utf8(text)))
}

/// The canonical headers: content type, host and lowercased action, one
/// per line.
pub open spec fn canonical_headers_text(host: Seq<char>, action: Seq<char>) -> Seq<char> {
    "content-type:"@ + CONTENT_TYPE@ + "\nhost:"@ + host + "\nx-tc-action:"@ + lowercase_text(
        action,
    ) + "\n"@
}

/// All of the canonical request but its last line, which is the digest of
/// the payload: method, URI, empty query string, canonical headers and
/// the list of signed headers, each followed by a newline.
pub open spec fn canonical_request_head(host: Seq<char>, action: Seq<char>) -> Seq<char> {
    "POST\n/\n\n"@ + canonical_headers_text(host, action) + "\n"@ + SIGNED_HEADERS@ + "\n"@
}

/// The canonical request: six components joined by newlines.
pub open spec fn canonical_request_text(
    host: Seq<char>,
    action: Seq<char>,
    payload: Seq<char>,
) -> Seq<char> {
    canonical_request_head(host, action) + text_digest(payload)
}

/// The credential scope: date, service and the closing word.
pub open spec fn credential_scope_text(date: Seq<char>, service: Seq<char>) -> Seq<char> {
    date + "/"@ + service + "/"@ + SCOPE_END@
}

/// All of the string to sign but its last line: algorithm tag, timestamp
/// and credential scope, each followed by a newline.
pub open spec fn string_to_sign_head(timestamp: int, scope: Seq<char>) -> Seq<char> {
    ALGORITHM@ + "\n"@ + decimal(timestamp) + "\n"@ + scope + "\n"@
}

/// The string to sign: algorithm tag, timestamp, credential scope and the
/// digest of the canonical request, joined by newlines.
pub open spec fn string_to_sign_text(
    timestamp: int,
    scope: Seq<char>,
    canonical_request: Seq<char>,
) -> Seq<char> {
    string_to_sign_head(timestamp, scope) + text_digest(canonical_request)
}

/// The signing key: the secret key behind `TC3`, chained through the
/// date, the service and the closing word.
pub open spec fn signing_key_bytes(
    secret_key: Seq<char>,
    date: Seq<char>,
    service: Seq<char>,
) -> Seq<u8> {
    let secret_date = hmac_sha256_tag(encode_utf8("TC3"@ + secret_key), encode_utf8(date));
    let secret_service = hmac_sha256_tag(secret_date, encode_utf8(service));
    hmac_sha256_tag(secret_service, encode_utf8(SCOPE_END@))
}

/// The signature: the authentication code of the string to sign, in
/// lowercase hexadecimal.
pub open spec fn signature_text(key: Seq<u8>, string_to_sign: Seq<char>) -> Seq<char> {
    hex_encoding(hmac_sha256_tag(key, encode_utf8(string_to_sign)))
}

/// All of the `Authorization` header but the signature at its end.
pub open spec fn authorization_head(secret_id: Seq<char>, scope: Seq<char>) -> Seq<char> {
    ALGORITHM@ + " Credential="@ + secret_id + "/"@ + scope + ", SignedHeaders="@
        + SIGNED_HEADERS@ + ", Signature="@
}

/// The value of the `Authorization` header.
pub open spec fn authorization_text(
    secret_id: Seq<char>,
    scope: Seq<char>,
    signature: Seq<char>,
) -> Seq<char> {
    authorization_head(secret_id, scope) + signature
}

/// Builds the canonical headers of a request to `host` for `action`.
pub fn canonical_headers(host: &str, action: &str) -> (text: String)
    ensures
        text@ == canonical_headers_text(host@, action@),
{
    let lowered = action.to_lowercase();
    let mut text = String::from_str("content-type:");
    text.append(CONTENT_TYPE);
    text.append("\nhost:");
    text.append(host);
    text.append("\nx-tc-action:");
    text.append(lowered.as_str());
    text.append("\n");
    assert(text@ =~= canonical_headers_text(host@, action@));
    text
}

/// Builds the canonical request of a POST of `payload` to `host` for
/// `action`.
pub fn canonical_request(host: &str, action: &str, payload: &str) -> (text: String)
    ensures
        text@ == canonical_request_text(host@, action@, payload@),
{
    let headers = canonical_headers(host, action);
    let digest = TencentCloudClient::sha256_hex(payload);
    let mut text = String::from_str("POST\n/\n\n");
    text.append(headers.as_str());
    text.append("\n");
    text.append(SIGNED_HEADERS);
    text.append("\n");
    text.append(digest.as_str());
    assert(text@ =~= canonical_request_text(host@, action@, payload@));
    text
}

/// Builds the credential scope of `service` on `date`.
pub fn credential_scope(date: &str, service: &str) -> (text: String)
    ensures
        text@ == credential_scope_text(date@, service@),
{
    let mut text = String::from_str(date);
    text.append("/");
    text.append(service);
    text.append("/");
    text.append(SCOPE_END);
    assert(text@ =~= credential_scope_text(date@, service@));
    text
}

/// Builds the string to sign for a canonical request.
pub fn string_to_sign(timestamp: i64, scope: &str, canonical_request: &str) -> (text: String)
    ensures
        text@ == string_to_sign_text(timestamp as int, scope@, canonical_request@),
{
    let digest = TencentCloudClient::sha256_hex(canonical_request);
    let mut text = String::from_str(ALGORITHM);
    text.append("\n");
    push_decimal(&mut text, timestamp);
    text.append("\n");
    text.append(scope);
    text.append("\n");
    text.append(digest.as_str());
    assert(text@ =~= string_to_sign_text(timestamp as int, scope@, canonical_request@));
    text
}

/// Builds the value of the `Authorization` header.
pub fn authorization(secret_id: &str, scope: &str, signature: &str) -> (text: String)
    ensures
        text@ == authorization_text(secret_id@, scope@, signature@),
{
    let mut text = String::from_str(ALGORITHM);
    text.append(" Credential=");
    text.append(secret_id);
    text.append("/");
    text.append(scope);
    text.append(", SignedHeaders=");
    text.append(SIGNED_HEADERS);
    text.append(", Signature=");
    text.append(signature);
    assert(text@ =~= authorization_text(secret_id@, scope@, signature@));
    text
}

/// The signature of a request of `client` at `timestamp`.
pub open spec fn request_signature(
    client: ClientView,
    action: Seq<char>,
    payload: Seq<char>,
    timestamp: int,
) -> Seq<char> {
    let date = utc_date_text(timestamp);
    let scope = credential_scope_text(date, client.service);
    let canonical = canonical_request_text(client.host, action, payload);
    signature_text(
        signing_key_bytes(client.secret_key, date, client.service),
        string_to_sign_text(timestamp, scope, canonical),
    )
}

/// The value of the `Authorization` header of a request of `client` at
/// `timestamp`.
pub open spec fn request_authorization(
    client: ClientView,
    action: Seq<char>,
    payload: Seq<char>,
    timestamp: int,
) -> Seq<char> {
    authorization_text(
        client.secret_id,
        credential_scope_text(utc_date_text(timestamp), client.service),
        request_signature(client, action, payload, timestamp),
    )
}

/// The request that `client` sends for `action` at `timestamp`: a POST
/// of the payload to the host, with the eight headers of the protocol.
/// The timestamp, the host, the content type and the payload are sent as
/// they were signed.
pub open spec fn signed_request(
    client: ClientView,
    action: Seq<char>,
    version: Seq<char>,
    payload: Seq<char>,
    timestamp: int,
) -> SignedRequestView {
    SignedRequestView {
        method: "POST"@,
        url: "https://"@ + client.host,
        headers: seq![
            ("Authorization"@, request_authorization(client, action, payload, timestamp)),
            ("Content-Type"@, CONTENT_TYPE@),
            ("Host"@, client.host),
            ("X-TC-Action"@, action),
            ("X-TC-Timestamp"@, decimal(timestamp)),
            ("X-TC-Version"@, version),
            ("X-TC-Region"@, client.region),
            ("X-TC-Token"@, client.token),
        ],
        body: payload,
    }
}

/// A digest in lowercase hexadecimal holds no newline: it is one line.
pub proof fn lemma_digest_is_one_line(text: Seq<char>)
    ensures
        !text_digest(text).contains('\n'),
{
    let digest = text_digest(text);
    assert forall|i: int| 0 <= i < digest.len() implies digest[i] != '\n' by {
        let byte = sha256_digest(encode_utf8(text))[i / 2];
        assert(0 <= byte as int / 16 < 16 && 0 <= byte as int % 16 < 16);
    }
}

/// Two requests of one client for one action at one time that differ in
/// the payload alone differ at most in the last line of the canonical
/// request, which is the digest of the payload, in the signature at the
/// end of the `Authorization` header, and in the body. Every other line
/// of the canonical request, every other header, the method and the URL
/// are the same.
pub proof fn lemma_payload_changes_digest_and_signature_only(
    client: ClientView,
    action: Seq<char>,
    version: Seq<char>,
    payload: Seq<char>,
    other_payload: Seq<char>,
    timestamp: int,
)
    ensures
        canonical_request_text(client.host, action, payload) == canonical_request_head(
            client.host,
            action,
        ) + text_digest(payload),
        canonical_request_text(client.host, action, other_payload) == canonical_request_head(
            client.host,
            action,
        ) + text_digest(other_payload),
        canonical_request_head(client.host, action).last() == '\n',
        !text_digest(payload).contains('\n'),
        !text_digest(other_payload).contains('\n'),
        ({
            let one = signed_request(client, action, version, payload, timestamp);
            let other = signed_request(client, action, version, other_payload, timestamp);
            let scope = credential_scope_text(utc_date_text(timestamp), client.service);
            &&& one.method == other.method
            &&& one.url == other.url
            &&& one.headers.len() == other.headers.len()
            &&& forall|i: int| 1 <= i < one.headers.len() ==> one.headers[i] == other.headers[i]
            &&& one.headers[0].0 == other.headers[0].0
            &&& one.headers[0].1 == authorization_head(client.secret_id, scope)
                + request_signature(client, action, payload, timestamp)
            &&& other.headers[0].1 == authorization_head(client.secret_id, scope)
                + request_signature(client, action, other_payload, timestamp)
            &&& one.body == payload
            &&& other.body == other_payload
        }),
{
    reveal_strlit("\n");
    lemma_digest_is_one_line(payload);
    lemma_digest_is_one_line(other_payload);
}

/// Derives the signing key of `service` on `date` from the secret key.
pub fn signing_key(secret_key: &str, date: &str, service: &str) -> (key: Vec<u8>)
    ensures
        key@ == signing_key_bytes(secret_key@, date@, service@),
{
    let mut prefixed = String::from_str("TC3");
    prefixed.append(secret_key);
    let secret_date = TencentCloudClient::hmac_sha256(
        prefixed.as_str().as_bytes(),
        date.as_bytes(),
    );
    let secret_service = TencentCloudClient::hmac_sha256(
        secret_date.as_slice(),
        service.as_bytes(),
    );
    TencentCloudClient::hmac_sha256(secret_service.as_slice(), SCOPE_END.as_bytes())
}

impl ClientError {
    /// Says in words what went wrong.
    pub fn message(&self) -> (text: String)
        ensures
            text@ == match *self {
                ClientError::TimestampOutOfRange => "timestamp out of range"@,
                ClientError::ClockUnreadable => "system clock unreadable"@,
            },
    {
        match self {
            ClientError::TimestampOutOfRange => String::from_str("timestamp out of range"),
            ClientError::ClockUnreadable => String::from_str("system clock unreadable"),
        }
    }
}

impl TencentCloudClient {
    /// Makes a client for `service` at `host`, with an empty session
    /// token.
    pub fn new(service: &str, host: &str, region: &str, secret_id: &str, secret_key: &str) -> (client:
        Result<Self, ClientError>)
        ensures
            client matches Ok(c) && c@ == (ClientView {
                secret_id: secret_id@,
                secret_key: secret_key@,
                service: service@,
                host: host@,
                region: region@,
                token: Seq::empty(),
            }),
    {
        Ok(
            Self {
                secret_id: String::from_str(secret_id),
                secret_key: String::from_str(secret_key),
                service: String::from_str(service),
                host: String::from_str(host),
                region: String::from_str(region),
                token: String::new(),
            },
        )
    }

    /// Replaces the session token and leaves the rest as it is.
    pub fn with_token(self, token: &str) -> (client: Self)
        ensures
            client@ == (ClientView { token: token@, ..self@ }),
    {
        let mut client = self;
        client.token = String::from_str(token);
        client
    }

    /// Writes the lowercase hexadecimal SHA-256 digest of `data`.
    pub fn sha256_hex(data: &str) -> (text: String)
        ensures
            text@ == text_digest(data@),
            text@.len() == 64,
    {
        let digest = sha256(data.as_bytes());
        hex_lower(digest.as_slice())
    }

    /// `Mac::new_from_slice`, `Mac::update` and `Mac::finalize` of the
    /// hmac crate, on `Hmac<Sha256>`: the HMAC-SHA256 authentication code
    /// of `data` under `key`, which has 32 bytes. A key of any length is
    /// accepted.
    #[verifier::external_body]
    pub(crate) fn hmac_sha256(key: &[u8], data: &[u8]) -> (tag: Vec<u8>)
        ensures
            tag@ == hmac_sha256_tag(key@, data@),
            tag@.len() == 32,
    {
        let mut mac = hmac::Hmac::<sha2::Sha256>::new_from_slice(key).expect(
            "HMAC can take key of any size",
        );
        mac.update(data);
        mac.finalize().into_bytes().to_vec()
    }

    /// Writes the HMAC-SHA256 authentication code of `data` under `key`
    /// in lowercase hexadecimal.
    pub fn hmac_sha256_hex(key: &[u8], data: &[u8]) -> (text: String)
        ensures
            text@ == hex_encoding(hmac_sha256_tag(key@, data@)),
            text@.len() == 64,
    {
        let tag = Self::hmac_sha256(key, data);
        hex_lower(tag.as_slice())
    }

    /// Signs a POST of `payload` for `action` as of `timestamp`. Fails
    /// where the timestamp has no calendar date, and only there.
    pub fn request_at(&self, action: &str, version: &str, payload: &str, timestamp: i64) -> (request:
        Result<SignedRequest, ClientError>)
        ensures
            MIN_TIMESTAMP <= timestamp <= MAX_TIMESTAMP ==> request is Ok,
            request matches Ok(signed) ==> MIN_TIMESTAMP <= timestamp <= MAX_TIMESTAMP && signed@
                == signed_request(self@, action@, version@, payload@, timestamp as int),
            request matches Ok(_) ==> request_signature(
                self@,
                action@,
                payload@,
                timestamp as int,
            ).len() == 64,
            request matches Err(error) ==> error == ClientError::TimestampOutOfRange,
    {
        let date = match utc_date(timestamp) {
            Some(date) => date,
            None => {
                return Err(ClientError::TimestampOutOfRange);
            },
        };
        let canonical = canonical_request(self.host.as_str(), action, payload);
        let scope = credential_scope(date.as_str(), self.service.as_str());
        let to_sign = string_to_sign(timestamp, scope.as_str(), canonical.as_str());
        let key = signing_key(self.secret_key.as_str(), date.as_str(), self.service.as_str());
        let signature = Self::hmac_sha256_hex(key.as_slice(), to_sign.as_str().as_bytes());
        let authorization = authorization(
            self.secret_id.as_str(),
            scope.as_str(),
            signature.as_str(),
        );
        let mut url = String::from_str("https://");
        url.append(self.host.as_str());
        let mut headers: Vec<(String, String)> = Vec::new();
        headers.push((String::from_str("Authorization"), authorization));
        headers.push((String::from_str("Content-Type"), String::from_str(CONTENT_TYPE)));
        headers.push((String::from_str("Host"), self.host.clone()));
        headers.push((String::from_str("X-TC-Action"), String::from_str(action)));
        headers.push((String::from_str("X-TC-Timestamp"), decimal_text(timestamp)));
        headers.push((String::from_str("X-TC-Version"), String::from_str(version)));
        headers.push((String::from_str("X-TC-Region"), self.region.clone()));
        headers.push((String::from_str("X-TC-Token"), self.token.clone()));
        let signed = SignedRequest {
            method: String::from_str("POST"),
            url,
            headers,
            body: String::from_str(payload),
        };
        assert(signed@.headers =~= signed_request(
            self@,
            action@,
            version@,
            payload@,
            timestamp as int,
        ).headers);
        Ok(signed)
    }

    /// Signs a POST of `payload` for `action` as of the system clock.
    /// Fails where the clock cannot be read as seconds since the Unix
    /// epoch, or where its reading has no calendar date.
    pub fn request(&self, action: &str, version: &str, payload: &str) -> (request: Result<
        SignedRequest,
        ClientError,
    >)
        ensures
            request matches Ok(signed) ==> exists|timestamp: int|
                {
                    &&& MIN_TIMESTAMP <= timestamp <= MAX_TIMESTAMP
                    &&& signed@ == #[trigger] signed_request(
                        self@,
                        action@,
                        version@,
                        payload@,
                        timestamp,
                    )
                    &&& request_signature(self@, action@, payload@, timestamp).len() == 64
                },
            request matches Err(error) ==> error == ClientError::ClockUnreadable || error
                == ClientError::TimestampOutOfRange,
    {
        match current_timestamp() {
            Some(timestamp) => self.request_at(action, version, payload, timestamp),
            None => Err(ClientError::ClockUnreadable),
        }
    }
}

} // verus!
