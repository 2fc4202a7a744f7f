use dns_rs::client::{
    authorization, canonical_headers, canonical_request, credential_scope, signing_key,
    string_to_sign, ClientError, MAX_TIMESTAMP, MIN_TIMESTAMP,
};
use dns_rs::text::{decimal_text, hex_lower};
use dns_rs::TencentCloudClient;

const SECRET_ID: &str = "AKIDz8krbsJ5yKBZQpn74WFkmLPx3*******";
const SECRET_KEY: &str = "Gu5t9xGARNpq86cd98joQYCN3*******";
const PAYLOAD: &str =
    "{\"Limit\": 1, \"Filters\": [{\"Values\": [\"\\u672a\\u547d\\u540d\"], \"Name\": \"instance-name\"}]}";
const SIGNATURE: &str = "be4f67d323c78ab9acb7395e43c0dbcf822a9cfac32fea2449a7bc7726b770a3";

fn cvm_client() -> TencentCloudClient {
    TencentCloudClient::new("cvm", "cvm.tencentcloudapi.com", "ap-guangzhou", SECRET_ID, SECRET_KEY)
        .unwrap()
}

fn header<'a>(headers: &'a [(String, String)], name: &str) -> &'a str {
    let mut found = headers.iter().filter(|(n, _)| n == name);
    let value = &found.next().unwrap().1;
    assert!(found.next().is_none());
    value
}

#[test]
fn sha256_hex_of_known_inputs() {
    assert_eq!(
        TencentCloudClient::sha256_hex("hello world"),
        "b94d27b9934d3e08a52e52d7da7dabfac484efe37a5380ee9088f7ace2efcde9"
    );
    assert_eq!(
        TencentCloudClient::sha256_hex(""),
        "e3b0c44298fc1c149afbf4c8996fb92427ae41e4649b934ca495991b7852b855"
    );
    assert_eq!(
        TencentCloudClient::sha256_hex(PAYLOAD),
        "35e9c5b0e3ae67532d3c9f17ead6c90222632e5b1ff7f6e89887f1398934f064"
    );
}

#[test]
fn hmac_sha256_hex_of_known_inputs() {
    assert_eq!(
        TencentCloudClient::hmac_sha256_hex(b"my secret and secure key", b"input message"),
        "97d2a569059bbcd8ead4444ff99071f4c01d005bcefe0d3567e1be628e5fdcd9"
    );
    assert_eq!(
        TencentCloudClient::hmac_sha256_hex(b"Jefe", b"what do ya want for nothing?"),
        "5bdcc146bf60754e6a042426089575c75a003f089d2739839dec58b964ec3843"
    );
}

#[test]
fn hex_lower_writes_two_digits_per_byte() {
    assert_eq!(hex_lower(&[]), "");
    assert_eq!(hex_lower(&[0x00, 0x0f, 0xa0, 0xff, 0x5c]), "000fa0ff5c");
}

#[test]
fn decimal_text_matches_std() {
    for n in [0i64, 7, 10, 99, 100, 1551113065, -1, -10, -1551113065, i64::MAX, i64::MIN] {
        assert_eq!(decimal_text(n), n.to_string());
    }
}

#[test]
fn canonical_headers_lowercase_the_action() {
    assert_eq!(
        canonical_headers("cvm.tencentcloudapi.com", "DescribeInstances"),
        "content-type:application/json; charset=utf-8\nhost:cvm.tencentcloudapi.com\nx-tc-action:describeinstances\n"
    );
}

#[test]
fn canonical_request_has_six_components() {
    assert_eq!(
        canonical_request("cvm.tencentcloudapi.com", "DescribeInstances", PAYLOAD),
        "POST\n/\n\ncontent-type:application/json; charset=utf-8\nhost:cvm.tencentcloudapi.com\nx-tc-action:describeinstances\n\ncontent-type;host;x-tc-action\n35e9c5b0e3ae67532d3c9f17ead6c90222632e5b1ff7f6e89887f1398934f064"
    );
}

#[test]
fn credential_scope_joins_date_and_service() {
    assert_eq!(credential_scope("2019-02-25", "cvm"), "2019-02-25/cvm/tc3_request");
}

#[test]
fn string_to_sign_hashes_the_canonical_request() {
    let canonical = canonical_request("cvm.tencentcloudapi.com", "DescribeInstances", PAYLOAD);
    assert_eq!(
        string_to_sign(1551113065, "2019-02-25/cvm/tc3_request", &canonical),
        "TC3-HMAC-SHA256\n1551113065\n2019-02-25/cvm/tc3_request\n7019a55be8395899b900fb5564e4200d984910f34794a27cb3fb7d10ff6a1e84"
    );
}

#[test]
fn signing_key_chains_three_codes() {
    assert_eq!(
        hex_lower(&signing_key(SECRET_KEY, "2019-02-25", "cvm")),
        "8aa8ab5755582f576e94bcfe383b8e29325b0ca90c3590d569221c6a63a091ed"
    );
}

#[test]
fn authorization_names_credential_headers_and_signature() {
    assert_eq!(
        authorization("id", "2019-02-25/cvm/tc3_request", "abc"),
        "TC3-HMAC-SHA256 Credential=id/2019-02-25/cvm/tc3_request, SignedHeaders=content-type;host;x-tc-action, Signature=abc"
    );
}

#[test]
fn signature_has_sixty_four_hex_digits() {
    for timestamp in [0i64, 1551113065, MIN_TIMESTAMP, MAX_TIMESTAMP] {
        let signed = cvm_client().request_at("A", "v", "{}", timestamp).unwrap();
        let value = header(&signed.headers, "Authorization");
        let signature = value.rsplit("Signature=").next().unwrap();
        assert_eq!(signature.len(), 64);
        assert!(signature.bytes().all(|b| b.is_ascii_digit() || (b'a'..=b'f').contains(&b)));
    }
}

#[test]
fn golden_signature_and_authorization() {
    let signed = cvm_client()
        .request_at("DescribeInstances", "2017-03-12", PAYLOAD, 1551113065)
        .unwrap();
    let expected = format!(
        "TC3-HMAC-SHA256 Credential={}/2019-02-25/cvm/tc3_request, SignedHeaders=content-type;host;x-tc-action, Signature={}",
        SECRET_ID, SIGNATURE
    );
    assert_eq!(header(&signed.headers, "Authorization"), expected);
}

#[test]
fn signed_request_carries_what_was_signed() {
    let signed = cvm_client()
        .with_token("session")
        .request_at("DescribeInstances", "2017-03-12", PAYLOAD, 1551113065)
        .unwrap();
    assert_eq!(signed.method, "POST");
    assert_eq!(signed.url, "https://cvm.tencentcloudapi.com");
    assert_eq!(signed.body, PAYLOAD);
    let names: Vec<&str> = signed.headers.iter().map(|(n, _)| n.as_str()).collect();
    assert_eq!(
        names,
        vec![
            "Authorization",
            "Content-Type",
            "Host",
            "X-TC-Action",
            "X-TC-Timestamp",
            "X-TC-Version",
            "X-TC-Region",
            "X-TC-Token"
        ]
    );
    assert_eq!(header(&signed.headers, "Content-Type"), "application/json; charset=utf-8");
    assert_eq!(header(&signed.headers, "Host"), "cvm.tencentcloudapi.com");
    assert_eq!(header(&signed.headers, "X-TC-Action"), "DescribeInstances");
    assert_eq!(header(&signed.headers, "X-TC-Timestamp"), "1551113065");
    assert_eq!(header(&signed.headers, "X-TC-Version"), "2017-03-12");
    assert_eq!(header(&signed.headers, "X-TC-Region"), "ap-guangzhou");
    assert_eq!(header(&signed.headers, "X-TC-Token"), "session");
}

#[test]
fn new_client_has_an_empty_token() {
    let signed = cvm_client().request_at("DescribeInstances", "2017-03-12", "{}", 0).unwrap();
    assert_eq!(header(&signed.headers, "X-TC-Token"), "");
}

#[test]
fn payload_changes_only_signature_and_body() {
    let client = cvm_client();
    let one = client.request_at("DescribeInstances", "2017-03-12", "{\"Limit\":1}", 1551113065).unwrap();
    let other = client.request_at("DescribeInstances", "2017-03-12", "{\"Limit\":2}", 1551113065).unwrap();
    assert_eq!(one.method, other.method);
    assert_eq!(one.url, other.url);
    assert_eq!(one.headers[1..], other.headers[1..]);
    let (a, b) = (&one.headers[0].1, &other.headers[0].1);
    assert_eq!(a.len(), b.len());
    assert_eq!(a[..a.len() - 64], b[..b.len() - 64]);
    assert_ne!(a[a.len() - 64..], b[b.len() - 64..]);
    let first = canonical_request("cvm.tencentcloudapi.com", "DescribeInstances", "{\"Limit\":1}");
    let second = canonical_request("cvm.tencentcloudapi.com", "DescribeInstances", "{\"Limit\":2}");
    let (first_lines, second_lines): (Vec<&str>, Vec<&str>) =
        (first.split('\n').collect(), second.split('\n').collect());
    assert_eq!(first_lines.len(), 9);
    assert_eq!(first_lines[..8], second_lines[..8]);
    assert_ne!(first_lines[8], second_lines[8]);
}

#[test]
fn date_follows_the_timestamp() {
    let client = cvm_client();
    let last_of_day = client.request_at("A", "v", "{}", 1551139199).unwrap();
    let first_of_next = client.request_at("A", "v", "{}", 1551139200).unwrap();
    assert!(header(&last_of_day.headers, "Authorization").contains("/2019-02-25/cvm/tc3_request"));
    assert!(header(&first_of_next.headers, "Authorization").contains("/2019-02-26/cvm/tc3_request"));
    let epoch = client.request_at("A", "v", "{}", 0).unwrap();
    assert!(header(&epoch.headers, "Authorization").contains("/1970-01-01/cvm/tc3_request"));
}

#[test]
fn timestamp_without_a_date_is_refused() {
    let client = cvm_client();
    assert!(client.request_at("A", "v", "{}", MIN_TIMESTAMP).is_ok());
    assert!(client.request_at("A", "v", "{}", MAX_TIMESTAMP).is_ok());
    assert_eq!(
        client.request_at("A", "v", "{}", MIN_TIMESTAMP - 1).unwrap_err(),
        ClientError::TimestampOutOfRange
    );
    assert_eq!(
        client.request_at("A", "v", "{}", MAX_TIMESTAMP + 1).unwrap_err(),
        ClientError::TimestampOutOfRange
    );
    assert_eq!(
        client.request_at("A", "v", "{}", i64::MIN).unwrap_err(),
        ClientError::TimestampOutOfRange
    );
    assert_eq!(
        client.request_at("A", "v", "{}", i64::MAX).unwrap_err(),
        ClientError::TimestampOutOfRange
    );
    assert_eq!(ClientError::TimestampOutOfRange.message(), "timestamp out of range");
    assert_eq!(ClientError::ClockUnreadable.message(), "system clock unreadable");
}

#[test]
fn request_signs_as_of_now() {
    let client = cvm_client();
    let signed = client.request("DescribeInstances", "2017-03-12", PAYLOAD).unwrap();
    let now = std::time::SystemTime::now()
        .duration_since(std::time::UNIX_EPOCH)
        .unwrap()
        .as_secs() as i64;
    let timestamp: i64 = header(&signed.headers, "X-TC-Timestamp").parse().unwrap();
    assert!(timestamp > 1551113065);
    assert!(now - 5 <= timestamp && timestamp <= now);
    let again = client.request_at("DescribeInstances", "2017-03-12", PAYLOAD, timestamp).unwrap();
    assert_eq!(signed.headers, again.headers);
    assert_eq!(signed.body, again.body);
}
