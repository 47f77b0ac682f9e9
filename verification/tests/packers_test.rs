use artisan_http::json::{JsonMap, JsonPacker, JsonValue};
use artisan_http::query::{QueryPacker, mangle_key, percent_decode, percent_encode, split_bracket};
use artisan_http::error::ArtfulError;
use artisan_http::packer::{Packer, typed_object};

fn s(x: &str) -> JsonValue {
    JsonValue::String(x.to_string())
}

fn n(x: &str) -> JsonValue {
    JsonValue::Number(x.to_string())
}

fn arr(items: Vec<JsonValue>) -> JsonValue {
    JsonValue::Array(items)
}

fn map(entries: Vec<(&str, JsonValue)>) -> JsonMap {
    let mut m = JsonMap::new();
    for (k, v) in entries {
        m.insert(k.to_string(), v);
    }
    m
}

fn obj(entries: Vec<(&str, JsonValue)>) -> JsonValue {
    JsonValue::Object(map(entries))
}

fn field<'a>(v: &'a JsonValue, k: &str) -> &'a JsonValue {
    match v {
        JsonValue::Object(m) => m.get(k).expect("key present"),
        other => panic!("expected an object, got {other:?}"),
    }
}

fn as_str(v: &JsonValue) -> &str {
    match v {
        JsonValue::String(t) => t.as_str(),
        other => panic!("expected a string, got {other:?}"),
    }
}

const UNPACK_RAW_FIXTURE: &str = "accessType=0&bizType=000000&encoding=utf-8&merId=777290058167151&orderId=refundpay20240105165842&origQryId=052401051658427862748&queryId=052401051658427863998&respCode=00&respMsg=成功[0000000]&signMethod=01&txnAmt=1&txnSubType=00&txnTime=20240105165842&txnType=04&version=5.1.0&signPubKeyCert=-----BEGIN CERTIFICATE-----\r\n\
MIIEYzCCA0ugAwIBAgIFEDkwhTQwDQYJKoZIhvcNAQEFBQAwWDELMAkGA1UEBhMC\r\n\
Q04xMDAuBgNVBAoTJ0NoaW5hIEZpbmFuY2lhbCBDZXJ0aWZpY2F0aW9uIEF1dGhv\r\n\
cml0eTEXMBUGA1UEAxMOQ0ZDQSBURVNUIE9DQTEwHhcNMjAwNzMxMDExOTE2WhcN\r\n\
MjUwNzMxMDExOTE2WjCBljELMAkGA1UEBhMCY24xEjAQBgNVBAoTCUNGQ0EgT0NB\r\n\
MTEWMBQGA1UECxMNTG9jYWwgUkEgT0NBMTEUMBIGA1UECxMLRW50ZXJwcmlzZXMx\r\n\
RTBDBgNVBAMMPDA0MUA4MzEwMDAwMDAwMDgzMDQwQOS4reWbvemTtuiBlOiCoeS7\r\n\
veaciemZkOWFrOWPuEAwMDAxNjQ5NTCCASIwDQYJKoZIhvcNAQEBBQADggEPADCC\r\n\
AQoCggEBAMHNa81t44KBfUWUgZhb1YTx3nO9DeagzBO5ZEE9UZkdK5+2IpuYi48w\r\n\
eYisCaLpLuhrwTced19w2UR5hVrc29aa2TxMvQH9s74bsAy7mqUJX+mPd6KThmCr\r\n\
t5LriSQ7rDlD0MALq3yimLvkEdwYJnvyzA6CpHntP728HIGTXZH6zOL0OAvTnP8u\r\n\
RCHZ8sXJPFUkZcbG3oVpdXQTJVlISZUUUhsfSsNdvRDrcKYY+bDWTMEcG8ZuMZzL\r\n\
g0N+/spSwB8eWz+4P87nGFVlBMviBmJJX8u05oOXPyIcZu+CWybFQVcS2sMWDVZy\r\n\
sPeT3tPuBDbFWmKQYuu+gT83PM3G6zMCAwEAAaOB9DCB8TAfBgNVHSMEGDAWgBTP\r\n\
cJ1h6518Lrj3ywJA9wmd/jN0gDBIBgNVHSAEQTA/MD0GCGCBHIbvKgEBMDEwLwYI\r\n\
KwYBBQUHAgEWI2h0dHA6Ly93d3cuY2ZjYS5jb20uY24vdXMvdXMtMTQuaHRtMDkG\r\n\
A1UdHwQyMDAwLqAsoCqGKGh0dHA6Ly91Y3JsLmNmY2EuY29tLmNuL1JTQS9jcmw3\r\n\
NTAwMy5jcmwwCwYDVR0PBAQDAgPoMB0GA1UdDgQWBBTmzk7XEM/J/sd+wPrMils3\r\n\
9rJ2/DAdBgNVHSUEFjAUBggrBgEFBQcDAgYIKwYBBQUHAwQwDQYJKoZIhvcNAQEF\r\n\
BQADggEBAJLbXxbJaFngROADdNmNUyVxPtbAvK32Ia0EjgDh/vjn1hpRNgvL4flH\r\n\
NsGNttCy8afLJcH8UnFJyGLas8v/P3UKXTJtgrOj1mtothv7CQa4LUYhzrVw3UhL\r\n\
4L1CTtmE6D1Kf3+c2Fj6TneK+MoK9AuckySjK5at6a2GQi18Y27gVF88Nk8bp1lJ\r\n\
vzOwPKd8R7iGFotuF4/8GGhBKR4k46EYnKCodyIhNpPdQfpaN5AKeS7xeLSbFvPJ\r\n\
HYrtBsI48jUK/WKtWBJWhFH+Gty+GWX0e5n2QHXHW6qH62M0lDo7OYeyBvG1mh9u\r\n\
Q0C300Eo+XOoO4M1WvsRBAF13g9RPSw=\r\n\
-----END CERTIFICATE-----&signature=c++EAuubwRkvr2MVyM9zyjbdH3RMRK/L1ttftpJ4fkl4ZSY1BjyRbTj5fx/2+Z/eH4dqPNfFEQt8egVVWhF/k7PaD8tLTaueeUIPwyjnEIWmqNtVbJtzKexCouGc8wtYDHZYxTJTgo6BW7GEgO5xD6Qpxq801Bb9Zto8uhn4BUP4HI7UsxHHIzP9JYhL2cqz2B8gb3AJHpLMEBpYv+Kb3mwq8ZFgpGaieCAFFGGWImUx1+MgCzLFoe3SKlTF13nbr39Cd3AHuDJnbN+uG1N6AwUtLu12Zzq/6SM+/dqiE0v5SpvB/PeRj9KQeiGDRg/ho9larqB+D3y0FjU13EeHng==";

#[test]
fn test_pack_basic() {
    let packer = QueryPacker;
    let data = map(vec![("name", s("yansongda")), ("age", s("29"))]);

    let packed = packer.pack(&data, &JsonMap::new()).unwrap();
    assert_eq!(packed, "age=29&name=yansongda");
}

#[test]
fn test_pack_empty() {
    let packer = QueryPacker;
    let data = JsonMap::new();

    assert_eq!(packer.pack(&data, &JsonMap::new()).unwrap(), "");
}

#[test]
fn test_pack_rfc1738_encoding() {
    let packer = QueryPacker;
    let data = map(vec![("s", s("x y")), ("c", s("a%b"))]);

    let packed = packer.pack(&data, &JsonMap::new()).unwrap();
    assert_eq!(packed, "c=a%25b&s=x+y");
}

#[test]
fn test_pack_bool_null() {
    let packer = QueryPacker;
    let data = map(vec![
        ("t", JsonValue::Bool(true)),
        ("f", JsonValue::Bool(false)),
        ("n", JsonValue::Null),
    ]);

    let packed = packer.pack(&data, &JsonMap::new()).unwrap();
    assert_eq!(packed, "f=0&t=1");
}

#[test]
fn test_pack_skips_null_in_nested_containers() {
    let packer = QueryPacker;
    let data = map(vec![("a", arr(vec![JsonValue::Null, n("2")]))]);

    assert_eq!(packer.pack(&data, &JsonMap::new()).unwrap(), "a%5B1%5D=2");
}

#[test]
fn test_pack_nested_object() {
    let packer = QueryPacker;
    let data = map(vec![("a", obj(vec![("b", n("1"))]))]);

    assert_eq!(packer.pack(&data, &JsonMap::new()).unwrap(), "a%5Bb%5D=1");
}

#[test]
fn test_pack_nested_array_uses_index() {
    let packer = QueryPacker;
    let data = map(vec![("a", obj(vec![("l", arr(vec![n("2"), n("3")]))]))]);

    let packed = packer.pack(&data, &JsonMap::new()).unwrap();
    assert_eq!(packed, "a%5Bl%5D%5B0%5D=2&a%5Bl%5D%5B1%5D=3");
}

#[test]
fn test_pack_skips_empty_containers() {
    let packer = QueryPacker;
    let data = map(vec![("a", obj(vec![])), ("b", arr(vec![]))]);

    assert_eq!(packer.pack(&data, &JsonMap::new()).unwrap(), "");
}

#[test]
fn test_unpack_default() {
    let packer = QueryPacker;

    let result = packer.unpack("name=yansongda&age=29", &JsonMap::new()).unwrap();
    assert_eq!(result, obj(vec![("name", s("yansongda")), ("age", s("29"))]));
}

#[test]
fn test_unpack_default_mangle_quirk() {
    let packer = QueryPacker;

    let result = packer.unpack("a.b=1&x y=2", &JsonMap::new()).unwrap();
    assert_eq!(result, obj(vec![("a_b", s("1")), ("x_y", s("2"))]));

    let result = packer.unpack("k[su.b x]=1", &JsonMap::new()).unwrap();
    assert_eq!(result, obj(vec![("k", obj(vec![("su.b x", s("1"))]))]));

    assert_eq!(
        packer.unpack("  x=1", &JsonMap::new()).unwrap(),
        obj(vec![("x", s("1"))])
    );
    assert_eq!(
        packer.unpack("a=1&   ", &JsonMap::new()).unwrap(),
        obj(vec![("a", s("1"))])
    );
    assert_eq!(packer.unpack("=x", &JsonMap::new()).unwrap(), obj(vec![]));
    assert_eq!(
        packer.unpack("a=1&=x", &JsonMap::new()).unwrap(),
        obj(vec![("a", s("1"))])
    );

    assert_eq!(
        packer.unpack("..=1", &JsonMap::new()).unwrap(),
        obj(vec![("__", s("1"))])
    );
}

#[test]
fn test_unpack_default_decoding() {
    let packer = QueryPacker;

    let result = packer.unpack("s=x+y&h=50%25", &JsonMap::new()).unwrap();
    assert_eq!(result, obj(vec![("s", s("x y")), ("h", s("50%"))]));
}

#[test]
fn test_unpack_default_nested_bracket() {
    let packer = QueryPacker;

    let result = packer.unpack("k[sub]=1", &JsonMap::new()).unwrap();
    assert_eq!(result, obj(vec![("k", obj(vec![("sub", s("1"))]))]));
}

#[test]
fn test_unpack_default_array_append() {
    let packer = QueryPacker;

    let result = packer
        .unpack("k[]=1&k[]=2&n[0]=a&n[1]=b", &JsonMap::new())
        .unwrap();
    assert_eq!(
        result,
        obj(vec![
            ("k", arr(vec![s("1"), s("2")])),
            ("n", arr(vec![s("a"), s("b")])),
        ])
    );
}

#[test]
fn test_unpack_default_no_equals_segment() {
    let packer = QueryPacker;

    let result = packer.unpack("a=1&noseq", &JsonMap::new()).unwrap();
    assert_eq!(result, obj(vec![("a", s("1")), ("noseq", s(""))]));
}

#[test]
fn test_unpack_raw_keeps_plus() {
    let packer = QueryPacker;
    let params = map(vec![("_unpack_raw", JsonValue::Bool(true))]);

    let result = packer.unpack("name=yan+song+da&age=29", &params).unwrap();
    assert_eq!(result, obj(vec![("name", s("yan+song+da")), ("age", s("29"))]));
}

#[test]
fn test_unpack_raw_cert_unmodified() {
    let packer = QueryPacker;
    let params = map(vec![("_unpack_raw", JsonValue::Bool(true))]);

    let result = packer.unpack(UNPACK_RAW_FIXTURE, &params).unwrap();
    let JsonValue::Object(m) = &result else {
        panic!("raw parsing gives an object");
    };

    assert_eq!(m.len(), 17);

    let cert = as_str(field(&result, "signPubKeyCert"));
    let cert_start =
        UNPACK_RAW_FIXTURE.find("signPubKeyCert=").unwrap() + "signPubKeyCert=".len();
    let cert_end = UNPACK_RAW_FIXTURE.find("&signature=").unwrap();
    assert!(cert.contains("\r\n") && cert.contains('+') && cert.contains('/'));
    assert_eq!(cert, &UNPACK_RAW_FIXTURE[cert_start..cert_end]);

    assert_eq!(field(&result, "respMsg"), &s("成功[0000000]"));

    let signature = as_str(field(&result, "signature"));
    let sig_start = UNPACK_RAW_FIXTURE.find("&signature=").unwrap() + "&signature=".len();
    assert_eq!(signature, &UNPACK_RAW_FIXTURE[sig_start..]);
}

#[test]
fn test_unpack_raw_empty_and_no_equals() {
    let packer = QueryPacker;
    let params = map(vec![("_unpack_raw", JsonValue::Bool(true))]);

    assert_eq!(packer.unpack("", &params).unwrap(), obj(vec![]));
    assert_eq!(packer.unpack("noseq", &params).unwrap(), obj(vec![]));
}

#[test]
fn test_unpack_raw_segment_without_equals() {
    let packer = QueryPacker;
    let params = map(vec![("_unpack_raw", JsonValue::Bool(true))]);

    let result = packer.unpack("a=1&noseq", &params).unwrap();
    assert_eq!(result, obj(vec![("a", s("1")), ("", s("oseq"))]));
}

#[test]
fn test_unpack_raw_truthy_matrix() {
    let packer = QueryPacker;
    let cases = vec![
        (JsonValue::Bool(true), true),
        (JsonValue::Bool(false), false),
        (JsonValue::Null, false),
        (n("1"), true),
        (n("0"), false),
        (n("-1"), true),
        (n("0.0"), false),
        (n("1.5"), true),
        (s("1"), true),
        (s("0"), false),
        (s(""), false),
        (s("raw"), true),
        (arr(vec![n("1")]), true),
        (arr(vec![]), false),
        (obj(vec![("k", n("1"))]), true),
        (obj(vec![]), false),
    ];

    for (raw_param, expected) in cases {
        let label = format!("{raw_param:?}");
        let params = map(vec![("_unpack_raw", raw_param)]);
        let result = packer.unpack("name=yan+song+da", &params).unwrap();
        let plus_kept = field(&result, "name") == &s("yan+song+da");
        assert_eq!(plus_kept, expected, "truthiness of {label}");
    }
}

#[test]
fn test_content_type() {
    assert_eq!(
        QueryPacker.content_type(),
        Some("application/x-www-form-urlencoded")
    );
}

#[test]
fn test_json_packer_content_type() {
    assert_eq!(JsonPacker.content_type(), Some("application/json"));
}

#[test]
fn percent_encode_follows_rfc1738() {
    assert_eq!(percent_encode("a b&c=d/é~*"), "a+b%26c%3Dd%2F%C3%A9%7E%2A");
    assert_eq!(percent_encode("AZaz09-_."), "AZaz09-_.");
}

#[test]
fn percent_decode_reads_plus_and_escapes() {
    assert_eq!(percent_decode("a+b%26c%3Dd%2F%C3%A9"), "a b&c=d/é".as_bytes().to_vec());
    assert_eq!(percent_decode("100%"), b"100%".to_vec());
    assert_eq!(percent_decode("%zz"), b"%zz".to_vec());
    assert_eq!(percent_decode("%41"), b"A".to_vec());
    assert_eq!(percent_decode("%4"), b"%4".to_vec());
    assert_eq!(percent_decode("%41x"), b"Ax".to_vec());
}

#[test]
fn percent_decode_undoes_percent_encode() {
    for text in ["", "x y", "a%b&c", "成功[0000000]", "+/=?"] {
        assert_eq!(percent_decode(&percent_encode(text)), text.as_bytes().to_vec());
    }
}

#[test]
fn mangle_key_and_split_bracket_edges() {
    assert_eq!(mangle_key("  a.b c"), "a_b_c");
    assert_eq!(mangle_key("k. [x.y]"), "k__[x.y]");
    assert_eq!(split_bracket("k[sub]"), Some(("k".to_string(), "sub".to_string())));
    assert_eq!(split_bracket("k[a][b]"), Some(("k".to_string(), "a][b]".to_string())));
    assert_eq!(split_bracket("plain"), None);
}

#[test]
fn query_errors_never_occur_on_pack() {
    let packer = QueryPacker;
    let data = map(vec![("deep", obj(vec![("x", arr(vec![JsonValue::Bool(false)]))]))]);
    let packed: Result<String, ArtfulError> = packer.pack(&data, &JsonMap::new());
    assert_eq!(packed.unwrap(), "deep%5Bx%5D%5B0%5D=0");
}

#[test]
fn invalid_utf8_escapes_become_replacement_characters() {
    let packer = QueryPacker;
    let result = packer.unpack("a=%FF&b=%C3%A9", &JsonMap::new()).unwrap();
    assert_eq!(result, obj(vec![("a", s("\u{FFFD}")), ("b", s("é"))]));
}

#[derive(Debug)]
struct NoContentTypePacker;

impl Packer for NoContentTypePacker {
    fn pack(&self, _data: &JsonMap, _params: &JsonMap) -> Result<String, ArtfulError> {
        Ok(String::new())
    }

    fn unpack(&self, _data: &str, _params: &JsonMap) -> Result<JsonValue, ArtfulError> {
        Ok(JsonValue::Null)
    }

    fn content_type(&self) -> Option<&'static str> {
        None
    }
}

#[test]
fn packer_without_content_type_declares_none() {
    assert_eq!(NoContentTypePacker.content_type(), None);
}

#[test]
fn packers_through_the_trait() {
    let packers: Vec<Box<dyn Packer>> = vec![Box::new(QueryPacker), Box::new(artisan_http::xml::XmlPacker)];
    let data = map(vec![("a", s("1"))]);
    let packed: Vec<String> = packers
        .iter()
        .map(|p| p.pack(&data, &JsonMap::new()).unwrap())
        .collect();
    assert_eq!(packed, vec!["a=1".to_string(), "<xml><a>1</a></xml>".to_string()]);
    assert_eq!(packers[0].content_type(), Some("application/x-www-form-urlencoded"));
    assert_eq!(packers[1].content_type(), Some("application/xml"));
    assert_eq!(
        packers[1].unpack("<xml><a>1</a></xml>", &JsonMap::new()).unwrap(),
        obj(vec![("a", s("1"))])
    );
}

#[test]
fn typed_object_takes_objects_only() {
    let mut m = JsonMap::new();
    m.insert("name".to_string(), JsonValue::String("yansongda".to_string()));
    let object = typed_object(JsonValue::Object(m)).unwrap();
    assert_eq!(object.get("name"), Some(&JsonValue::String("yansongda".to_string())));
    match typed_object(JsonValue::Array(vec![JsonValue::Number("1".to_string())])) {
        Err(ArtfulError::InvalidParameter { param, message }) => {
            assert_eq!(param, "data");
            assert!(message.contains("JSON 对象"));
        }
        other => panic!("expected InvalidParameter, got {other:?}"),
    }
}

#[test]
fn query_unpack_undoes_pack_for_plain_string_entries() {
    let mut m = JsonMap::new();
    m.insert("name".to_string(), JsonValue::String("a b&c=d+%中".to_string()));
    m.insert("order_id".to_string(), JsonValue::String("123".to_string()));
    m.insert("empty".to_string(), JsonValue::String(String::new()));
    let packed = QueryPacker.pack(&m, &JsonMap::new()).unwrap();
    let back = QueryPacker.unpack(&packed, &JsonMap::new()).unwrap();
    assert_eq!(back, JsonValue::Object(m));
    let none = QueryPacker.pack(&JsonMap::new(), &JsonMap::new()).unwrap();
    assert_eq!(QueryPacker.unpack(&none, &JsonMap::new()).unwrap(), JsonValue::Object(JsonMap::new()));
}

#[test]
fn percent_round_trip_and_mangle_fixed_point() {
    for s in ["a b&c", "中文=x", "", "~!*'()"] {
        assert_eq!(percent_decode(&percent_encode(s)), s.as_bytes().to_vec());
    }
    for raw in ["  a.b c[x.y]", "a.b", "[x]", " . "] {
        let once = mangle_key(raw);
        assert_eq!(mangle_key(&once), once);
        assert!(!once.starts_with(' '));
    }
}
