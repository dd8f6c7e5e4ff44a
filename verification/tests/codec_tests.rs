//! The envelope codec on its own: decoding, encoding, the round trip, and
//! agreement with an independent JSON implementation.

use echo_node::codec::{decode, encode};
use echo_node::msg::{Body, DecodeError, Envelope};
use echo_node::node::Node;

#[test]
fn decode_reads_a_typed_envelope() {
    let env = decode(
        br#"{"src":"c1","dest":"n1","body":{"type":"echo","msg_id":42,"echo":"hello"}}"#,
    )
    .unwrap();
    assert_eq!(env.src, b"c1".to_vec());
    assert_eq!(env.dest, b"n1".to_vec());
    assert_eq!(env.body, Body::Echo { msg_id: 42, echo: b"hello".to_vec() });
}

#[test]
fn decode_reads_reply_envelopes_too() {
    let env = decode(
        br#"{"src":"n1","dest":"c1","body":{"type":"echo_ok","msg_id":3,"in_reply_to":2,"echo":"x"}}"#,
    )
    .unwrap();
    assert_eq!(env.body, Body::EchoOk { msg_id: 3, in_reply_to: 2, echo: b"x".to_vec() });
    let env2 = decode(
        br#"{"src":"n1","dest":"c1","body":{"type":"init_ok","msg_id":1,"in_reply_to":7}}"#,
    )
    .unwrap();
    assert_eq!(env2.body, Body::InitOk { msg_id: 1, in_reply_to: 7 });
}

#[test]
fn encode_writes_the_canonical_line() {
    let env = Envelope {
        src: b"a".to_vec(),
        dest: b"b".to_vec(),
        body: Body::Init { msg_id: 3 },
    };
    assert_eq!(
        String::from_utf8(encode(&env)).unwrap(),
        r#"{"src":"a","dest":"b","body":{"type":"init","msg_id":3}}"#
    );
}

#[test]
fn encode_then_decode_returns_the_same_reply() {
    let env = Envelope {
        src: b"n1".to_vec(),
        dest: b"c1".to_vec(),
        body: Body::EchoOk { msg_id: 7, in_reply_to: 3, echo: b"hi \\\"there\\\"".to_vec() },
    };
    let again = decode(&encode(&env)).unwrap();
    assert_eq!(again, env);
    let env2 = Envelope {
        src: b"n9".to_vec(),
        dest: b"c2".to_vec(),
        body: Body::InitOk { msg_id: 120, in_reply_to: 18446744073709551615 },
    };
    assert_eq!(decode(&encode(&env2)).unwrap(), env2);
}

#[test]
fn escaped_payload_comes_back_byte_for_byte() {
    let mut node = Node::new();
    let input = r#"{"src":"c1","dest":"n1","body":{"type":"echo","msg_id":7,"echo":"a\"b\\cA\n"}}"#;
    let out = node.process_line(input.as_bytes()).unwrap().unwrap();
    let out = String::from_utf8(out).unwrap();
    assert_eq!(
        out,
        r#"{"src":"n1","dest":"c1","body":{"type":"echo_ok","msg_id":1,"in_reply_to":7,"echo":"a\"b\\cA\n"}}"#
    );
    // an independent JSON implementation reads the same payload out of both
    let vin: serde_json::Value = serde_json::from_str(input).unwrap();
    let vout: serde_json::Value = serde_json::from_str(&out).unwrap();
    assert_eq!(vin["body"]["echo"], vout["body"]["echo"]);
}

#[test]
fn bad_escapes_and_bad_strings_are_invalid() {
    assert_eq!(
        decode(br#"{"src":"c1","dest":"n1","body":{"type":"echo","msg_id":1,"echo":"\q"}}"#),
        Err(DecodeError::Invalid)
    );
    assert_eq!(
        decode(br#"{"src":"c1","dest":"n1","body":{"type":"echo","msg_id":1,"echo":"\u00ZZ"}}"#),
        Err(DecodeError::Invalid)
    );
    let mut raw = br#"{"src":"c1","dest":"n1","body":{"type":"echo","msg_id":1,"echo":""#.to_vec();
    raw.push(7u8);
    raw.extend_from_slice(br#""}}"#);
    assert_eq!(decode(&raw), Err(DecodeError::Invalid));
}

#[test]
fn serde_json_generated_lines_decode_identically() {
    let mut body = serde_json::Map::new();
    body.insert("type".to_string(), serde_json::Value::String("echo".to_string()));
    body.insert("msg_id".to_string(), serde_json::Value::from(42u64));
    body.insert("echo".to_string(), serde_json::Value::String("h\u{e9}llo \u{2603}".to_string()));
    let mut obj = serde_json::Map::new();
    obj.insert("src".to_string(), serde_json::Value::String("c1".to_string()));
    obj.insert("dest".to_string(), serde_json::Value::String("n1".to_string()));
    obj.insert("body".to_string(), serde_json::Value::Object(body));
    let text = serde_json::to_string(&serde_json::Value::Object(obj)).unwrap();
    let env = decode(text.as_bytes()).unwrap();
    assert_eq!(env.src, b"c1".to_vec());
    assert_eq!(env.dest, b"n1".to_vec());
    match env.body {
        Body::Echo { msg_id, echo } => {
            assert_eq!(msg_id, 42);
            assert_eq!(String::from_utf8(echo).unwrap(), "h\u{e9}llo \u{2603}");
        },
        other => panic!("expected an echo body, got {:?}", other),
    }
}

#[test]
fn encoded_replies_parse_as_json_elsewhere() {
    let mut node = Node::new();
    let out = node
        .process_line(
            br#"{"src":"c1","dest":"n1","body":{"type":"init","msg_id":1,"node_id":"n1","node_ids":["n1"]}}"#,
        )
        .unwrap()
        .unwrap();
    let v: serde_json::Value = serde_json::from_slice(&out).unwrap();
    assert_eq!(v["src"], serde_json::Value::String("n1".to_string()));
    assert_eq!(v["dest"], serde_json::Value::String("c1".to_string()));
    assert_eq!(v["body"]["type"], serde_json::Value::String("init_ok".to_string()));
    assert_eq!(v["body"]["msg_id"], serde_json::Value::from(1u64));
    assert_eq!(v["body"]["in_reply_to"], serde_json::Value::from(1u64));
}
