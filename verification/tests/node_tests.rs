//! End-to-end behaviour of one node: a line goes in, a reply line (or
//! nothing, or a fatal error) comes out.

use echo_node::msg::{Body, BodyField, DecodeError, Envelope};
use echo_node::node::{handle_echo, handle_init, Node};

fn line(node: &mut Node, input: &str) -> Result<Option<String>, DecodeError> {
    node.process_line(input.as_bytes()).map(|o| o.map(|v| String::from_utf8(v).unwrap()))
}

#[test]
fn init_request_gets_init_ok_reply() {
    let mut node = Node::new();
    let out = line(
        &mut node,
        r#"{"src":"c1","dest":"n1","body":{"type":"init","msg_id":1,"node_id":"n1","node_ids":["n1"]}}"#,
    );
    assert_eq!(
        out,
        Ok(Some(
            r#"{"src":"n1","dest":"c1","body":{"type":"init_ok","msg_id":1,"in_reply_to":1}}"#
                .to_string()
        ))
    );
}

#[test]
fn echo_request_gets_echo_ok_reply() {
    let mut node = Node::new();
    let first = line(
        &mut node,
        r#"{"src":"c1","dest":"n1","body":{"type":"init","msg_id":1,"node_id":"n1","node_ids":["n1"]}}"#,
    );
    assert!(first.is_ok());
    let out = line(&mut node, r#"{"src":"c1","dest":"n1","body":{"type":"echo","msg_id":2,"echo":"hello"}}"#);
    assert_eq!(
        out,
        Ok(Some(
            r#"{"src":"n1","dest":"c1","body":{"type":"echo_ok","msg_id":2,"in_reply_to":2,"echo":"hello"}}"#
                .to_string()
        ))
    );
}

#[test]
fn unknown_type_produces_no_output_line() {
    let mut node = Node::new();
    let out = line(&mut node, r#"{"src":"c1","dest":"n1","body":{"type":"bogus","msg_id":1}}"#);
    assert_eq!(out, Ok(None));
    assert_eq!(node.next_msg_id, 1);
}

#[test]
fn reply_typed_bodies_are_ignored() {
    let mut node = Node::new();
    let out = line(
        &mut node,
        r#"{"src":"c1","dest":"n1","body":{"type":"init_ok","msg_id":1,"in_reply_to":1}}"#,
    );
    assert_eq!(out, Ok(None));
}

#[test]
fn malformed_line_is_a_fatal_error() {
    let mut node = Node::new();
    assert_eq!(line(&mut node, "not json"), Err(DecodeError::Invalid));
    assert_eq!(line(&mut node, r#"{"src":"c1","dest":"n1""#), Err(DecodeError::Invalid));
    assert_eq!(line(&mut node, ""), Err(DecodeError::Invalid));
    assert_eq!(
        line(&mut node, r#"{"src":"c1","dest":"n1","body":{"type":"init","msg_id":1}} x"#),
        Err(DecodeError::Invalid)
    );
}

#[test]
fn missing_envelope_fields_are_invalid() {
    let mut node = Node::new();
    assert_eq!(
        line(&mut node, r#"{"dest":"n1","body":{"type":"init","msg_id":1}}"#),
        Err(DecodeError::Invalid)
    );
    assert_eq!(
        line(&mut node, r#"{"src":"c1","dest":"n1"}"#),
        Err(DecodeError::Invalid)
    );
    assert_eq!(line(&mut node, r#"{"src":"c1","dest":"n1","body":5}"#), Err(DecodeError::Invalid));
    assert_eq!(line(&mut node, "{}"), Err(DecodeError::Invalid));
}

#[test]
fn malformed_bodies_name_the_field() {
    let mut node = Node::new();
    assert_eq!(
        line(&mut node, r#"{"src":"c1","dest":"n1","body":{"type":"init"}}"#),
        Err(DecodeError::MalformedBody { field: BodyField::MsgId })
    );
    assert_eq!(
        line(&mut node, r#"{"src":"c1","dest":"n1","body":{"type":"init","msg_id":"x"}}"#),
        Err(DecodeError::MalformedBody { field: BodyField::MsgId })
    );
    assert_eq!(
        line(&mut node, r#"{"src":"c1","dest":"n1","body":{"type":"echo","msg_id":1}}"#),
        Err(DecodeError::MalformedBody { field: BodyField::Echo })
    );
    assert_eq!(
        line(&mut node, r#"{"src":"c1","dest":"n1","body":{"type":"echo","msg_id":1,"echo":7}}"#),
        Err(DecodeError::MalformedBody { field: BodyField::Echo })
    );
    assert_eq!(
        line(&mut node, r#"{"src":"c1","dest":"n1","body":{"type":"echo","echo":"hi"}}"#),
        Err(DecodeError::MalformedBody { field: BodyField::MsgId })
    );
    // fractional, negative and oversized numbers are not valid msg_id values
    assert_eq!(
        line(&mut node, r#"{"src":"c1","dest":"n1","body":{"type":"init","msg_id":1.5}}"#),
        Err(DecodeError::MalformedBody { field: BodyField::MsgId })
    );
    assert_eq!(
        line(&mut node, r#"{"src":"c1","dest":"n1","body":{"type":"init","msg_id":-1}}"#),
        Err(DecodeError::MalformedBody { field: BodyField::MsgId })
    );
    assert_eq!(
        line(&mut node, r#"{"src":"c1","dest":"n1","body":{"type":"init","msg_id":18446744073709551616}}"#),
        Err(DecodeError::MalformedBody { field: BodyField::MsgId })
    );
}

#[test]
fn largest_msg_id_is_accepted() {
    let mut node = Node::new();
    let out = line(
        &mut node,
        r#"{"src":"c1","dest":"n1","body":{"type":"init","msg_id":18446744073709551615}}"#,
    );
    assert_eq!(
        out,
        Ok(Some(
            r#"{"src":"n1","dest":"c1","body":{"type":"init_ok","msg_id":1,"in_reply_to":18446744073709551615}}"#
                .to_string()
        ))
    );
}

#[test]
fn reply_msg_ids_strictly_increase_across_a_run() {
    let mut node = Node::new();
    let mut ids = Vec::new();
    for req in [
        r#"{"src":"c1","dest":"n1","body":{"type":"echo","msg_id":9,"echo":"a"}}"#,
        r#"{"src":"c1","dest":"n1","body":{"type":"bogus","msg_id":1}}"#,
        r#"{"src":"c2","dest":"n1","body":{"type":"echo","msg_id":9,"echo":"b"}}"#,
        r#"{"src":"c1","dest":"n1","body":{"type":"init","msg_id":3,"node_id":"n1","node_ids":[]}}"#,
    ] {
        if let Ok(Some(out)) = line(&mut node, req) {
            let v: serde_json::Value = serde_json::from_str(&out).unwrap();
            ids.push(v["body"]["msg_id"].as_u64().unwrap());
        }
    }
    assert_eq!(ids, vec![1, 2, 3]);
}

#[test]
fn field_order_and_whitespace_do_not_matter() {
    let mut node = Node::new();
    let out = line(
        &mut node,
        " { \"body\" : {\"msg_id\": 5, \"type\": \"echo\", \"echo\": \"\"} , \"dest\" : \"n2\" , \"src\" : \"c9\" } ",
    );
    assert_eq!(
        out,
        Ok(Some(
            r#"{"src":"n2","dest":"c9","body":{"type":"echo_ok","msg_id":1,"in_reply_to":5,"echo":""}}"#
                .to_string()
        ))
    );
}

#[test]
fn unknown_fields_are_skipped_whole() {
    let mut node = Node::new();
    let out = line(
        &mut node,
        r#"{"extra":[true,false,null,1.5e3,{"y":[[]],"z":"q"}],"src":"c1","dest":"n1","body":{"pad":{"a":1},"type":"init","msg_id":4,"node_ids":["n1","n2"]}}"#,
    );
    assert_eq!(
        out,
        Ok(Some(
            r#"{"src":"n1","dest":"c1","body":{"type":"init_ok","msg_id":1,"in_reply_to":4}}"#
                .to_string()
        ))
    );
}

#[test]
fn duplicate_keys_last_occurrence_wins() {
    let mut node = Node::new();
    let out = line(
        &mut node,
        r#"{"src":"c0","src":"c1","dest":"n1","body":{"type":"bogus","type":"echo","msg_id":1,"echo":"x"}}"#,
    );
    assert_eq!(
        out,
        Ok(Some(
            r#"{"src":"n1","dest":"c1","body":{"type":"echo_ok","msg_id":1,"in_reply_to":1,"echo":"x"}}"#
                .to_string()
        ))
    );
}

#[test]
fn missing_or_nonstring_type_is_ignored() {
    let mut node = Node::new();
    assert_eq!(
        line(&mut node, r#"{"src":"c1","dest":"n1","body":{"msg_id":1}}"#),
        Ok(None)
    );
    assert_eq!(
        line(&mut node, r#"{"src":"c1","dest":"n1","body":{"type":5,"msg_id":1}}"#),
        Ok(None)
    );
    assert_eq!(line(&mut node, r#"{"src":"c1","dest":"n1","body":{}}"#), Ok(None));
}

#[test]
fn handlers_build_correlated_replies() {
    assert_eq!(handle_init(5, 9), Body::InitOk { msg_id: 9, in_reply_to: 5 });
    assert_eq!(
        handle_echo(5, b"pay".to_vec(), 9),
        Body::EchoOk { msg_id: 9, in_reply_to: 5, echo: b"pay".to_vec() }
    );
}

#[test]
fn dispatch_swaps_src_and_dest() {
    let mut node = Node::new();
    let env = Envelope {
        src: b"client".to_vec(),
        dest: b"server".to_vec(),
        body: Body::Init { msg_id: 8 },
    };
    let rep = node.dispatch(&env).unwrap();
    assert_eq!(rep.src, b"server".to_vec());
    assert_eq!(rep.dest, b"client".to_vec());
    assert_eq!(rep.body, Body::InitOk { msg_id: 1, in_reply_to: 8 });
    assert_eq!(node.next_msg_id, 2);
}
