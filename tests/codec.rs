use async_chat::codec::{
    decode_client, decode_server, encode_client, encode_server, DecodeError, FromClient,
    FromServer,
};

fn join(g: &str) -> FromClient {
    FromClient::Join { group_name: g.to_string() }
}

fn post(g: &str, m: &str) -> FromClient {
    FromClient::Post { group_name: g.to_string(), message: m.to_string() }
}

fn message(g: &str, m: &str) -> FromServer {
    FromServer::Message { group_name: g.to_string(), message: m.to_string() }
}

#[test]
fn post_is_one_compact_record_per_line() {
    let frame = encode_client(&post("Dogs", "Samoyeds rock!"));
    assert_eq!(frame, "{\"Post\":{\"group_name\":\"Dogs\",\"message\":\"Samoyeds rock!\"}}\n");
}

#[test]
fn join_frame_text() {
    assert_eq!(encode_client(&join("lobby")), "{\"Join\":{\"group_name\":\"lobby\"}}\n");
}

#[test]
fn server_frame_texts() {
    assert_eq!(
        encode_server(&message("lobby", "hi")),
        "{\"Message\":{\"group_name\":\"lobby\",\"message\":\"hi\"}}\n"
    );
    assert_eq!(
        encode_server(&FromServer::Error("nope".to_string())),
        "{\"Error\":\"nope\"}\n"
    );
}

#[test]
fn special_characters_are_escaped() {
    let frame = encode_server(&FromServer::Error("a\"b\\c\nd\u{1}e".to_string()));
    assert_eq!(frame, "{\"Error\":\"a\\\"b\\\\c\\nd\\u0001e\"}\n");
    assert_eq!(frame.matches('\n').count(), 1);
}

#[test]
fn client_round_trip() {
    let cases = vec![
        join("lobby"),
        join(""),
        join("caf\u{e9} \u{1f600}"),
        post("lobby", "hi"),
        post("g\"q\\", "line\nbreak\ttab\u{0}\u{1f}\u{7f}"),
        post("\u{65e5}\u{672c}", "}}{\"Join\":"),
    ];
    for m in cases {
        let frame = encode_client(&m);
        assert_eq!(decode_client(&frame), Ok(m));
    }
}

#[test]
fn server_round_trip() {
    let cases = vec![
        message("lobby", "hi"),
        message("", ""),
        message("\u{1f600}", "\",\"message\":\""),
        FromServer::Error("Group ghost does not exist ".to_string()),
        FromServer::Error("\r\u{8}\u{c}\\".to_string()),
    ];
    for m in cases {
        let frame = encode_server(&m);
        assert_eq!(decode_server(&frame), Ok(m));
    }
}

#[test]
fn decode_without_terminator() {
    assert_eq!(decode_client("{\"Join\":{\"group_name\":\"x\"}}"), Ok(join("x")));
}

#[test]
fn decode_reads_other_json_escapes() {
    assert_eq!(
        decode_client("{\"Post\":{\"group_name\":\"\\u0041\\/\",\"message\":\"\\ud83d\\ude00\"}}"),
        Ok(post("A/", "\u{1f600}"))
    );
}

#[test]
fn malformed_lines_are_rejected() {
    let bad = vec![
        "",
        "hello",
        "{\"Join\":{\"group_name\":\"x\"}",
        "{\"Join\":{\"group_name\":\"x\"}}}",
        "{\"Join\":{\"group_name\":x}}",
        "{\"Leave\":{\"group_name\":\"x\"}}",
        "{\"Post\":{\"group_name\":\"x\"}}",
        "{\"Join\":{\"group_name\":\"bad \\q escape\"}}",
        "{\"Join\":{\"group_name\":\"raw\u{1}control\"}}",
        "{\"Post\":{\"group_name\":\"x\",\"message\":\"unterminated}}",
    ];
    for line in bad {
        assert_eq!(decode_client(line), Err(DecodeError::Malformed), "{}", line);
    }
    assert_eq!(decode_server("{\"Error\":1}"), Err(DecodeError::Malformed));
    assert_eq!(decode_server("{\"Join\":{\"group_name\":\"x\"}}"), Err(DecodeError::Malformed));
}
