//! The wire codec: each message is one compact JSON record on its own line.
//!
//! Client to server:
//! `{"Join":{"group_name":G}}` and `{"Post":{"group_name":G,"message":M}}`.
//! Server to client:
//! `{"Message":{"group_name":G,"message":M}}` and `{"Error":M}`.
//! `G` and `M` are JSON string literals.

use vstd::prelude::*;
use crate::json::{
    find_literal_end, json_quote, json_string_value, json_unquote, lemma_quote_end, literal_end, quote,
};
use crate::text::chars_of;

verus! {

/// A request from a client.
#[derive(Debug, PartialEq, Eq)]
pub enum FromClient {
    Join { group_name: String },
    Post { group_name: String, message: String },
}

/// A frame sent from the server to a client.
#[derive(Debug, PartialEq, Eq)]
pub enum FromServer {
    Message { group_name: String, message: String },
    Error(String),
}

/// The abstract value of a [`FromClient`].
pub enum ClientMsg {
    Join { group_name: Seq<char> },
    Post { group_name: Seq<char>, message: Seq<char> },
}

/// The abstract value of a [`FromServer`].
pub enum ServerMsg {
    Message { group_name: Seq<char>, message: Seq<char> },
    Error(Seq<char>),
}

impl View for FromClient {
    type V = ClientMsg;

    open spec fn view(&self) -> ClientMsg {
        match self {
            FromClient::Join { group_name } => ClientMsg::Join { group_name: group_name@ },
            FromClient::Post { group_name, message } => ClientMsg::Post {
                group_name: group_name@,
                message: message@,
            },
        }
    }
}

impl View for FromServer {
    type V = ServerMsg;

    open spec fn view(&self) -> ServerMsg {
        match self {
            FromServer::Message { group_name, message } => ServerMsg::Message {
                group_name: group_name@,
                message: message@,
            },
            FromServer::Error(message) => ServerMsg::Error(message@),
        }
    }
}

/// A line that is not one of the protocol's records.
#[derive(Debug, PartialEq, Eq)]
pub enum DecodeError {
    Malformed,
}

/// What a join record holds before its group name.
pub open spec fn join_head() -> Seq<char> {
    "{\"Join\":{\"group_name\":"@
}

/// What a post record holds before its group name.
pub open spec fn post_head() -> Seq<char> {
    "{\"Post\":{\"group_name\":"@
}

/// What a message record holds before its group name.
pub open spec fn message_head() -> Seq<char> {
    "{\"Message\":{\"group_name\":"@
}

/// What an error record holds before its text.
pub open spec fn error_head() -> Seq<char> {
    "{\"Error\":"@
}

/// What stands between the group name and the message text.
pub open spec fn message_field() -> Seq<char> {
    ",\"message\":"@
}

/// The end of an error record.
pub open spec fn close_one() -> Seq<char> {
    "}"@
}

/// The end of a record with two fields, or of a join.
pub open spec fn close_two() -> Seq<char> {
    "}}"@
}

/// The record of a client message, without its line terminator.
pub open spec fn client_text(m: ClientMsg) -> Seq<char> {
    match m {
        ClientMsg::Join { group_name } => join_head() + quote(group_name) + close_two(),
        ClientMsg::Post { group_name, message } => post_head() + quote(group_name)
            + message_field() + quote(message) + close_two(),
    }
}

/// The record of a server message, without its line terminator.
pub open spec fn server_text(m: ServerMsg) -> Seq<char> {
    match m {
        ServerMsg::Message { group_name, message } => message_head() + quote(group_name)
            + message_field() + quote(message) + close_two(),
        ServerMsg::Error(message) => error_head() + quote(message) + close_one(),
    }
}

/// Whether `pat` occurs in `t` at position `at`.
pub open spec fn occurs_at(t: Seq<char>, at: int, pat: Seq<char>) -> bool {
    0 <= at && at + pat.len() <= t.len() && t.subrange(at, at + pat.len()) == pat
}

/// The span of the one literal of a line shaped `head literal tail`.
pub open spec fn split_one(line: Seq<char>, head: Seq<char>, tail: Seq<char>) -> Option<(int, int)> {
    if occurs_at(line, 0, head) {
        match literal_end(line, head.len() as int) {
            Some(e) => if e + tail.len() == line.len() && occurs_at(line, e, tail) {
                Some((head.len() as int, e))
            } else {
                None
            },
            None => None,
        }
    } else {
        None
    }
}

/// The spans of the two literals of a line shaped
/// `head literal field literal tail`.
pub open spec fn split_two(line: Seq<char>, head: Seq<char>, field: Seq<char>, tail: Seq<char>) -> Option<
    (int, int, int, int),
> {
    if occurs_at(line, 0, head) {
        match literal_end(line, head.len() as int) {
            Some(e1) => if occurs_at(line, e1, field) {
                match literal_end(line, e1 + field.len()) {
                    Some(e2) => if e2 + tail.len() == line.len() && occurs_at(line, e2, tail) {
                        Some((head.len() as int, e1, e1 + field.len(), e2))
                    } else {
                        None
                    },
                    None => None,
                }
            } else {
                None
            },
            None => None,
        }
    } else {
        None
    }
}

/// The client message that `line` holds, if it holds one.
pub open spec fn client_of(line: Seq<char>) -> Option<ClientMsg> {
    match split_one(line, join_head(), close_two()) {
        Some((a, b)) => match json_string_value(line.subrange(a, b)) {
            Some(g) => Some(ClientMsg::Join { group_name: g }),
            None => None,
        },
        None => match split_two(line, post_head(), message_field(), close_two()) {
            Some((a, b, c, d)) => match (
                json_string_value(line.subrange(a, b)),
                json_string_value(line.subrange(c, d)),
            ) {
                (Some(g), Some(m)) => Some(ClientMsg::Post { group_name: g, message: m }),
                _ => None,
            },
            None => None,
        },
    }
}

/// The server message that `line` holds, if it holds one.
pub open spec fn server_of(line: Seq<char>) -> Option<ServerMsg> {
    match split_one(line, error_head(), close_one()) {
        Some((a, b)) => match json_string_value(line.subrange(a, b)) {
            Some(m) => Some(ServerMsg::Error(m)),
            None => None,
        },
        None => match split_two(line, message_head(), message_field(), close_two()) {
            Some((a, b, c, d)) => match (
                json_string_value(line.subrange(a, b)),
                json_string_value(line.subrange(c, d)),
            ) {
                (Some(g), Some(m)) => Some(ServerMsg::Message { group_name: g, message: m }),
                _ => None,
            },
            None => None,
        },
    }
}

/// A line without the one line terminator it may end with.
pub open spec fn line_body(line: Seq<char>) -> Seq<char> {
    if line.len() > 0 && line.last() == '\n' {
        line.drop_last()
    } else {
        line
    }
}

/// Where the literal of `head quote(s) tail` stands.
pub proof fn lemma_split_one_of(head: Seq<char>, s: Seq<char>, tail: Seq<char>)
    ensures
        split_one(head + quote(s) + tail, head, tail) == Some(
            (head.len() as int, (head.len() + quote(s).len()) as int),
        ),
        (head + quote(s) + tail).subrange(head.len() as int, (head.len() + quote(s).len()) as int)
            == quote(s),
{
    let line = head + quote(s) + tail;
    let h = head.len() as int;
    let q = quote(s).len() as int;
    assert(line.subrange(0, h) =~= head);
    assert(line.subrange(h, h + q) =~= quote(s));
    lemma_quote_end(line, h, s);
    assert(line.subrange(h + q, line.len() as int) =~= tail);
}

/// Where the two literals of `head quote(s1) field quote(s2) tail` stand.
pub proof fn lemma_split_two_of(
    head: Seq<char>,
    s1: Seq<char>,
    field: Seq<char>,
    s2: Seq<char>,
    tail: Seq<char>,
)
    ensures
        ({
            let line = head + quote(s1) + field + quote(s2) + tail;
            let a = head.len() as int;
            let b = a + quote(s1).len();
            let c = b + field.len();
            let d = c + quote(s2).len();
            &&& split_two(line, head, field, tail) == Some((a, b, c, d))
            &&& line.subrange(a, b) == quote(s1)
            &&& line.subrange(c, d) == quote(s2)
        }),
{
    let line = head + quote(s1) + field + quote(s2) + tail;
    let a = head.len() as int;
    let b = a + quote(s1).len();
    let c = b + field.len();
    let d = c + quote(s2).len();
    assert(line.subrange(0, a) =~= head);
    assert(line.subrange(a, b) =~= quote(s1));
    lemma_quote_end(line, a, s1);
    assert(line.subrange(b, c) =~= field);
    assert(line.subrange(c, d) =~= quote(s2));
    lemma_quote_end(line, c, s2);
    assert(line.subrange(d, line.len() as int) =~= tail);
}

/// A line that begins with `other` does not begin with `head` when the two
/// differ at position `k`.
proof fn lemma_other_head(line: Seq<char>, head: Seq<char>, other: Seq<char>, k: int)
    requires
        0 <= k < head.len(),
        k < other.len(),
        head[k] != other[k],
        occurs_at(line, 0, other),
    ensures
        !occurs_at(line, 0, head),
{
    assert(line[k] == line.subrange(0, other.len() as int)[k]);
    if occurs_at(line, 0, head) {
        assert(line[k] == line.subrange(0, head.len() as int)[k]);
    }
}

proof fn lemma_heads()
    ensures
        join_head().len() > 2 && post_head().len() > 2 && join_head()[2] != post_head()[2],
        error_head().len() > 2 && message_head().len() > 2 && error_head()[2]
            != message_head()[2],
{
    reveal_strlit("{\"Join\":{\"group_name\":");
    reveal_strlit("{\"Post\":{\"group_name\":");
    reveal_strlit("{\"Message\":{\"group_name\":");
    reveal_strlit("{\"Error\":");
}

/// How the record of a client message splits into its literals.
proof fn lemma_client_split(m: ClientMsg)
    ensures
        match m {
            ClientMsg::Join { group_name } => {
                let a = join_head().len() as int;
                let b = a + quote(group_name).len();
                &&& split_one(client_text(m), join_head(), close_two()) == Some((a, b))
                &&& client_text(m).subrange(a, b) == quote(group_name)
            },
            ClientMsg::Post { group_name, message } => {
                let a = post_head().len() as int;
                let b = a + quote(group_name).len();
                let c = b + message_field().len();
                let d = c + quote(message).len();
                &&& split_one(client_text(m), join_head(), close_two()) is None
                &&& split_two(client_text(m), post_head(), message_field(), close_two()) == Some(
                    (a, b, c, d),
                )
                &&& client_text(m).subrange(a, b) == quote(group_name)
                &&& client_text(m).subrange(c, d) == quote(message)
            },
        },
{
    match m {
        ClientMsg::Join { group_name } => {
            lemma_split_one_of(join_head(), group_name, close_two());
        },
        ClientMsg::Post { group_name, message } => {
            lemma_split_two_of(post_head(), group_name, message_field(), message, close_two());
            lemma_heads();
            lemma_other_head(client_text(m), join_head(), post_head(), 2);
        },
    }
}

/// How the record of a server message splits into its literals.
proof fn lemma_server_split(m: ServerMsg)
    ensures
        match m {
            ServerMsg::Error(message) => {
                let a = error_head().len() as int;
                let b = a + quote(message).len();
                &&& split_one(server_text(m), error_head(), close_one()) == Some((a, b))
                &&& server_text(m).subrange(a, b) == quote(message)
            },
            ServerMsg::Message { group_name, message } => {
                let a = message_head().len() as int;
                let b = a + quote(group_name).len();
                let c = b + message_field().len();
                let d = c + quote(message).len();
                &&& split_one(server_text(m), error_head(), close_one()) is None
                &&& split_two(server_text(m), message_head(), message_field(), close_two())
                    == Some((a, b, c, d))
                &&& server_text(m).subrange(a, b) == quote(group_name)
                &&& server_text(m).subrange(c, d) == quote(message)
            },
        },
{
    match m {
        ServerMsg::Error(message) => {
            lemma_split_one_of(error_head(), message, close_one());
        },
        ServerMsg::Message { group_name, message } => {
            lemma_split_two_of(message_head(), group_name, message_field(), message, close_two());
            lemma_heads();
            lemma_other_head(server_text(m), error_head(), message_head(), 2);
        },
    }
}

/// Whether `pat` occurs in `t` at position `at`.
fn occurs(t: &Vec<char>, at: usize, pat: &Vec<char>) -> (r: bool)
    ensures
        r == occurs_at(t@, at as int, pat@),
{
    if at > t.len() || pat.len() > t.len() - at {
        return false;
    }
    let mut k: usize = 0;
    while k < pat.len()
        invariant
            at + pat.len() <= t.len(),
            k <= pat.len(),
            forall|j: int| 0 <= j < k ==> t@[at + j] == pat@[j],
        decreases pat.len() - k,
    {
        if t[at + k] != pat[k] {
            assert(t@.subrange(at as int, at + pat.len())[k as int] != pat@[k as int]);
            return false;
        }
        k = k + 1;
    }
    assert(t@.subrange(at as int, at + pat.len()) =~= pat@);
    true
}

/// Finds the literal of a line shaped `head literal tail`.
fn find_one(line: &Vec<char>, head: &Vec<char>, tail: &Vec<char>) -> (r: Option<(usize, usize)>)
    ensures
        r matches Some((a, b)) ==> split_one(line@, head@, tail@) == Some((a as int, b as int)),
        r is None ==> split_one(line@, head@, tail@) is None,
        r matches Some((a, b)) ==> a <= b <= line@.len(),
{
    if !occurs(line, 0, head) {
        return None;
    }
    match find_literal_end(line, head.len()) {
        Some(e) => {
            if e <= line.len() && tail.len() == line.len() - e && occurs(line, e, tail) {
                Some((head.len(), e))
            } else {
                None
            }
        },
        None => None,
    }
}

/// Finds the two literals of a line shaped `head literal field literal tail`.
fn find_two(line: &Vec<char>, head: &Vec<char>, field: &Vec<char>, tail: &Vec<char>) -> (r: Option<
    (usize, usize, usize, usize),
>)
    ensures
        r matches Some((a, b, c, d)) ==> split_two(line@, head@, field@, tail@) == Some(
            (a as int, b as int, c as int, d as int),
        ),
        r is None ==> split_two(line@, head@, field@, tail@) is None,
        r matches Some((a, b, c, d)) ==> a <= b <= c <= d <= line@.len(),
{
    if !occurs(line, 0, head) {
        return None;
    }
    match find_literal_end(line, head.len()) {
        Some(e1) => {
            if !occurs(line, e1, field) {
                return None;
            }
            let n: usize = line.len();
            assert(e1 + field@.len() <= n);
            match find_literal_end(line, e1 + field.len()) {
                Some(e2) => {
                    if e2 <= line.len() && tail.len() == line.len() - e2 && occurs(line, e2, tail) {
                        Some((head.len(), e1, e1 + field.len(), e2))
                    } else {
                        None
                    }
                },
                None => None,
            }
        },
        None => None,
    }
}

/// Reads the string literal that spans `a..b` of `line`.
fn read_literal(line: &str, a: usize, b: usize) -> (r: Result<String, DecodeError>)
    requires
        a <= b <= line@.len(),
    ensures
        r matches Ok(v) ==> json_string_value(line@.subrange(a as int, b as int)) == Some(v@),
        r is Err ==> json_string_value(line@.subrange(a as int, b as int)) is None,
        forall|s: Seq<char>|
            #[trigger] quote(s) == line@.subrange(a as int, b as int) ==> (r matches Ok(v) && v@
                == s),
{
    match json_unquote(line.substring_char(a, b)) {
        Ok(v) => Ok(v),
        Err(_) => Err(DecodeError::Malformed),
    }
}

/// Appends the quoted form of `s` to `out`.
fn push_quoted(out: &mut String, s: &str)
    ensures
        final(out)@ == old(out)@ + quote(s@),
{
    let q = json_quote(s);
    out.append(q.as_str());
}

/// The frame of a client message: its record and a line terminator.
pub fn encode_client(m: &FromClient) -> (r: String)
    ensures
        r@ == client_text(m@) + seq!['\n'],
{
    let mut out = String::new();
    match m {
        FromClient::Join { group_name } => {
            out.append("{\"Join\":{\"group_name\":");
            push_quoted(&mut out, group_name.as_str());
            out.append("}}");
        },
        FromClient::Post { group_name, message } => {
            out.append("{\"Post\":{\"group_name\":");
            push_quoted(&mut out, group_name.as_str());
            out.append(",\"message\":");
            push_quoted(&mut out, message.as_str());
            out.append("}}");
        },
    }
    out.append("\n");
    proof {
        reveal_strlit("\n");
        assert(out@ =~= client_text(m@) + seq!['\n']);
    }
    out
}

/// The frame of a server message: its record and a line terminator.
pub fn encode_server(m: &FromServer) -> (r: String)
    ensures
        r@ == server_text(m@) + seq!['\n'],
{
    let mut out = String::new();
    match m {
        FromServer::Message { group_name, message } => {
            out.append("{\"Message\":{\"group_name\":");
            push_quoted(&mut out, group_name.as_str());
            out.append(",\"message\":");
            push_quoted(&mut out, message.as_str());
            out.append("}}");
        },
        FromServer::Error(message) => {
            out.append("{\"Error\":");
            push_quoted(&mut out, message.as_str());
            out.append("}");
        },
    }
    out.append("\n");
    proof {
        reveal_strlit("\n");
        assert(out@ =~= server_text(m@) + seq!['\n']);
    }
    out
}

/// The characters of `line` without its line terminator, if it has one.
fn body_chars(line: &str) -> (r: Vec<char>)
    ensures
        r@ == line_body(line@),
{
    let mut cs = chars_of(line);
    let n = cs.len();
    if n > 0 && cs[n - 1] == '\n' {
        cs.pop();
        assert(cs@ =~= line@.drop_last());
    }
    cs
}

/// Reads a client message from one line; a line terminator at its end is
/// ignored. Reads back exactly what [`encode_client`] wrote.
pub fn decode_client(line: &str) -> (r: Result<FromClient, DecodeError>)
    ensures
        r matches Ok(m) ==> client_of(line_body(line@)) == Some(m@),
        r is Err ==> client_of(line_body(line@)) is None,
        forall|m: ClientMsg|
            #[trigger] client_text(m) == line_body(line@) ==> (r matches Ok(x) && x@ == m),
{
    let cs = body_chars(line);
    let ghost body = line_body(line@);
    assert(body.len() <= line@.len());
    assert(forall|i: int, j: int| 0 <= i <= j <= body.len() ==> #[trigger] body.subrange(i, j)
        == line@.subrange(i, j));
    let join_head_cs = chars_of("{\"Join\":{\"group_name\":");
    let post_head_cs = chars_of("{\"Post\":{\"group_name\":");
    let field_cs = chars_of(",\"message\":");
    let close_cs = chars_of("}}");
    match find_one(&cs, &join_head_cs, &close_cs) {
        Some((a, b)) => {
            proof {
                assert forall|m: ClientMsg| #[trigger] client_text(m) == body implies (m is Join
                    && quote(m->Join_group_name) == line@.subrange(a as int, b as int)) by {
                    lemma_client_split(m);
                }
            }
            match read_literal(line, a, b) {
                Ok(g) => Ok(FromClient::Join { group_name: g }),
                Err(e) => Err(e),
            }
        },
        None => match find_two(&cs, &post_head_cs, &field_cs, &close_cs) {
            Some((a, b, c, d)) => {
                proof {
                    assert forall|m: ClientMsg| #[trigger] client_text(m) == body implies (m is Post
                        && quote(m->Post_group_name) == line@.subrange(a as int, b as int)
                        && quote(m->Post_message) == line@.subrange(c as int, d as int)) by {
                        lemma_client_split(m);
                    }
                }
                let g = read_literal(line, a, b);
                let msg = read_literal(line, c, d);
                match (g, msg) {
                    (Ok(g), Ok(msg)) => Ok(FromClient::Post { group_name: g, message: msg }),
                    _ => Err(DecodeError::Malformed),
                }
            },
            None => {
                proof {
                    assert forall|m: ClientMsg| #[trigger] client_text(m) != body by {
                        lemma_client_split(m);
                    }
                }
                Err(DecodeError::Malformed)
            },
        },
    }
}

/// Reads a server message from one line; a line terminator at its end is
/// ignored. Reads back exactly what [`encode_server`] wrote.
pub fn decode_server(line: &str) -> (r: Result<FromServer, DecodeError>)
    ensures
        r matches Ok(m) ==> server_of(line_body(line@)) == Some(m@),
        r is Err ==> server_of(line_body(line@)) is None,
        forall|m: ServerMsg|
            #[trigger] server_text(m) == line_body(line@) ==> (r matches Ok(x) && x@ == m),
{
    let cs = body_chars(line);
    let ghost body = line_body(line@);
    assert(body.len() <= line@.len());
    assert(forall|i: int, j: int| 0 <= i <= j <= body.len() ==> #[trigger] body.subrange(i, j)
        == line@.subrange(i, j));
    let error_head_cs = chars_of("{\"Error\":");
    let message_head_cs = chars_of("{\"Message\":{\"group_name\":");
    let field_cs = chars_of(",\"message\":");
    let close_one_cs = chars_of("}");
    let close_two_cs = chars_of("}}");
    match find_one(&cs, &error_head_cs, &close_one_cs) {
        Some((a, b)) => {
            proof {
                assert forall|m: ServerMsg| #[trigger] server_text(m) == body implies (m is Error
                    && quote(m->Error_0) == line@.subrange(a as int, b as int)) by {
                    lemma_server_split(m);
                }
            }
            match read_literal(line, a, b) {
                Ok(msg) => Ok(FromServer::Error(msg)),
                Err(e) => Err(e),
            }
        },
        None => match find_two(&cs, &message_head_cs, &field_cs, &close_two_cs) {
            Some((a, b, c, d)) => {
                proof {
                    assert forall|m: ServerMsg| #[trigger] server_text(m) == body implies (
                    m is Message && quote(m->Message_group_name) == line@.subrange(a as int, b as int)
                        && quote(m->Message_message) == line@.subrange(c as int, d as int)) by {
                        lemma_server_split(m);
                    }
                }
                let g = read_literal(line, a, b);
                let msg = read_literal(line, c, d);
                match (g, msg) {
                    (Ok(g), Ok(msg)) => Ok(FromServer::Message { group_name: g, message: msg }),
                    _ => Err(DecodeError::Malformed),
                }
            },
            None => {
                proof {
                    assert forall|m: ServerMsg| #[trigger] server_text(m) != body by {
                        lemma_server_split(m);
                    }
                }
                Err(DecodeError::Malformed)
            },
        },
    }
}

} // verus!
