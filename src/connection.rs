//! The connection handler: what one decoded request, or one event on a
//! connection's input, does to the registry and which frames it sends.
//!
//! The handler holds no I/O: a driver reads lines from the connection, hands
//! each to [`handle_event`] and writes the returned frames to their sinks.

use vstd::prelude::*;
use crate::codec::{client_of, decode_client, line_body, ClientMsg, FromClient, FromServer, ServerMsg};
use crate::group::{deliveries_view, fan_out, joined, ConnId, Delivery, GroupView};
use crate::group_table::{create_effect, find, lemma_find_some, GroupTable};

verus! {

/// What happened on a connection's input.
#[derive(Debug, PartialEq, Eq)]
pub enum Event {
    /// One line arrived.
    Line(String),
    /// The stream ended.
    Ended,
    /// Reading failed.
    ReadFailed,
}

/// The state of a connection after an event.
#[derive(Debug, Clone, Copy, PartialEq, Eq, Structural)]
pub enum Status {
    /// Waiting for the next line.
    Open,
    /// The stream ended; the session is over.
    Closed,
    /// A read or a decode failed; the session is over.
    Failed,
}

/// The outcome of one event: the connection's new state and the frames to
/// write.
#[derive(Debug, PartialEq, Eq)]
pub struct Step {
    pub status: Status,
    pub deliveries: Vec<Delivery>,
}

/// The text of the error sent to a poster whose group does not exist.
pub open spec fn no_group_text(group_name: Seq<char>) -> Seq<char> {
    "Group "@ + group_name + " does not exist "@
}

/// What request `req` from connection `conn` does to table `t`, and the
/// frames it sends.
///
/// A join finds or creates the group and adds `conn` to it, sending
/// nothing. A post to an existing group sends one `Message` frame to each of
/// its member slots; a post to a group that does not exist sends one `Error`
/// frame to the poster alone.
pub open spec fn request_effect(t: Seq<GroupView>, conn: ConnId, req: ClientMsg) -> (
    Seq<GroupView>,
    Seq<(ConnId, ServerMsg)>,
) {
    match req {
        ClientMsg::Join { group_name } => {
            let (t1, i) = create_effect(t, group_name);
            (t1.update(i, joined(t1[i], conn)), Seq::empty())
        },
        ClientMsg::Post { group_name, message } => match find(t, group_name) {
            Some(i) => (t, fan_out(t[i], message)),
            None => (t, seq![(conn, ServerMsg::Error(no_group_text(group_name)))]),
        },
    }
}

/// The error text for a post to the missing group `group_name`.
fn no_group_message(group_name: &String) -> (r: String)
    ensures
        r@ == no_group_text(group_name@),
{
    let mut text = String::from_str("Group ");
    text.append(group_name.as_str());
    text.append(" does not exist ");
    text
}

/// Carries out one request from connection `conn`.
pub fn handle_request(table: &mut GroupTable, conn: ConnId, request: &FromClient) -> (r: Vec<
    Delivery,
>)
    requires
        old(table).wf(),
    ensures
        final(table).wf(),
        (final(table)@, deliveries_view(r@)) == request_effect(old(table)@, conn, request@),
{
    match request {
        FromClient::Join { group_name } => {
            let id = table.get_or_create(group_name.as_str());
            proof {
                lemma_find_some(old(table)@, group_name@);
            }
            table.join(id, conn);
            let r: Vec<Delivery> = Vec::new();
            assert(deliveries_view(r@) =~= Seq::empty());
            r
        },
        FromClient::Post { group_name, message } => match table.get(group_name.as_str()) {
            Some(id) => {
                proof {
                    lemma_find_some(table@, group_name@);
                }
                table.post(id, message.as_str())
            },
            None => {
                let mut r: Vec<Delivery> = Vec::new();
                r.push(Delivery { to: conn, frame: FromServer::Error(no_group_message(group_name)) });
                assert(deliveries_view(r@) =~= seq![
                    (conn, ServerMsg::Error(no_group_text(group_name@))),
                ]);
                r
            },
        },
    }
}

/// Whether a failed write of `delivery` ends the session of connection
/// `conn`: only a direct reply to it does, that is an `Error` frame addressed
/// to it. A failed broadcast write only makes that member unreachable.
pub fn write_failure_ends_session(conn: ConnId, delivery: &Delivery) -> (r: bool)
    ensures
        r == (delivery.to == conn && delivery.frame@ is Error),
{
    delivery.to == conn && match delivery.frame {
        FromServer::Error(_) => true,
        FromServer::Message { .. } => false,
    }
}

/// Handles one event on connection `conn`.
///
/// A line that holds a request is carried out and the connection stays
/// open. A malformed line, a failed read and the end of the stream end the
/// session; none of them touches the table or sends a frame.
pub fn handle_event(table: &mut GroupTable, conn: ConnId, event: &Event) -> (r: Step)
    requires
        old(table).wf(),
    ensures
        final(table).wf(),
        match event {
            Event::Line(line) => match client_of(line_body(line@)) {
                Some(req) => r.status == Status::Open && (final(table)@, deliveries_view(
                    r.deliveries@,
                )) == request_effect(old(table)@, conn, req),
                None => r.status == Status::Failed && final(table)@ == old(table)@
                    && r.deliveries@.len() == 0,
            },
            Event::Ended => r.status == Status::Closed && final(table)@ == old(table)@
                && r.deliveries@.len() == 0,
            Event::ReadFailed => r.status == Status::Failed && final(table)@ == old(table)@
                && r.deliveries@.len() == 0,
        },
{
    match event {
        Event::Line(line) => match decode_client(line.as_str()) {
            Ok(request) => {
                let deliveries = handle_request(table, conn, &request);
                Step { status: Status::Open, deliveries }
            },
            Err(_) => Step { status: Status::Failed, deliveries: Vec::new() },
        },
        Event::Ended => Step { status: Status::Closed, deliveries: Vec::new() },
        Event::ReadFailed => Step { status: Status::Failed, deliveries: Vec::new() },
    }
}

} // verus!
