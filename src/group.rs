//! A group: a named broadcast domain with an add-only list of members.

use vstd::prelude::*;
use crate::codec::{FromServer, ServerMsg};

verus! {

/// A member of a group: the id of the connection whose sink receives its
/// frames.
pub type ConnId = u64;

/// A frame addressed to one connection.
#[derive(Debug, PartialEq, Eq)]
pub struct Delivery {
    pub to: ConnId,
    pub frame: FromServer,
}

impl View for Delivery {
    type V = (ConnId, ServerMsg);

    open spec fn view(&self) -> (ConnId, ServerMsg) {
        (self.to, self.frame@)
    }
}

/// The abstract values of a list of deliveries.
pub open spec fn deliveries_view(ds: Seq<Delivery>) -> Seq<(ConnId, ServerMsg)> {
    ds.map_values(|d: Delivery| d@)
}

/// A group: its name, and its members in the order they joined. A
/// connection that joined twice is a member twice.
pub struct Group {
    name: String,
    members: Vec<ConnId>,
}

/// The abstract value of a [`Group`].
pub struct GroupView {
    pub name: Seq<char>,
    pub members: Seq<ConnId>,
}

impl View for Group {
    type V = GroupView;

    closed spec fn view(&self) -> GroupView {
        GroupView { name: self.name@, members: self.members@ }
    }
}

/// `g` after `member` joined it.
pub open spec fn joined(g: GroupView, member: ConnId) -> GroupView {
    GroupView { name: g.name, members: g.members.push(member) }
}

/// What a post of `message` to `g` sends: one `Message` frame to each member
/// slot, in membership order.
pub open spec fn fan_out(g: GroupView, message: Seq<char>) -> Seq<(ConnId, ServerMsg)> {
    g.members.map_values(
        |c: ConnId| (c, ServerMsg::Message { group_name: g.name, message: message }),
    )
}

impl Group {
    /// An empty group named `name`.
    pub fn new(name: &str) -> (g: Group)
        ensures
            g@ == (GroupView { name: name@, members: Seq::empty() }),
    {
        Group { name: String::from_str(name), members: Vec::new() }
    }

    /// The group's name.
    pub fn name(&self) -> (r: &str)
        ensures
            r@ == self@.name,
    {
        self.name.as_str()
    }

    /// Whether the group is named `name`.
    pub fn is_named(&self, name: &String) -> (r: bool)
        ensures
            r == (self@.name == name@),
    {
        self.name.eq(name)
    }

    /// The group's members, in the order they joined.
    pub fn members(&self) -> (r: &Vec<ConnId>)
        ensures
            r@ == self@.members,
    {
        &self.members
    }

    /// Adds `member`; a repeated join adds another slot.
    pub fn join(&mut self, member: ConnId)
        ensures
            final(self)@ == joined(old(self)@, member),
    {
        self.members.push(member);
    }

    /// The frames that a post of `message` sends: one per member slot.
    pub fn post(&self, message: &str) -> (r: Vec<Delivery>)
        ensures
            deliveries_view(r@) == fan_out(self@, message@),
    {
        let mut out: Vec<Delivery> = Vec::new();
        let mut i: usize = 0;
        while i < self.members.len()
            invariant
                i <= self.members@.len(),
                deliveries_view(out@) =~= fan_out(self@, message@).subrange(0, i as int),
            decreases self.members.len() - i,
        {
            let frame = FromServer::Message {
                group_name: self.name.clone(),
                message: String::from_str(message),
            };
            let d = Delivery { to: self.members[i], frame };
            let ghost before = out@;
            out.push(d);
            proof {
                assert(deliveries_view(out@) =~= deliveries_view(before).push(d@));
                assert(fan_out(self@, message@).subrange(0, i + 1) =~= fan_out(
                    self@,
                    message@,
                ).subrange(0, i as int).push(fan_out(self@, message@)[i as int]));
            }
            i = i + 1;
        }
        out
    }
}

} // verus!
