//! Laws of the relay over any sequence of requests from any connections.
//!
//! Connections run concurrently, but every request reaches the registry one
//! at a time; a sequence of `(connection, request)` pairs is one such
//! interleaving, and the laws hold for every one.

use vstd::prelude::*;
use crate::codec::{ClientMsg, ServerMsg};
use crate::connection::{no_group_text, request_effect};
use crate::group::{joined, ConnId, GroupView};
use crate::group_table::{create_effect, find, lemma_find_some, lemma_find_update, names_unique};

verus! {

/// The table after the requests `reqs` are carried out in order from `t`.
pub open spec fn run(t: Seq<GroupView>, reqs: Seq<(ConnId, ClientMsg)>) -> Seq<GroupView>
    decreases reqs.len(),
{
    if reqs.len() == 0 {
        t
    } else {
        request_effect(run(t, reqs.drop_last()), reqs.last().0, reqs.last().1).0
    }
}

/// The connections that joined group `g` in `reqs`, in order, once per join.
pub open spec fn joins_to(reqs: Seq<(ConnId, ClientMsg)>, g: Seq<char>) -> Seq<ConnId>
    decreases reqs.len(),
{
    if reqs.len() == 0 {
        Seq::empty()
    } else if reqs.last().1 == (ClientMsg::Join { group_name: g }) {
        joins_to(reqs.drop_last(), g).push(reqs.last().0)
    } else {
        joins_to(reqs.drop_last(), g)
    }
}

/// The members of the group named `g` in `t`; none where there is no such
/// group.
pub open spec fn members_of(t: Seq<GroupView>, g: Seq<char>) -> Seq<ConnId> {
    match find(t, g) {
        Some(i) => t[i].members,
        None => Seq::empty(),
    }
}

/// One request keeps names unique and every group's index, creates `g` only
/// by a join to it, and adds `conn` to `g` exactly when it is a join to `g`.
proof fn lemma_step(t: Seq<GroupView>, conn: ConnId, req: ClientMsg, g: Seq<char>)
    requires
        names_unique(t),
    ensures
        names_unique(request_effect(t, conn, req).0),
        find(t, g) matches Some(i) ==> find(request_effect(t, conn, req).0, g) == Some(i),
        find(request_effect(t, conn, req).0, g) is Some <==> (find(t, g) is Some || req == (
        ClientMsg::Join { group_name: g })),
        members_of(request_effect(t, conn, req).0, g) == if req == (ClientMsg::Join {
            group_name: g,
        }) {
            members_of(t, g).push(conn)
        } else {
            members_of(t, g)
        },
{
    match req {
        ClientMsg::Post { .. } => {},
        ClientMsg::Join { group_name } => {
            let g2 = group_name;
            let (t1, i) = create_effect(t, g2);
            lemma_find_some(t, g2);
            lemma_find_some(t, g);
            if find(t, g2) is None {
                assert(t1.drop_last() =~= t);
                assert(names_unique(t1)) by {
                    assert forall|a: int, b: int| 0 <= a < b < t1.len() implies t1[a].name
                        != t1[b].name by {
                        if b == t1.len() - 1 {
                            assert(t1[a] == t[a]);
                        } else {
                            assert(t1[a] == t[a] && t1[b] == t[b]);
                        }
                    }
                }
            }
            assert(find(t1, g2) == Some(i));
            assert(g != g2 ==> find(t1, g) == find(t, g));
            let j = joined(t1[i], conn);
            let t2 = t1.update(i, j);
            lemma_find_update(t1, i, j, g);
            assert(names_unique(t2)) by {
                assert forall|a: int, b: int| 0 <= a < b < t2.len() implies t2[a].name
                    != t2[b].name by {
                    assert(t2[a].name == t1[a].name && t2[b].name == t1[b].name);
                }
            }
            if g != g2 {
                lemma_find_some(t1, g);
                if let Some(k) = find(t1, g) {
                    assert(k != i);
                    assert(t2[k] == t1[k]);
                    assert(k < t.len());
                    assert(t1[k] == t[k]);
                }
            }
        },
    }
}

/// Carrying out `reqs` keeps names unique and every group's index, adds to
/// `g` exactly the connections that joined it, in order, and creates `g`
/// only where some request joined it.
pub proof fn lemma_run(t: Seq<GroupView>, reqs: Seq<(ConnId, ClientMsg)>, g: Seq<char>)
    requires
        names_unique(t),
    ensures
        names_unique(run(t, reqs)),
        members_of(run(t, reqs), g) == members_of(t, g) + joins_to(reqs, g),
        find(t, g) matches Some(i) ==> find(run(t, reqs), g) == Some(i),
        find(run(t, reqs), g) is Some <==> (find(t, g) is Some || joins_to(reqs, g).len() > 0),
    decreases reqs.len(),
{
    if reqs.len() == 0 {
        assert(members_of(t, g) + Seq::<ConnId>::empty() =~= members_of(t, g));
    } else {
        let before = reqs.drop_last();
        lemma_run(t, before, g);
        lemma_step(run(t, before), reqs.last().0, reqs.last().1, g);
        if reqs.last().1 == (ClientMsg::Join { group_name: g }) {
            assert(members_of(t, g) + joins_to(before, g).push(reqs.last().0) =~= (members_of(t, g)
                + joins_to(before, g)).push(reqs.last().0));
        }
    }
}

/// Every member of a group receives exactly one `Message` frame for each
/// post to the group made after it joined: whatever the interleaving `reqs`
/// of joins and posts from any connections, a later post to `g` sends one
/// frame to each connection per join to `g` in `reqs`, in join order, and
/// nothing to anyone else. Where no connection joined `g`, the post sends
/// only an `Error` frame, to the poster.
pub proof fn lemma_post_reaches_each_join(
    reqs: Seq<(ConnId, ClientMsg)>,
    poster: ConnId,
    g: Seq<char>,
    message: Seq<char>,
)
    ensures
        request_effect(run(Seq::empty(), reqs), poster, ClientMsg::Post { group_name: g, message })
            == (run(Seq::empty(), reqs), if joins_to(reqs, g).len() > 0 {
            joins_to(reqs, g).map_values(
                |c: ConnId| (c, ServerMsg::Message { group_name: g, message: message }),
            )
        } else {
            seq![(poster, ServerMsg::Error(no_group_text(g)))]
        }),
{
    let empty = Seq::<GroupView>::empty();
    let t = run(empty, reqs);
    lemma_run(empty, reqs, g);
    lemma_find_some(t, g);
    if let Some(i) = find(t, g) {
        assert(members_of(empty, g) + joins_to(reqs, g) =~= joins_to(reqs, g));
    }
}

/// Looking up or creating one name twice gives one group: the second call
/// returns the index the first gave and changes nothing, and exactly one
/// group bears the name.
pub proof fn lemma_get_or_create_twice(t: Seq<GroupView>, name: Seq<char>)
    requires
        names_unique(t),
    ensures
        create_effect(create_effect(t, name).0, name) == create_effect(t, name),
        names_unique(create_effect(t, name).0),
        forall|k: int|
            0 <= k < create_effect(t, name).0.len() ==> (#[trigger] create_effect(t, name).0[k].name
                == name <==> k == create_effect(t, name).1),
{
    let (t1, i) = create_effect(t, name);
    lemma_step(t, 0, ClientMsg::Join { group_name: name }, name);
    lemma_find_some(t, name);
    if find(t, name) is None {
        assert(t1.drop_last() =~= t);
        assert(names_unique(t1)) by {
            assert forall|a: int, b: int| 0 <= a < b < t1.len() implies t1[a].name
                != t1[b].name by {
                if b == t1.len() - 1 {
                    assert(t1[a] == t[a]);
                } else {
                    assert(t1[a] == t[a] && t1[b] == t[b]);
                }
            }
        }
    }
    assert(find(t1, name) == Some(i));
    lemma_find_some(t1, name);
}

/// A group keeps its index through any later requests: every caller that
/// looks it up, before or after others create, join or post, finds the one
/// group created first.
pub proof fn lemma_group_identity_stable(
    t: Seq<GroupView>,
    reqs: Seq<(ConnId, ClientMsg)>,
    g: Seq<char>,
)
    requires
        names_unique(t),
    ensures
        find(t, g) matches Some(i) ==> find(run(t, reqs), g) == Some(i),
{
    lemma_run(t, reqs, g);
}

/// Requests that all join `g` leave one table of one group.
proof fn lemma_joins_one_group(reqs: Seq<(ConnId, ClientMsg)>, g: Seq<char>)
    requires
        forall|k: int| 0 <= k < reqs.len() ==> (#[trigger] reqs[k]).1 == (ClientMsg::Join {
            group_name: g,
        }),
    ensures
        run(Seq::empty(), reqs).len() == if reqs.len() == 0 {
            0int
        } else {
            1int
        },
        reqs.len() > 0 ==> run(Seq::empty(), reqs)[0].name == g,
        joins_to(reqs, g) == reqs.map_values(|p: (ConnId, ClientMsg)| p.0),
    decreases reqs.len(),
{
    if reqs.len() > 0 {
        let before = reqs.drop_last();
        assert forall|k: int| 0 <= k < before.len() implies (#[trigger] before[k]).1
            == (ClientMsg::Join { group_name: g }) by {
            assert(before[k] == reqs[k]);
        }
        lemma_joins_one_group(before, g);
        let t = run(Seq::<GroupView>::empty(), before);
        assert(reqs.last() == reqs[reqs.len() - 1]);
        if before.len() > 0 {
            assert(find(t, g) == Some(0int));
        }
        assert(reqs.map_values(|p: (ConnId, ClientMsg)| p.0) =~= before.map_values(
            |p: (ConnId, ClientMsg)| p.0,
        ).push(reqs.last().0));
    }
}

/// Any number of joins naming one new group, from any connections, create
/// exactly one group, whose members are the joining connections, one per
/// join.
pub proof fn lemma_joins_make_one_group(reqs: Seq<(ConnId, ClientMsg)>, g: Seq<char>)
    requires
        reqs.len() > 0,
        forall|k: int| 0 <= k < reqs.len() ==> (#[trigger] reqs[k]).1 == (ClientMsg::Join {
            group_name: g,
        }),
    ensures
        run(Seq::empty(), reqs) == seq![
            GroupView { name: g, members: reqs.map_values(|p: (ConnId, ClientMsg)| p.0) },
        ],
{
    let empty = Seq::<GroupView>::empty();
    let t = run(empty, reqs);
    lemma_joins_one_group(reqs, g);
    lemma_run(empty, reqs, g);
    assert(find(t, g) == Some(0int));
    assert(members_of(empty, g) + joins_to(reqs, g) =~= joins_to(reqs, g));
    assert(t =~= seq![GroupView { name: g, members: reqs.map_values(|p: (ConnId, ClientMsg)| p.0) }]);
}

} // verus!
