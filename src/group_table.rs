//! The registry: every group by name, each created on its first reference
//! and kept for the table's lifetime. A group is identified by its index.

use vstd::prelude::*;
use crate::group::{deliveries_view, fan_out, joined, ConnId, Delivery, Group, GroupView};

verus! {

/// The index of a group in its table; it never changes once given.
pub type GroupId = usize;

/// The table's groups, in the order they were created.
pub struct GroupTable {
    groups: Vec<Group>,
}

impl View for GroupTable {
    type V = Seq<GroupView>;

    closed spec fn view(&self) -> Seq<GroupView> {
        self.groups@.map_values(|g: Group| g@)
    }
}

/// No two groups share a name.
pub open spec fn names_unique(t: Seq<GroupView>) -> bool {
    forall|i: int, j: int| 0 <= i < j < t.len() ==> t[i].name != t[j].name
}

/// The index of the group named `name`, if there is one.
pub open spec fn find(t: Seq<GroupView>, name: Seq<char>) -> Option<int>
    decreases t.len(),
{
    if t.len() == 0 {
        None
    } else if t.last().name == name {
        Some(t.len() - 1)
    } else {
        find(t.drop_last(), name)
    }
}

/// The table after a lookup-or-create of `name`, and the group's index.
pub open spec fn create_effect(t: Seq<GroupView>, name: Seq<char>) -> (Seq<GroupView>, int) {
    match find(t, name) {
        Some(i) => (t, i),
        None => (t.push(GroupView { name: name, members: Seq::empty() }), t.len() as int),
    }
}

/// What `find` returns names a group of that name.
pub proof fn lemma_find_some(t: Seq<GroupView>, name: Seq<char>)
    ensures
        find(t, name) matches Some(i) ==> 0 <= i < t.len() && t[i].name == name,
        find(t, name) is None ==> forall|i: int| 0 <= i < t.len() ==> t[i].name != name,
    decreases t.len(),
{
    if t.len() > 0 {
        lemma_find_some(t.drop_last(), name);
        if find(t, name) is None {
            assert forall|i: int| 0 <= i < t.len() implies t[i].name != name by {
                if i < t.len() - 1 {
                    assert(t[i] == t.drop_last()[i]);
                }
            }
        }
    }
}

/// Replacing a group by one of the same name leaves every lookup as it was.
pub proof fn lemma_find_update(t: Seq<GroupView>, i: int, g: GroupView, name: Seq<char>)
    requires
        0 <= i < t.len(),
        g.name == t[i].name,
    ensures
        find(t.update(i, g), name) == find(t, name),
    decreases t.len(),
{
    let u = t.update(i, g);
    if i < t.len() - 1 {
        assert(u.drop_last() =~= t.drop_last().update(i, g));
        lemma_find_update(t.drop_last(), i, g, name);
    } else {
        assert(u.drop_last() =~= t.drop_last());
    }
}

impl GroupTable {
    /// The well-formedness of a table: group names are unique.
    pub open spec fn wf(&self) -> bool {
        names_unique(self@)
    }

    /// An empty table.
    pub fn new() -> (r: GroupTable)
        ensures
            r.wf(),
            r@ == Seq::<GroupView>::empty(),
    {
        let r = GroupTable { groups: Vec::new() };
        assert(r@ =~= Seq::<GroupView>::empty());
        r
    }

    /// The number of groups.
    pub fn len(&self) -> (r: usize)
        ensures
            r == self@.len(),
    {
        self.groups.len()
    }

    /// The group at `id`.
    pub fn group(&self, id: GroupId) -> (r: &Group)
        requires
            id < self@.len(),
        ensures
            r@ == self@[id as int],
    {
        &self.groups[id]
    }

    /// Looks up the group named `name`.
    pub fn get(&self, name: &str) -> (r: Option<GroupId>)
        ensures
            r matches Some(i) ==> find(self@, name@) == Some(i as int),
            r is None ==> find(self@, name@) is None,
    {
        let key = String::from_str(name);
        let mut i: usize = self.groups.len();
        assert(self@.subrange(0, i as int) =~= self@);
        while i > 0
            invariant
                i <= self@.len(),
                self@.len() == self.groups@.len(),
                key@ == name@,
                find(self@, name@) == find(self@.subrange(0, i as int), name@),
            decreases i,
        {
            i = i - 1;
            let ghost prefix = self@.subrange(0, i + 1);
            assert(prefix.drop_last() =~= self@.subrange(0, i as int));
            assert(prefix.last() == self.groups@[i as int]@);
            assert(prefix.len() == i + 1);
            if self.groups[i].is_named(&key) {
                assert(find(prefix, name@) == Some(i as int));
                return Some(i);
            }
            assert(find(prefix, name@) == find(prefix.drop_last(), name@));
        }
        assert(self@.subrange(0, 0) =~= Seq::<GroupView>::empty());
        None
    }

    /// Looks up the group named `name`, creating it empty if there is none.
    /// Two calls with one name give one group.
    pub fn get_or_create(&mut self, name: &str) -> (r: GroupId)
        requires
            old(self).wf(),
        ensures
            final(self).wf(),
            (final(self)@, r as int) == create_effect(old(self)@, name@),
    {
        match self.get(name) {
            Some(i) => i,
            None => {
                let ghost before = self@;
                let n = self.groups.len();
                self.groups.push(Group::new(name));
                proof {
                    assert(self@ =~= before.push(GroupView { name: name@, members: Seq::empty() }));
                    lemma_find_some(before, name@);
                }
                n
            },
        }
    }

    /// Adds `member` to the group at `id`.
    pub fn join(&mut self, id: GroupId, member: ConnId)
        requires
            old(self).wf(),
            id < old(self)@.len(),
        ensures
            final(self).wf(),
            final(self)@ == old(self)@.update(id as int, joined(old(self)@[id as int], member)),
    {
        let ghost before = self@;
        let mut g = self.groups.remove(id);
        g.join(member);
        self.groups.insert(id, g);
        assert(self@ =~= before.update(id as int, joined(before[id as int], member)));
    }

    /// The frames that a post of `message` to the group at `id` sends.
    pub fn post(&self, id: GroupId, message: &str) -> (r: Vec<Delivery>)
        requires
            id < self@.len(),
        ensures
            deliveries_view(r@) == fan_out(self@[id as int], message@),
    {
        self.groups[id].post(message)
    }
}

} // verus!
