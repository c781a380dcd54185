//! One named channel: its membership map from identity to connection handle,
//! kept as a vector whose identities are pairwise distinct.
use vstd::prelude::*;

verus! {

/// One registered member: the identity it joined under and the handle of
/// the connection that holds that identity.
pub struct Member {
    pub identity: String,
    pub conn: u64,
}

/// The identities of a sequence of members, in order.
pub open spec fn ids(s: Seq<Member>) -> Seq<Seq<char>> {
    s.map_values(|m: Member| m.identity@)
}

/// The views of a sequence of strings.
pub open spec fn texts(s: Seq<String>) -> Seq<Seq<char>> {
    s.map_values(|t: String| t@)
}

/// The membership map that a sequence of members stands for.
pub open spec fn member_map(s: Seq<Member>) -> Map<Seq<char>, u64> {
    Map::new(
        |id: Seq<char>| ids(s).contains(id),
        |id: Seq<char>| s[slot_of(s, id)].conn,
    )
}

/// A position at which `id` stands among the members, when it stands anywhere.
pub open spec fn slot_of(s: Seq<Member>, id: Seq<char>) -> int {
    choose|i: int| 0 <= i < s.len() && #[trigger] s[i].identity@ == id
}

/// What a channel is: its name, the handle of its primary (asymmetric
/// channels only) and its members by identity.
pub struct ChannelState {
    pub name: Seq<char>,
    pub primary: Option<u64>,
    pub members: Map<Seq<char>, u64>,
}

/// A channel. In a symmetric channel every participant is a member and
/// `primary` is `None`; in an asymmetric one the primary is held apart
/// and the members are its secondaries.
pub struct Channel {
    name: String,
    primary: Option<u64>,
    members: Vec<Member>,
}

impl View for Channel {
    type V = ChannelState;

    closed spec fn view(&self) -> ChannelState {
        ChannelState { name: self.name@, primary: self.primary, members: member_map(self.members@) }
    }
}

/// With distinct identities, the map holds each member at its own identity.
pub proof fn lemma_member_map_at(s: Seq<Member>, i: int)
    requires
        ids(s).no_duplicates(),
        0 <= i < s.len(),
    ensures
        member_map(s).contains_key(s[i].identity@),
        member_map(s)[s[i].identity@] == s[i].conn,
{
    let id = s[i].identity@;
    assert(ids(s)[i] == id);
    assert(ids(s).contains(id));
    assert(0 <= i < s.len() && s[i].identity@ == id);
    let j = slot_of(s, id);
    assert(ids(s)[j] == id);
    assert(j == i);
    assert(member_map(s)[id] == s[j].conn);
}

/// An identity is in the map exactly when some member carries it.
pub proof fn lemma_member_map_has(s: Seq<Member>, id: Seq<char>)
    ensures
        member_map(s).contains_key(id) <==> exists|i: int| 0 <= i < s.len() && #[trigger] s[i].identity@ == id,
{
    if member_map(s).contains_key(id) {
        let k = choose|k: int| 0 <= k < ids(s).len() && ids(s)[k] == id;
        assert(s[k].identity@ == id);
    }
    if exists|i: int| 0 <= i < s.len() && #[trigger] s[i].identity@ == id {
        let k = choose|k: int| 0 <= k < s.len() && #[trigger] s[k].identity@ == id;
        assert(ids(s)[k] == id);
    }
}

/// Distinct identities give a finite map with one key per member.
pub proof fn lemma_member_map_len(s: Seq<Member>)
    requires
        ids(s).no_duplicates(),
    ensures
        member_map(s).dom() == ids(s).to_set(),
        member_map(s).dom().finite(),
        member_map(s).dom().len() == s.len(),
{
    assert(member_map(s).dom() =~= ids(s).to_set());
    ids(s).unique_seq_to_set();
    vstd::seq_lib::seq_to_set_is_finite(ids(s));
}

impl Channel {
    pub closed spec fn wf(&self) -> bool {
        ids(self.members@).no_duplicates()
    }

    /// A new channel without members.
    pub fn new(name: &str, primary: Option<u64>) -> (r: Channel)
        ensures
            r.wf(),
            r@.name == name@,
            r@.primary == primary,
            r@.members == Map::<Seq<char>, u64>::empty(),
    {
        let r = Channel { name: name.to_owned(), primary, members: Vec::new() };
        assert(r@.members =~= Map::<Seq<char>, u64>::empty());
        r
    }

    pub fn name(&self) -> (r: &String)
        ensures
            r@ == self@.name,
    {
        &self.name
    }

    pub fn primary(&self) -> (r: Option<u64>)
        ensures
            r == self@.primary,
    {
        self.primary
    }

    /// The position of the member that holds `identity`, if any.
    fn find(&self, identity: &String) -> (r: Option<usize>)
        ensures
            match r {
                Some(i) => i < self.members@.len() && self.members@[i as int].identity@ == identity@,
                None => forall|i: int|
                    0 <= i < self.members@.len() ==> #[trigger] self.members@[i].identity@ != identity@,
            },
    {
        let mut i: usize = 0;
        while i < self.members.len()
            invariant
                i <= self.members@.len(),
                forall|k: int| 0 <= k < i ==> #[trigger] self.members@[k].identity@ != identity@,
            decreases self.members@.len() - i,
        {
            if self.members[i].identity == *identity {
                return Some(i);
            }
            i = i + 1;
        }
        None
    }

    /// The handle registered under `identity`, if any.
    pub fn holder(&self, identity: &str) -> (r: Option<u64>)
        requires
            self.wf(),
        ensures
            r == (if self@.members.contains_key(identity@) {
                Some(self@.members[identity@])
            } else {
                None
            }),
    {
        let key = identity.to_owned();
        proof {
            lemma_member_map_has(self.members@, identity@);
        }
        match self.find(&key) {
            Some(i) => {
                proof {
                    lemma_member_map_at(self.members@, i as int);
                }
                Some(self.members[i].conn)
            },
            None => None,
        }
    }

    /// Registers `conn` under `identity`. A connection that already held
    /// `identity` is replaced, and its handle returned so that the caller
    /// can send it the forced close.
    pub fn add_member(&mut self, identity: &str, conn: u64) -> (evicted: Option<u64>)
        requires
            old(self).wf(),
        ensures
            final(self).wf(),
            final(self)@.name == old(self)@.name,
            final(self)@.primary == old(self)@.primary,
            final(self)@.members == old(self)@.members.insert(identity@, conn),
            evicted == (if old(self)@.members.contains_key(identity@) {
                Some(old(self)@.members[identity@])
            } else {
                None
            }),
    {
        let key = identity.to_owned();
        let ghost s0 = self.members@;
        proof {
            lemma_member_map_has(s0, identity@);
        }
        match self.find(&key) {
            Some(i) => {
                proof {
                    lemma_member_map_at(s0, i as int);
                }
                let old_conn = self.members[i].conn;
                self.members.set(i, Member { identity: key, conn });
                proof {
                    let s1 = self.members@;
                    assert(ids(s1) =~= ids(s0));
                    assert forall|id: Seq<char>| #[trigger]
                        member_map(s1).contains_key(id) == old(self)@.members.insert(
                            identity@,
                            conn,
                        ).contains_key(id) by {
                        lemma_member_map_has(s1, id);
                        lemma_member_map_has(s0, id);
                    }
                    assert forall|k: int| 0 <= k < s1.len() implies member_map(s1)[s1[k].identity@]
                        == old(self)@.members.insert(identity@, conn)[s1[k].identity@] by {
                        lemma_member_map_at(s1, k);
                        if k != i {
                            lemma_member_map_at(s0, k);
                            assert(s1[k] == s0[k]);
                            assert(ids(s1)[k] != ids(s1)[i as int]);
                        }
                    }
                    lemma_maps_agree(s1, old(self)@.members.insert(identity@, conn));
                }
                Some(old_conn)
            },
            None => {
                self.members.push(Member { identity: key, conn });
                proof {
                    let s1 = self.members@;
                    assert(ids(s1) =~= ids(s0).push(identity@));
                    assert forall|id: Seq<char>| #[trigger]
                        member_map(s1).contains_key(id) == old(self)@.members.insert(
                            identity@,
                            conn,
                        ).contains_key(id) by {
                        lemma_member_map_has(s1, id);
                        lemma_member_map_has(s0, id);
                        if exists|k: int| 0 <= k < s0.len() && #[trigger] s0[k].identity@ == id {
                            let k = choose|k: int| 0 <= k < s0.len() && #[trigger] s0[k].identity@ == id;
                            assert(s1[k] == s0[k]);
                        }
                        if id == identity@ {
                            assert(s1[s0.len() as int].identity@ == id);
                        }
                        if exists|k: int| 0 <= k < s1.len() && #[trigger] s1[k].identity@ == id {
                            let k = choose|k: int| 0 <= k < s1.len() && #[trigger] s1[k].identity@ == id;
                            if k < s0.len() {
                                assert(s1[k] == s0[k]);
                            }
                        }
                    }
                    assert forall|k: int| 0 <= k < s1.len() implies member_map(s1)[s1[k].identity@]
                        == old(self)@.members.insert(identity@, conn)[s1[k].identity@] by {
                        lemma_member_map_at(s1, k);
                        if k < s0.len() {
                            lemma_member_map_at(s0, k);
                            assert(s1[k] == s0[k]);
                            assert(ids(s1)[k] != ids(s1)[s0.len() as int]);
                        }
                    }
                    lemma_maps_agree(s1, old(self)@.members.insert(identity@, conn));
                }
                None
            },
        }
    }

    /// Removes whoever holds `identity`; absent identities are left alone.
    /// Returns whether a member was removed.
    pub fn remove_member(&mut self, identity: &str) -> (removed: bool)
        requires
            old(self).wf(),
        ensures
            final(self).wf(),
            final(self)@.name == old(self)@.name,
            final(self)@.primary == old(self)@.primary,
            final(self)@.members == old(self)@.members.remove(identity@),
            removed == old(self)@.members.contains_key(identity@),
    {
        let key = identity.to_owned();
        proof {
            lemma_member_map_has(self.members@, identity@);
        }
        match self.find(&key) {
            Some(i) => {
                proof {
                    lemma_remove_at(self.members@, i as int);
                }
                self.members.remove(i);
                true
            },
            None => {
                assert(old(self)@.members.remove(identity@) =~= old(self)@.members);
                false
            },
        }
    }

    /// Removes `identity` only while `conn` is the connection that holds
    /// it, so that a replaced connection cannot unregister its successor.
    /// Returns whether a member was removed.
    pub fn release(&mut self, identity: &str, conn: u64) -> (removed: bool)
        requires
            old(self).wf(),
        ensures
            final(self).wf(),
            final(self)@.name == old(self)@.name,
            final(self)@.primary == old(self)@.primary,
            removed == (old(self)@.members.contains_key(identity@) && old(self)@.members[identity@]
                == conn),
            final(self)@.members == if removed {
                old(self)@.members.remove(identity@)
            } else {
                old(self)@.members
            },
    {
        match self.holder(identity) {
            Some(c) => {
                if c == conn {
                    self.remove_member(identity)
                } else {
                    false
                }
            },
            None => false,
        }
    }

    /// Sets the primary of the channel, returning the one it replaces.
    pub fn set_primary(&mut self, primary: Option<u64>) -> (previous: Option<u64>)
        requires
            old(self).wf(),
        ensures
            final(self).wf(),
            final(self)@.name == old(self)@.name,
            final(self)@.members == old(self)@.members,
            final(self)@.primary == primary,
            previous == old(self)@.primary,
    {
        let previous = self.primary;
        self.primary = primary;
        previous
    }

    /// The number of members.
    pub fn member_count(&self) -> (n: usize)
        requires
            self.wf(),
        ensures
            self@.members.dom().finite(),
            n == self@.members.dom().len(),
    {
        proof {
            lemma_member_map_len(self.members@);
        }
        self.members.len()
    }

    /// The identities of the current members, each once, in no promised order.
    pub fn list_members(&self) -> (r: Vec<String>)
        requires
            self.wf(),
        ensures
            texts(r@).no_duplicates(),
            texts(r@).to_set() == self@.members.dom(),
    {
        let mut r: Vec<String> = Vec::new();
        let mut i: usize = 0;
        while i < self.members.len()
            invariant
                i <= self.members@.len(),
                r@.len() == i,
                forall|k: int| 0 <= k < i ==> #[trigger] r@[k]@ == ids(self.members@)[k],
            decreases self.members@.len() - i,
        {
            let t = self.members[i].identity.clone();
            assert(t@ == ids(self.members@)[i as int]);
            r.push(t);
            i = i + 1;
        }
        proof {
            assert forall|k: int| 0 <= k < r@.len() implies #[trigger] texts(r@)[k] == ids(
                self.members@,
            )[k] by {
                assert(r@[k]@ == ids(self.members@)[k]);
            }
            assert(texts(r@) =~= ids(self.members@));
            lemma_member_map_len(self.members@);
        }
        r
    }

    /// A copy of the members at this instant: the recipients of a broadcast.
    pub fn snapshot(&self) -> (r: Vec<Member>)
        requires
            self.wf(),
        ensures
            ids(r@).no_duplicates(),
            member_map(r@) == self@.members,
            r@.len() == self@.members.dom().len(),
    {
        let mut r: Vec<Member> = Vec::new();
        let mut i: usize = 0;
        while i < self.members.len()
            invariant
                i <= self.members@.len(),
                r@.len() == i,
                forall|k: int| 0 <= k < i ==> #[trigger] r@[k] == self.members@[k],
            decreases self.members@.len() - i,
        {
            let m = &self.members[i];
            r.push(Member { identity: m.identity.clone(), conn: m.conn });
            i = i + 1;
        }
        proof {
            assert(r@ =~= self.members@);
            lemma_member_map_len(self.members@);
        }
        r
    }
}

/// Removing one member removes its identity from the map and keeps the
/// identities distinct.
proof fn lemma_remove_at(s: Seq<Member>, i: int)
    requires
        ids(s).no_duplicates(),
        0 <= i < s.len(),
    ensures
        ids(s.remove(i)).no_duplicates(),
        member_map(s.remove(i)) == member_map(s).remove(s[i].identity@),
{
    let t = s.remove(i);
    let id = s[i].identity@;
    assert(ids(t) =~= ids(s).remove(i));
    assert forall|k: int| 0 <= k < t.len() implies #[trigger] t[k] == s[if k < i { k } else { k + 1 }] by {}
    assert forall|a: int, b: int| 0 <= a < t.len() && 0 <= b < t.len() && a != b implies ids(t)[a]
        != ids(t)[b] by {
        let a0 = if a < i { a } else { a + 1 };
        let b0 = if b < i { b } else { b + 1 };
        assert(ids(t)[a] == ids(s)[a0]);
        assert(ids(t)[b] == ids(s)[b0]);
    }
    assert forall|x: Seq<char>| #[trigger] member_map(t).contains_key(x) == member_map(s).remove(
        id,
    ).contains_key(x) by {
        lemma_member_map_has(t, x);
        lemma_member_map_has(s, x);
        if exists|k: int| 0 <= k < s.len() && #[trigger] s[k].identity@ == x {
            let k = choose|k: int| 0 <= k < s.len() && #[trigger] s[k].identity@ == x;
            if k != i {
                assert(ids(s)[k] != ids(s)[i]);
                let k1 = if k < i { k } else { k - 1 };
                assert(t[k1] == s[k]);
            }
        }
        if exists|k: int| 0 <= k < t.len() && #[trigger] t[k].identity@ == x {
            let k = choose|k: int| 0 <= k < t.len() && #[trigger] t[k].identity@ == x;
            let k0 = if k < i { k } else { k + 1 };
            assert(t[k] == s[k0]);
            assert(ids(s)[k0] != ids(s)[i]);
        }
    }
    assert forall|k: int| 0 <= k < t.len() implies member_map(t)[t[k].identity@] == member_map(
        s,
    ).remove(id)[t[k].identity@] by {
        let k0 = if k < i { k } else { k + 1 };
        assert(t[k] == s[k0]);
        lemma_member_map_at(t, k);
        lemma_member_map_at(s, k0);
        assert(ids(s)[k0] != ids(s)[i]);
    }
    lemma_maps_agree(t, member_map(s).remove(id));
}

/// A map with the same keys as the members, and the same value at each
/// member's identity, is the membership map.
proof fn lemma_maps_agree(s: Seq<Member>, m: Map<Seq<char>, u64>)
    requires
        ids(s).no_duplicates(),
        forall|id: Seq<char>| #[trigger] member_map(s).contains_key(id) == m.contains_key(id),
        forall|k: int| 0 <= k < s.len() ==> member_map(s)[s[k].identity@] == m[s[k].identity@],
    ensures
        member_map(s) == m,
{
    assert forall|id: Seq<char>| #[trigger] member_map(s).contains_key(id) implies member_map(s)[id]
        == m[id] by {
        lemma_member_map_has(s, id);
        let k = choose|k: int| 0 <= k < s.len() && #[trigger] s[k].identity@ == id;
        assert(member_map(s)[s[k].identity@] == m[s[k].identity@]);
    }
    assert(member_map(s) =~= m);
}

} // verus!
