//! The registry: the one table from channel name to channel. Channels are
//! created lazily on first join and erased only through `erase`.
use vstd::prelude::*;
use crate::channel::{Channel, ChannelState};

verus! {

/// The names of a sequence of channels, in order.
pub open spec fn names(s: Seq<Channel>) -> Seq<Seq<char>> {
    s.map_values(|c: Channel| c@.name)
}

/// A position at which a channel of that name stands, when one does.
pub open spec fn chan_slot(s: Seq<Channel>, name: Seq<char>) -> int {
    choose|i: int| 0 <= i < s.len() && #[trigger] s[i]@.name == name
}

/// The table that a sequence of channels stands for.
pub open spec fn channel_map(s: Seq<Channel>) -> Map<Seq<char>, ChannelState> {
    Map::new(|n: Seq<char>| names(s).contains(n), |n: Seq<char>| s[chan_slot(s, n)]@)
}

/// The state of a channel that was just created.
pub open spec fn fresh_channel(name: Seq<char>, primary: Option<u64>) -> ChannelState {
    ChannelState { name, primary, members: Map::empty() }
}

/// The channel table.
pub struct Registry {
    channels: Vec<Channel>,
}

impl View for Registry {
    type V = Map<Seq<char>, ChannelState>;

    closed spec fn view(&self) -> Map<Seq<char>, ChannelState> {
        channel_map(self.channels@)
    }
}

/// With distinct names, the table holds each channel under its own name.
proof fn lemma_channel_map_at(s: Seq<Channel>, i: int)
    requires
        names(s).no_duplicates(),
        0 <= i < s.len(),
    ensures
        channel_map(s).contains_key(s[i]@.name),
        channel_map(s)[s[i]@.name] == s[i]@,
{
    let n = s[i]@.name;
    assert(names(s)[i] == n);
    assert(names(s).contains(n));
    assert(0 <= i < s.len() && s[i]@.name == n);
    let j = chan_slot(s, n);
    assert(names(s)[j] == n);
    assert(j == i);
}

/// A name is in the table exactly when some channel bears it.
proof fn lemma_channel_map_has(s: Seq<Channel>, n: Seq<char>)
    ensures
        channel_map(s).contains_key(n) <==> exists|i: int| 0 <= i < s.len() && #[trigger] s[i]@.name == n,
{
    if channel_map(s).contains_key(n) {
        let k = choose|k: int| 0 <= k < names(s).len() && names(s)[k] == n;
        assert(s[k]@.name == n);
    }
    if exists|i: int| 0 <= i < s.len() && #[trigger] s[i]@.name == n {
        let k = choose|k: int| 0 <= k < s.len() && #[trigger] s[k]@.name == n;
        assert(names(s)[k] == n);
    }
}

/// A map with the same names, and the same state under each channel's
/// name, is the table.
proof fn lemma_channel_maps_agree(s: Seq<Channel>, m: Map<Seq<char>, ChannelState>)
    requires
        names(s).no_duplicates(),
        forall|n: Seq<char>| #[trigger] channel_map(s).contains_key(n) == m.contains_key(n),
        forall|k: int| 0 <= k < s.len() ==> channel_map(s)[s[k]@.name] == m[s[k]@.name],
    ensures
        channel_map(s) == m,
{
    assert forall|n: Seq<char>| #[trigger] channel_map(s).contains_key(n) implies channel_map(s)[n]
        == m[n] by {
        lemma_channel_map_has(s, n);
        let k = choose|k: int| 0 <= k < s.len() && #[trigger] s[k]@.name == n;
        assert(channel_map(s)[s[k]@.name] == m[s[k]@.name]);
    }
    assert(channel_map(s) =~= m);
}

/// Replacing the channel at one position by one of the same name updates
/// that one entry of the table.
proof fn lemma_channel_update(s: Seq<Channel>, i: int, c: Channel)
    requires
        names(s).no_duplicates(),
        0 <= i < s.len(),
        c@.name == s[i]@.name,
    ensures
        names(s.update(i, c)).no_duplicates(),
        channel_map(s.update(i, c)) == channel_map(s).insert(c@.name, c@),
{
    let t = s.update(i, c);
    assert(names(t) =~= names(s));
    assert forall|n: Seq<char>| #[trigger] channel_map(t).contains_key(n) == channel_map(s).insert(
        c@.name,
        c@,
    ).contains_key(n) by {
        lemma_channel_map_has(t, n);
        lemma_channel_map_has(s, n);
        if exists|k: int| 0 <= k < s.len() && #[trigger] s[k]@.name == n {
            let k = choose|k: int| 0 <= k < s.len() && #[trigger] s[k]@.name == n;
            assert(names(t)[k] == names(s)[k]);
        }
        if exists|k: int| 0 <= k < t.len() && #[trigger] t[k]@.name == n {
            let k = choose|k: int| 0 <= k < t.len() && #[trigger] t[k]@.name == n;
            assert(names(t)[k] == names(s)[k]);
        }
    }
    assert forall|k: int| 0 <= k < t.len() implies channel_map(t)[t[k]@.name] == channel_map(
        s,
    ).insert(c@.name, c@)[t[k]@.name] by {
        lemma_channel_map_at(t, k);
        if k != i {
            lemma_channel_map_at(s, k);
            assert(names(s)[k] != names(s)[i]);
        }
    }
    lemma_channel_maps_agree(t, channel_map(s).insert(c@.name, c@));
}

/// Appending a channel of a new name adds that one entry to the table.
proof fn lemma_channel_push(s: Seq<Channel>, c: Channel)
    requires
        names(s).no_duplicates(),
        !channel_map(s).contains_key(c@.name),
    ensures
        names(s.push(c)).no_duplicates(),
        channel_map(s.push(c)) == channel_map(s).insert(c@.name, c@),
{
    let t = s.push(c);
    lemma_channel_map_has(s, c@.name);
    assert(names(t) =~= names(s).push(c@.name));
    assert forall|n: Seq<char>| #[trigger] channel_map(t).contains_key(n) == channel_map(s).insert(
        c@.name,
        c@,
    ).contains_key(n) by {
        lemma_channel_map_has(t, n);
        lemma_channel_map_has(s, n);
        if exists|k: int| 0 <= k < s.len() && #[trigger] s[k]@.name == n {
            let k = choose|k: int| 0 <= k < s.len() && #[trigger] s[k]@.name == n;
            assert(t[k] == s[k]);
        }
        if n == c@.name {
            assert(t[s.len() as int]@.name == n);
        }
        if exists|k: int| 0 <= k < t.len() && #[trigger] t[k]@.name == n {
            let k = choose|k: int| 0 <= k < t.len() && #[trigger] t[k]@.name == n;
            if k < s.len() {
                assert(t[k] == s[k]);
            }
        }
    }
    assert forall|k: int| 0 <= k < t.len() implies channel_map(t)[t[k]@.name] == channel_map(
        s,
    ).insert(c@.name, c@)[t[k]@.name] by {
        lemma_channel_map_at(t, k);
        if k < s.len() {
            lemma_channel_map_at(s, k);
            assert(t[k] == s[k]);
        }
    }
    lemma_channel_maps_agree(t, channel_map(s).insert(c@.name, c@));
}

/// Removing one channel removes its name from the table.
proof fn lemma_channel_remove(s: Seq<Channel>, i: int)
    requires
        names(s).no_duplicates(),
        0 <= i < s.len(),
    ensures
        names(s.remove(i)).no_duplicates(),
        channel_map(s.remove(i)) == channel_map(s).remove(s[i]@.name),
{
    let t = s.remove(i);
    let n0 = s[i]@.name;
    assert(names(t) =~= names(s).remove(i));
    assert forall|k: int| 0 <= k < t.len() implies #[trigger] t[k] == s[if k < i { k } else { k + 1 }] by {}
    assert forall|n: Seq<char>| #[trigger] channel_map(t).contains_key(n) == channel_map(s).remove(
        n0,
    ).contains_key(n) by {
        lemma_channel_map_has(t, n);
        lemma_channel_map_has(s, n);
        if exists|k: int| 0 <= k < s.len() && #[trigger] s[k]@.name == n {
            let k = choose|k: int| 0 <= k < s.len() && #[trigger] s[k]@.name == n;
            if k != i {
                assert(names(s)[k] != names(s)[i]);
                let k1 = if k < i { k } else { k - 1 };
                assert(t[k1] == s[k]);
            }
        }
        if exists|k: int| 0 <= k < t.len() && #[trigger] t[k]@.name == n {
            let k = choose|k: int| 0 <= k < t.len() && #[trigger] t[k]@.name == n;
            let k0 = if k < i { k } else { k + 1 };
            assert(t[k] == s[k0]);
            assert(names(s)[k0] != names(s)[i]);
        }
    }
    assert forall|k: int| 0 <= k < t.len() implies channel_map(t)[t[k]@.name] == channel_map(
        s,
    ).remove(n0)[t[k]@.name] by {
        let k0 = if k < i { k } else { k + 1 };
        assert(t[k] == s[k0]);
        lemma_channel_map_at(t, k);
        lemma_channel_map_at(s, k0);
        assert(names(s)[k0] != names(s)[i]);
    }
    lemma_channel_maps_agree(t, channel_map(s).remove(n0));
}

impl Registry {
    /// Every channel is well formed and no two share a name.
    pub closed spec fn wf(&self) -> bool {
        &&& names(self.channels@).no_duplicates()
        &&& forall|i: int| 0 <= i < self.channels@.len() ==> #[trigger] self.channels@[i].wf()
    }

    /// An empty registry.
    pub fn new() -> (r: Registry)
        ensures
            r.wf(),
            r@ == Map::<Seq<char>, ChannelState>::empty(),
    {
        let r = Registry { channels: Vec::new() };
        assert(r@ =~= Map::<Seq<char>, ChannelState>::empty());
        r
    }

    fn find(&self, name: &str) -> (r: Option<usize>)
        requires
            self.wf(),
        ensures
            match r {
                Some(i) => i < self.channels@.len() && self.channels@[i as int]@.name == name@
                    && self@.contains_key(name@) && self@[name@] == self.channels@[i as int]@,
                None => !self@.contains_key(name@),
            },
    {
        let key = name.to_owned();
        proof {
            lemma_channel_map_has(self.channels@, name@);
        }
        let mut i: usize = 0;
        while i < self.channels.len()
            invariant
                i <= self.channels@.len(),
                forall|k: int| 0 <= k < i ==> #[trigger] self.channels@[k]@.name != name@,
                key@ == name@,
                self.wf(),
            decreases self.channels@.len() - i,
        {
            if *self.channels[i].name() == key {
                proof {
                    lemma_channel_map_at(self.channels@, i as int);
                }
                return Some(i);
            }
            i = i + 1;
        }
        None
    }

    /// Whether a channel of that name exists.
    pub fn contains(&self, name: &str) -> (r: bool)
        requires
            self.wf(),
        ensures
            r == self@.contains_key(name@),
    {
        self.find(name).is_some()
    }

    /// The channel of that name, or `None` when there is none.
    pub fn lookup(&self, name: &str) -> (r: Option<&Channel>)
        requires
            self.wf(),
        ensures
            match r {
                Some(c) => self@.contains_key(name@) && c@ == self@[name@] && c.wf(),
                None => !self@.contains_key(name@),
            },
    {
        match self.find(name) {
            Some(i) => Some(&self.channels[i]),
            None => None,
        }
    }

    /// Creates the channel `name` with the given primary unless it exists.
    /// Returns whether it was created. An existing channel is left as it is.
    pub fn resolve_or_create(&mut self, name: &str, primary: Option<u64>) -> (created: bool)
        requires
            old(self).wf(),
        ensures
            final(self).wf(),
            created == !old(self)@.contains_key(name@),
            final(self)@ == if created {
                old(self)@.insert(name@, fresh_channel(name@, primary))
            } else {
                old(self)@
            },
    {
        match self.find(name) {
            Some(_) => false,
            None => {
                let c = Channel::new(name, primary);
                proof {
                    lemma_channel_push(self.channels@, c);
                }
                self.channels.push(c);
                true
            },
        }
    }

    /// Removes the channel `name`, if there is one. Returns whether it did.
    pub fn erase(&mut self, name: &str) -> (erased: bool)
        requires
            old(self).wf(),
        ensures
            final(self).wf(),
            erased == old(self)@.contains_key(name@),
            final(self)@ == old(self)@.remove(name@),
    {
        match self.find(name) {
            Some(i) => {
                proof {
                    lemma_channel_remove(self.channels@, i as int);
                }
                self.channels.remove(i);
                true
            },
            None => {
                assert(old(self)@.remove(name@) =~= old(self)@);
                false
            },
        }
    }

    /// Registers `conn` under `identity` in the existing channel `name`;
    /// returns the connection that it replaces.
    pub fn add_member(&mut self, name: &str, identity: &str, conn: u64) -> (evicted: Option<u64>)
        requires
            old(self).wf(),
            old(self)@.contains_key(name@),
        ensures
            final(self).wf(),
            final(self)@ == old(self)@.insert(
                name@,
                ChannelState {
                    members: old(self)@[name@].members.insert(identity@, conn),
                    ..old(self)@[name@]
                },
            ),
            evicted == (if old(self)@[name@].members.contains_key(identity@) {
                Some(old(self)@[name@].members[identity@])
            } else {
                None
            }),
    {
        let i = self.find(name).unwrap();
        let ghost s0 = self.channels@;
        let evicted = self.channels[i].add_member(identity, conn);
        proof {
            lemma_channel_update(s0, i as int, self.channels@[i as int]);
            assert(self.channels@ == s0.update(i as int, self.channels@[i as int]));
        }
        evicted
    }

    /// Unregisters `identity` from channel `name` while `conn` holds it;
    /// returns whether it did.
    pub fn release(&mut self, name: &str, identity: &str, conn: u64) -> (removed: bool)
        requires
            old(self).wf(),
        ensures
            final(self).wf(),
            removed == (old(self)@.contains_key(name@) && old(self)@[name@].members.contains_key(
                identity@,
            ) && old(self)@[name@].members[identity@] == conn),
            final(self)@ == if removed {
                old(self)@.insert(
                    name@,
                    ChannelState {
                        members: old(self)@[name@].members.remove(identity@),
                        ..old(self)@[name@]
                    },
                )
            } else {
                old(self)@
            },
    {
        match self.find(name) {
            Some(i) => {
                let ghost s0 = self.channels@;
                let removed = self.channels[i].release(identity, conn);
                proof {
                    lemma_channel_update(s0, i as int, self.channels@[i as int]);
                    assert(self.channels@ == s0.update(i as int, self.channels@[i as int]));
                    if !removed {
                        assert(old(self)@.insert(name@, self.channels@[i as int]@) =~= old(self)@);
                    }
                }
                removed
            },
            None => false,
        }
    }

    /// Sets the primary of the existing channel `name`; returns the one it
    /// replaces.
    pub fn set_primary(&mut self, name: &str, primary: Option<u64>) -> (previous: Option<u64>)
        requires
            old(self).wf(),
            old(self)@.contains_key(name@),
        ensures
            final(self).wf(),
            final(self)@ == old(self)@.insert(
                name@,
                ChannelState { primary, ..old(self)@[name@] },
            ),
            previous == old(self)@[name@].primary,
    {
        let i = self.find(name).unwrap();
        let ghost s0 = self.channels@;
        let previous = self.channels[i].set_primary(primary);
        proof {
            lemma_channel_update(s0, i as int, self.channels@[i as int]);
            assert(self.channels@ == s0.update(i as int, self.channels@[i as int]));
        }
        previous
    }
}

} // verus!
