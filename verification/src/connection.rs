//! Saved SSH connections: their settings, the store that keys them by name,
//! and the actions on it that the interface defers to the end of a frame.
use vstd::prelude::*;
use crate::text::same_text;

verus! {

/// How a connection authenticates.
pub enum AuthMethod {
    Password(String),
    KeyFile(String),
}

impl Clone for AuthMethod {
    fn clone(&self) -> (r: Self)
        ensures
            r == *self,
    {
        match self {
            AuthMethod::Password(p) => AuthMethod::Password(p.clone()),
            AuthMethod::KeyFile(p) => AuthMethod::KeyFile(p.clone()),
        }
    }
}

/// The settings of one SSH connection.
pub struct SshConnection {
    pub name: String,
    pub host: String,
    pub port: u16,
    pub username: String,
    pub auth_method: AuthMethod,
}

impl Clone for SshConnection {
    fn clone(&self) -> (r: Self)
        ensures
            r == *self,
    {
        SshConnection {
            name: self.name.clone(),
            host: self.host.clone(),
            port: self.port,
            username: self.username.clone(),
            auth_method: self.auth_method.clone(),
        }
    }
}

/// The settings a new connection starts from.
pub open spec fn is_default_connection(c: SshConnection) -> bool {
    &&& c.name@ == "New Connection"@
    &&& c.host@ == "localhost"@
    &&& c.port == 22
    &&& c.username@ == "root"@
    &&& c.auth_method matches AuthMethod::Password(p) && p@ == Seq::<char>::empty()
}

impl Default for SshConnection {
    fn default() -> (c: Self)
        ensures
            is_default_connection(c),
    {
        SshConnection {
            name: String::from_str("New Connection"),
            host: String::from_str("localhost"),
            port: 22,
            username: String::from_str("root"),
            auth_method: AuthMethod::Password(String::new()),
        }
    }
}

/// The dialog in which a connection is created or edited.
pub struct NewConnectionDialog {
    pub show: bool,
    pub connection: SshConnection,
}

impl Clone for NewConnectionDialog {
    fn clone(&self) -> (r: Self)
        ensures
            r == *self,
    {
        NewConnectionDialog { show: self.show, connection: self.connection.clone() }
    }
}

impl Default for NewConnectionDialog {
    fn default() -> (d: Self)
        ensures
            !d.show,
            is_default_connection(d.connection),
    {
        NewConnectionDialog { show: false, connection: SshConnection::default() }
    }
}

/// A change to the saved connections, applied after the interface is drawn.
pub enum DeferredAction {
    SaveConnection(SshConnection),
    DeleteConnection(SshConnection),
}

/// The map that a sequence of (name, connection) entries describes; a later
/// entry for a name replaces an earlier one.
pub open spec fn entries_map(pairs: Seq<(String, SshConnection)>) -> Map<Seq<char>, SshConnection>
    decreases pairs.len(),
{
    if pairs.len() == 0 {
        Map::empty()
    } else {
        entries_map(pairs.drop_last()).insert(pairs.last().0@, pairs.last().1)
    }
}

/// No name occurs twice.
pub open spec fn names_unique(pairs: Seq<(String, SshConnection)>) -> bool {
    forall|i: int, j: int|
        0 <= i < j < pairs.len() ==> #[trigger] pairs[i].0@ != #[trigger] pairs[j].0@
}

/// Saved connections by name, in the order they were first added.
pub struct ConnectionStore {
    entries: Vec<(String, SshConnection)>,
}

impl View for ConnectionStore {
    type V = Map<Seq<char>, SshConnection>;

    open spec fn view(&self) -> Map<Seq<char>, SshConnection> {
        entries_map(self.pairs())
    }
}

/// What a map holds under a name, for entries with unique names.
proof fn lemma_entries_map(pairs: Seq<(String, SshConnection)>, k: Seq<char>)
    requires
        names_unique(pairs),
    ensures
        entries_map(pairs).dom().contains(k) <==> exists|i: int|
            0 <= i < pairs.len() && #[trigger] pairs[i].0@ == k,
        forall|i: int|
            0 <= i < pairs.len() && #[trigger] pairs[i].0@ == k ==> entries_map(pairs)[k]
                == pairs[i].1,
    decreases pairs.len(),
{
    if pairs.len() > 0 {
        let prefix = pairs.drop_last();
        assert(names_unique(prefix)) by {
            assert forall|i: int, j: int| 0 <= i < j < prefix.len() implies #[trigger] prefix[i].0@
                != #[trigger] prefix[j].0@ by {
                assert(prefix[i] == pairs[i] && prefix[j] == pairs[j]);
            }
        }
        lemma_entries_map(prefix, k);
        let n = pairs.len() - 1;
        if pairs[n].0@ == k {
            assert(pairs.last() == pairs[n]);
        } else {
            assert forall|i: int| 0 <= i < pairs.len() && #[trigger] pairs[i].0@ == k implies 0 <= i
                < prefix.len() && prefix[i].0@ == k by {
                assert(i != n);
                assert(prefix[i] == pairs[i]);
            }
            if entries_map(pairs).dom().contains(k) {
                let i = choose|i: int| 0 <= i < prefix.len() && #[trigger] prefix[i].0@ == k;
                assert(pairs[i] == prefix[i]);
            }
        }
    }
}

impl ConnectionStore {
    /// The entries, in order.
    pub closed spec fn pairs(&self) -> Seq<(String, SshConnection)> {
        self.entries@
    }

    /// Names are unique.
    #[verifier::type_invariant]
    spec fn wf(&self) -> bool {
        names_unique(self.entries@)
    }

    /// An empty store.
    pub fn new() -> (s: Self)
        ensures
            s@ == Map::<Seq<char>, SshConnection>::empty(),
            s.pairs() == Seq::<(String, SshConnection)>::empty(),
    {
        ConnectionStore { entries: Vec::new() }
    }

    /// A store holding `pairs`; of two entries with one name the later wins.
    pub fn from_entries(pairs: Vec<(String, SshConnection)>) -> (s: Self)
        ensures
            s@ == entries_map(pairs@),
    {
        let mut store = ConnectionStore::new();
        let ghost all = pairs@;
        for item in it: pairs.into_iter()
            invariant
                it.seq() == all,
                store@ == entries_map(all.take(it.index() as int)),
        {
            let ghost i = it.index();
            let (key, conn) = item;
            store.insert(key, conn);
            proof {
                assert(all.take(i + 1).drop_last() =~= all.take(i));
                assert(all.take(i + 1).last() == all[i]);
            }
        }
        assert(all.take(all.len() as int) =~= all);
        store
    }

    /// The entries, in order.
    pub fn entries(&self) -> (r: &Vec<(String, SshConnection)>)
        ensures
            r@ == self.pairs(),
    {
        &self.entries
    }

    /// Number of saved connections.
    pub fn len(&self) -> (n: usize)
        ensures
            n == self.pairs().len(),
    {
        self.entries.len()
    }

    /// Position of the entry named `key`.
    fn position(&self, key: &str) -> (r: Option<usize>)
        ensures
            r matches Some(i) ==> i < self.pairs().len() && self.pairs()[i as int].0@ == key@,
            r is None ==> forall|i: int|
                0 <= i < self.pairs().len() ==> #[trigger] self.pairs()[i].0@ != key@,
            r is Some <==> self@.dom().contains(key@),
    {
        proof {
            use_type_invariant(self);
        }
        let mut i: usize = 0;
        while i < self.entries.len()
            invariant
                i <= self.entries@.len(),
                names_unique(self.entries@),
                forall|j: int| 0 <= j < i ==> #[trigger] self.entries@[j].0@ != key@,
            decreases self.entries@.len() - i,
        {
            if same_text(&self.entries[i].0, key) {
                proof {
                    lemma_entries_map(self.entries@, key@);
                }
                return Some(i);
            }
            i = i + 1;
        }
        proof {
            lemma_entries_map(self.entries@, key@);
        }
        None
    }

    /// Whether a connection is saved under `key`.
    pub fn contains_key(&self, key: &str) -> (r: bool)
        ensures
            r == self@.dom().contains(key@),
    {
        self.position(key).is_some()
    }

    /// The connection saved under `key`.
    pub fn get(&self, key: &str) -> (r: Option<&SshConnection>)
        ensures
            r is Some <==> self@.dom().contains(key@),
            r matches Some(c) ==> *c == self@[key@],
    {
        proof {
            use_type_invariant(self);
        }
        match self.position(key) {
            Some(i) => {
                proof {
                    lemma_entries_map(self.entries@, key@);
                }
                Some(&self.entries[i].1)
            },
            None => None,
        }
    }

    /// Moves the entries out, leaving the store empty.
    fn take_entries(&mut self) -> (e: Vec<(String, SshConnection)>)
        ensures
            e@ == old(self).pairs(),
            names_unique(e@),
            final(self).pairs() == Seq::<(String, SshConnection)>::empty(),
    {
        proof {
            use_type_invariant(&*self);
        }
        let mut taken = ConnectionStore::new();
        std::mem::swap(self, &mut taken);
        taken.entries
    }

    /// Saves `conn` under `key`, replacing what was saved there. A new name
    /// goes last; a known name keeps its place.
    pub fn insert(&mut self, key: String, conn: SshConnection)
        ensures
            final(self)@ == old(self)@.insert(key@, conn),
            old(self)@.dom().contains(key@) ==> exists|i: int|
                0 <= i < old(self).pairs().len() && #[trigger] old(self).pairs()[i].0@ == key@
                    && final(self).pairs() == old(self).pairs().update(i, (key, conn)),
            !old(self)@.dom().contains(key@) ==> final(self).pairs() == old(self).pairs().push(
                (key, conn),
            ),
    {
        let ghost k = key@;
        let ghost c = conn;
        match self.position(key.as_str()) {
            Some(i) => {
                let mut entries = self.take_entries();
                let ghost before = entries@;
                entries.set(i, (key, conn));
                proof {
                    let after = entries@;
                    assert(names_unique(after)) by {
                        assert forall|a: int, b: int| 0 <= a < b < after.len() implies #[trigger] after[a].0@
                            != #[trigger] after[b].0@ by {
                            assert(before[a].0@ != before[b].0@);
                        }
                    }
                    let target = old(self)@.insert(k, c);
                    assert forall|q: Seq<char>| #[trigger] entries_map(after).dom().contains(q)
                        == target.dom().contains(q) && (entries_map(after).dom().contains(q)
                        ==> entries_map(after)[q] == target[q]) by {
                        lemma_entries_map(before, q);
                        lemma_entries_map(after, q);
                        if q != k && entries_map(before).dom().contains(q) {
                            let x = choose|x: int| 0 <= x < before.len() && #[trigger] before[x].0@ == q;
                            assert(after[x] == before[x]);
                        }
                        if q != k && entries_map(after).dom().contains(q) {
                            let x = choose|x: int| 0 <= x < after.len() && #[trigger] after[x].0@ == q;
                            assert(after[x] == before[x]);
                        }
                        if q == k {
                            assert(after[i as int].0@ == q);
                        }
                    }
                    assert(entries_map(after).dom() =~= target.dom());
                    assert(entries_map(after) =~= target);
                }
                *self = ConnectionStore { entries };
            },
            None => {
                let mut entries = self.take_entries();
                let ghost before = entries@;
                entries.push((key, conn));
                proof {
                    let after = entries@;
                    assert(after.drop_last() =~= before);
                    assert(names_unique(after)) by {
                        assert forall|a: int, b: int| 0 <= a < b < after.len() implies #[trigger] after[a].0@
                            != #[trigger] after[b].0@ by {
                            if b == after.len() - 1 {
                                assert(before[a].0@ != k);
                            } else {
                                assert(before[a].0@ != before[b].0@);
                            }
                        }
                    }
                }
                *self = ConnectionStore { entries };
            },
        }
    }

    /// Forgets the connection saved under `key`, if any.
    pub fn remove(&mut self, key: &str)
        ensures
            final(self)@ == old(self)@.remove(key@),
            old(self)@.dom().contains(key@) ==> exists|i: int|
                0 <= i < old(self).pairs().len() && #[trigger] old(self).pairs()[i].0@ == key@
                    && final(self).pairs() == old(self).pairs().remove(i),
            !old(self)@.dom().contains(key@) ==> final(self).pairs() == old(self).pairs(),
    {
        let ghost k = key@;
        match self.position(key) {
            Some(i) => {
                let mut entries = self.take_entries();
                let ghost before = entries@;
                entries.remove(i);
                proof {
                    let after = entries@;
                    assert(after =~= before.remove(i as int));
                    assert(names_unique(after)) by {
                        assert forall|a: int, b: int| 0 <= a < b < after.len() implies #[trigger] after[a].0@
                            != #[trigger] after[b].0@ by {
                            let a0 = if a < i { a } else { a + 1 };
                            let b0 = if b < i { b } else { b + 1 };
                            assert(after[a] == before[a0] && after[b] == before[b0]);
                            assert(before[a0].0@ != before[b0].0@);
                        }
                    }
                    let target = old(self)@.remove(k);
                    assert forall|q: Seq<char>| #[trigger] entries_map(after).dom().contains(q)
                        == target.dom().contains(q) && (entries_map(after).dom().contains(q)
                        ==> entries_map(after)[q] == target[q]) by {
                        lemma_entries_map(before, q);
                        lemma_entries_map(after, q);
                        if entries_map(after).dom().contains(q) {
                            let x = choose|x: int| 0 <= x < after.len() && #[trigger] after[x].0@ == q;
                            let x0 = if x < i { x } else { x + 1 };
                            assert(after[x] == before[x0]);
                            assert(x0 != i);
                        }
                        if q != k && entries_map(before).dom().contains(q) {
                            let x = choose|x: int| 0 <= x < before.len() && #[trigger] before[x].0@ == q;
                            assert(x != i);
                            let x1 = if x < i { x } else { x - 1 };
                            assert(after[x1] == before[x]);
                        }
                    }
                    assert(entries_map(after).dom() =~= target.dom());
                    assert(entries_map(after) =~= target);
                }
                *self = ConnectionStore { entries };
            },
            None => {
                proof {
                    assert(self@ =~= old(self)@.remove(k));
                }
            },
        }
    }
}

} // verus!
