//! The per-actor link table and its lifecycle.
//!
//! A capability provider tracks one backend connection per linked source
//! actor. The table owns the association from source identity to a connection
//! handle; the connections themselves live with the caller, which releases a
//! handle when the table hands it back. At most one entry exists per source
//! identity; removing an absent entry is a no-op; shutdown drains every entry.

use vstd::prelude::*;

verus! {

/// One link: a source actor's identity and the handle of its backend connection.
pub struct LinkEntry {
    pub source_id: String,
    pub conn: u64,
}

/// The provider's table of active links, keyed by source-actor identity.
pub struct LinkTable {
    pub entries: Vec<LinkEntry>,
}

/// An execution context: the identity of the invoking actor, if any.
pub struct Context {
    pub actor: Option<String>,
}

/// The invoking actor's identity carried by a context.
pub open spec fn actor_of(ctx: Context) -> Option<Seq<char>> {
    match ctx.actor {
        Some(s) => Some(s@),
        None => None,
    }
}

impl LinkTable {
    /// The source identity stored at an index.
    pub open spec fn id_at(self, i: int) -> Seq<char> {
        self.entries@[i].source_id@
    }

    /// Each source identity holds at most one entry.
    pub open spec fn wf(self) -> bool {
        forall|i: int, j: int|
            0 <= i < j < self.entries@.len() ==> #[trigger] self.id_at(i) != #[trigger] self.id_at(
                j,
            )
    }

    /// Whether a source identity is currently linked.
    pub open spec fn has_link(self, id: Seq<char>) -> bool {
        exists|i: int| 0 <= i < self.entries@.len() && #[trigger] self.id_at(i) == id
    }

    /// The connection handle linked to a source identity, if any.
    pub open spec fn conn_of(self, id: Seq<char>) -> Option<u64> {
        if self.has_link(id) {
            let i = choose|i: int| 0 <= i < self.entries@.len() && #[trigger] self.id_at(i) == id;
            Some(self.entries@[i].conn)
        } else {
            None
        }
    }

    /// An empty table: no source is linked.
    pub fn new() -> (r: LinkTable)
        ensures
            r.wf(),
            r.entries@.len() == 0,
            forall|id: Seq<char>| r.conn_of(id) is None,
    {
        LinkTable { entries: Vec::new() }
    }

    /// The connection linked to a source identity, if any.
    pub fn lookup(&self, source_id: &str) -> (r: Option<u64>)
        requires
            self.wf(),
        ensures
            r == self.conn_of(source_id@),
    {
        let n = self.entries.len();
        let mut i: usize = 0;
        while i < n
            invariant
                n == self.entries@.len(),
                0 <= i <= n,
                self.wf(),
                forall|j: int| 0 <= j < i ==> #[trigger] self.id_at(j) != source_id@,
            decreases n - i,
        {
            let eq = self.entries[i].source_id == String::from_str(source_id);
            if eq {
                proof {
                    assert(self.id_at(i as int) == source_id@);
                    let k = choose|k: int|
                        0 <= k < self.entries@.len() && #[trigger] self.id_at(k) == source_id@;
                    assert(k == i as int);
                }
                return Some(self.entries[i].conn);
            }
            i += 1;
        }
        proof {
            assert(!self.has_link(source_id@));
        }
        None
    }

    /// Remove the link for a source identity, handing back its connection
    /// handle for release. Removing an absent entry is a no-op.
    pub fn unlink(&mut self, source_id: &str) -> (r: Option<u64>)
        requires
            old(self).wf(),
        ensures
            final(self).wf(),
            r == old(self).conn_of(source_id@),
            final(self).conn_of(source_id@) is None,
            forall|id: Seq<char>|
                id != source_id@ ==> final(self).conn_of(id) == old(self).conn_of(id),
    {
        let n = self.entries.len();
        let mut i: usize = 0;
        while i < n
            invariant
                n == self.entries@.len(),
                0 <= i <= n,
                self.wf(),
                *self == *old(self),
                forall|j: int| 0 <= j < i ==> #[trigger] self.id_at(j) != source_id@,
            decreases n - i,
        {
            let eq = self.entries[i].source_id == String::from_str(source_id);
            if eq {
                let ghost oldt = *self;
                let entry = self.entries.remove(i);
                proof {
                    assert(oldt.id_at(i as int) == source_id@);
                    let k = choose|k: int|
                        0 <= k < oldt.entries@.len() && #[trigger] oldt.id_at(k) == source_id@;
                    assert(k == i as int);
                    assert(oldt.conn_of(source_id@) == Some(entry.conn));
                    lemma_remove_effect(oldt, *self, i as int);
                }
                return Some(entry.conn);
            }
            i += 1;
        }
        proof {
            assert(!self.has_link(source_id@));
        }
        None
    }

    /// Establish a link: insert the entry for this source identity,
    /// overwriting any prior one.
    pub fn insert(&mut self, source_id: &str, conn: u64)
        requires
            old(self).wf(),
        ensures
            final(self).wf(),
            final(self).conn_of(source_id@) == Some(conn),
            forall|id: Seq<char>|
                id != source_id@ ==> final(self).conn_of(id) == old(self).conn_of(id),
    {
        let _released = self.unlink(source_id);
        let ghost mid = *self;
        self.entries.push(LinkEntry { source_id: String::from_str(source_id), conn });
        proof {
            assert(self.entries@.subrange(0, mid.entries@.len() as int) =~= mid.entries@);
            lemma_push_effect(mid, *self, source_id@, conn);
        }
    }

    /// Tear down every link, handing back each connection handle exactly once,
    /// in table order. Afterwards no source is linked.
    pub fn drain(&mut self) -> (r: Vec<u64>)
        requires
            old(self).wf(),
        ensures
            final(self).wf(),
            final(self).entries@.len() == 0,
            forall|id: Seq<char>| final(self).conn_of(id) is None,
            r@ == old(self).entries@.map_values(|e: LinkEntry| e.conn),
    {
        let n = self.entries.len();
        let mut conns: Vec<u64> = Vec::new();
        let mut i: usize = 0;
        while i < n
            invariant
                n == self.entries@.len(),
                0 <= i <= n,
                conns@.len() == i,
                forall|j: int| 0 <= j < i ==> conns@[j] == self.entries@[j].conn,
            decreases n - i,
        {
            conns.push(self.entries[i].conn);
            i += 1;
        }
        self.entries.clear();
        proof {
            assert(conns@ =~= old(self).entries@.map_values(|e: LinkEntry| e.conn));
        }
        conns
    }

    /// The routing decision of the command executor: the connection of the
    /// invoking actor, or nothing when the context carries no actor or the
    /// actor is not linked.
    pub fn route(&self, ctx: &Context) -> (r: Option<u64>)
        requires
            self.wf(),
        ensures
            r == spec_route(*self, actor_of(*ctx)),
    {
        match &ctx.actor {
            Some(id) => self.lookup(id.as_str()),
            None => None,
        }
    }
}

/// Where a command for the given actor is executed: on the actor's linked
/// connection, or nowhere (the operation's default result is returned).
pub open spec fn spec_route(t: LinkTable, actor: Option<Seq<char>>) -> Option<u64> {
    match actor {
        Some(id) => t.conn_of(id),
        None => None,
    }
}

/// After a link for `id` is gone from the table — deleted, drained at
/// shutdown, or never established — command routing for `id` finds no
/// connection, so every command for `id` yields its default result.
pub proof fn lemma_unlinked_routes_to_default(t: LinkTable, id: Seq<char>)
    requires
        t.wf(),
        t.conn_of(id) is None,
    ensures
        spec_route(t, Some(id)) is None,
{
}

proof fn lemma_remove_effect(pre: LinkTable, post: LinkTable, i: int)
    requires
        pre.wf(),
        0 <= i < pre.entries@.len(),
        post.entries@ == pre.entries@.remove(i),
    ensures
        post.wf(),
        post.conn_of(pre.id_at(i)) is None,
        forall|id: Seq<char>| id != pre.id_at(i) ==> post.conn_of(id) == pre.conn_of(id),
{
    let removed = pre.id_at(i);
    assert forall|a: int, b: int| 0 <= a < b < post.entries@.len() implies #[trigger] post.id_at(a)
        != #[trigger] post.id_at(b) by {
        let a0 = if a < i {
            a
        } else {
            a + 1
        };
        let b0 = if b < i {
            b
        } else {
            b + 1
        };
        assert(post.id_at(a) == pre.id_at(a0));
        assert(post.id_at(b) == pre.id_at(b0));
    }
    assert forall|id: Seq<char>| post.has_link(id) implies id != removed && pre.has_link(id)
        && post.conn_of(id) == pre.conn_of(id) by {
        let k = choose|k: int| 0 <= k < post.entries@.len() && #[trigger] post.id_at(k) == id;
        let k0 = if k < i {
            k
        } else {
            k + 1
        };
        assert(post.id_at(k) == pre.id_at(k0));
        assert(pre.has_link(id));
        let m = choose|m: int| 0 <= m < pre.entries@.len() && #[trigger] pre.id_at(m) == id;
        assert(m == k0);
        assert(post.entries@[k].conn == pre.entries@[k0].conn);
    }
    assert forall|id: Seq<char>| pre.has_link(id) && id != removed implies post.has_link(id) by {
        let m = choose|m: int| 0 <= m < pre.entries@.len() && #[trigger] pre.id_at(m) == id;
        let m1 = if m < i {
            m
        } else {
            m - 1
        };
        assert(post.id_at(m1) == pre.id_at(m));
    }
    assert(!post.has_link(removed));
}

proof fn lemma_push_effect(pre: LinkTable, post: LinkTable, id: Seq<char>, conn: u64)
    requires
        pre.wf(),
        !pre.has_link(id),
        post.entries@.len() == pre.entries@.len() + 1,
        post.entries@.subrange(0, pre.entries@.len() as int) == pre.entries@,
        post.id_at(pre.entries@.len() as int) == id,
        post.entries@[pre.entries@.len() as int].conn == conn,
    ensures
        post.wf(),
        post.conn_of(id) == Some(conn),
        forall|id2: Seq<char>| id2 != id ==> post.conn_of(id2) == pre.conn_of(id2),
{
    let n = pre.entries@.len() as int;
    assert forall|j: int| 0 <= j < n implies #[trigger] post.id_at(j) == pre.id_at(j) by {
        assert(post.entries@.subrange(0, n)[j] == post.entries@[j]);
    }
    assert forall|a: int, b: int| 0 <= a < b < post.entries@.len() implies #[trigger] post.id_at(a)
        != #[trigger] post.id_at(b) by {
        if b < n {
        } else {
            assert(post.id_at(b) == id);
            assert(post.id_at(a) == pre.id_at(a));
            assert(!pre.has_link(id));
        }
    }
    assert(post.has_link(id));
    let k = choose|k: int| 0 <= k < post.entries@.len() && #[trigger] post.id_at(k) == id;
    assert(k == n);
    assert forall|id2: Seq<char>| id2 != id implies post.conn_of(id2) == pre.conn_of(id2) by {
        if pre.has_link(id2) {
            let m = choose|m: int| 0 <= m < pre.entries@.len() && #[trigger] pre.id_at(m) == id2;
            assert(post.id_at(m) == id2);
            let m1 = choose|m1: int|
                0 <= m1 < post.entries@.len() && #[trigger] post.id_at(m1) == id2;
            assert(m1 == m);
        } else {
            if post.has_link(id2) {
                let m1 = choose|m1: int|
                    0 <= m1 < post.entries@.len() && #[trigger] post.id_at(m1) == id2;
                assert(m1 == n);
            }
        }
    }
}

} // verus!
