//! The key-value capability provider's control surface.
//!
//! The provider keeps one backend connection per linked source actor. Link-up
//! resolves the backend target from the link configuration and, once the
//! caller has opened the connection, records its handle; link-down and
//! shutdown hand handles back for release and always succeed. Command
//! execution routes by the invoking actor's identity and never fails the
//! caller: a missing context, a missing link, or a backend failure all
//! collapse into the operation's type-appropriate default result.

use vstd::prelude::*;
use crate::config::{spec_url_value, find_url_value};
use crate::links::{Context, LinkTable, actor_of, spec_route};

verus! {

/// The key-value provider: its link table and its provider-wide default
/// backend connection target.
pub struct KvRedisProvider {
    pub actors: LinkTable,
    pub default_connect_url: String,
}

impl KvRedisProvider {
    /// The provider's invariant: its link table is well formed.
    pub open spec fn wf(self) -> bool {
        self.actors.wf()
    }

    /// A fresh provider with no links.
    pub fn new(default_connect_url: &str) -> (r: KvRedisProvider)
        ensures
            r.wf(),
            r.actors.entries@.len() == 0,
            forall|id: Seq<char>| r.actors.conn_of(id) is None,
            r.default_connect_url@ == default_connect_url@,
    {
        KvRedisProvider {
            actors: LinkTable::new(),
            default_connect_url: String::from_str(default_connect_url),
        }
    }

    /// The backend connection target for a new link: the link configuration's
    /// connection-target value (looked up ignoring ASCII case), or the
    /// provider-wide default when the configuration names none.
    pub fn link_target(&self, link_config: &Vec<(String, String)>) -> (r: String)
        ensures
            r@ == (match spec_url_value(link_config@) {
                Some(v) => v,
                None => self.default_connect_url@,
            }),
    {
        match find_url_value(link_config) {
            Some(v) => v,
            None => self.default_connect_url.clone(),
        }
    }

    /// Record an established link: the source identity now maps to this
    /// connection handle, overwriting any prior entry. On a failed
    /// connection attempt the caller records nothing, so commands for the
    /// source keep yielding defaults.
    pub fn register_link(&mut self, source_id: &str, conn: u64)
        requires
            old(self).wf(),
        ensures
            final(self).wf(),
            final(self).actors.conn_of(source_id@) == Some(conn),
            forall|id: Seq<char>|
                id != source_id@ ==> final(self).actors.conn_of(id) == old(self).actors.conn_of(id),
            final(self).default_connect_url == old(self).default_connect_url,
    {
        self.actors.insert(source_id, conn);
    }

    /// Drop a link, handing back its connection handle for release.
    /// Removing an absent link is a no-op; this always succeeds.
    pub fn delete_link(&mut self, source_id: &str) -> (r: Option<u64>)
        requires
            old(self).wf(),
        ensures
            final(self).wf(),
            r == old(self).actors.conn_of(source_id@),
            final(self).actors.conn_of(source_id@) is None,
            forall|id: Seq<char>|
                id != source_id@ ==> final(self).actors.conn_of(id) == old(self).actors.conn_of(id),
            final(self).default_connect_url == old(self).default_connect_url,
    {
        self.actors.unlink(source_id)
    }

    /// Shut down: drain every link, handing back each connection handle
    /// exactly once for release. Afterwards commands behave as if no links
    /// exist. Always succeeds.
    pub fn shutdown(&mut self) -> (r: Vec<u64>)
        requires
            old(self).wf(),
        ensures
            final(self).wf(),
            final(self).actors.entries@.len() == 0,
            forall|id: Seq<char>| final(self).actors.conn_of(id) is None,
            r@ == old(self).actors.entries@.map_values(|e: crate::links::LinkEntry| e.conn),
            final(self).default_connect_url == old(self).default_connect_url,
    {
        self.actors.drain()
    }

    /// The command executor's routing decision: the invoking actor's
    /// connection, or nothing — in which case the command yields its
    /// default result instead of an error.
    pub fn route(&self, ctx: &Context) -> (r: Option<u64>)
        requires
            self.wf(),
        ensures
            r == spec_route(self.actors, actor_of(*ctx)),
    {
        self.actors.route(ctx)
    }
}

/// A value read from the store, with an explicit existence flag: an empty
/// value would otherwise be ambiguous with absence.
pub struct GetResponse {
    pub exists: bool,
    pub value: String,
}

/// The fail-safe boundary of the command executor, for boolean results: the
/// backend's answer, or `false` when there was no context, no link, or a
/// backend failure.
pub fn bool_or_default(outcome: Option<bool>) -> (r: bool)
    ensures
        r == (match outcome {
            Some(b) => b,
            None => false,
        }),
{
    match outcome {
        Some(b) => b,
        None => false,
    }
}

/// The fail-safe boundary for operations whose backend answer is a count of
/// affected entries and whose result is whether anything was affected.
pub fn flag_from_count(outcome: Option<i32>) -> (r: bool)
    ensures
        r == (match outcome {
            Some(n) => n > 0,
            None => false,
        }),
{
    match outcome {
        Some(n) => n > 0,
        None => false,
    }
}

/// The fail-safe boundary for numeric results: zero on failure.
pub fn int_or_default(outcome: Option<i32>) -> (r: i32)
    ensures
        r == (match outcome {
            Some(n) => n,
            None => 0,
        }),
{
    match outcome {
        Some(n) => n,
        None => 0,
    }
}

/// The fail-safe boundary for size results: zero on failure.
pub fn uint_or_default(outcome: Option<u32>) -> (r: u32)
    ensures
        r == (match outcome {
            Some(n) => n,
            None => 0,
        }),
{
    match outcome {
        Some(n) => n,
        None => 0,
    }
}

/// The fail-safe boundary for list results: the empty list on failure.
pub fn list_or_default(outcome: Option<Vec<String>>) -> (r: Vec<String>)
    ensures
        (match outcome {
            Some(v) => r == v,
            None => r@.len() == 0,
        }),
{
    match outcome {
        Some(v) => v,
        None => Vec::new(),
    }
}

/// The fail-safe boundary for reads: the stored value with `exists` set, an
/// absent value as not existing with an empty value, and any failure as the
/// same default — invisible to the caller beyond the default result.
pub fn get_response_of(outcome: Option<Option<String>>) -> (r: GetResponse)
    ensures
        (match outcome {
            Some(Some(v)) => r.exists == true && r.value == v,
            Some(None) => r.exists == false && r.value@.len() == 0,
            None => r.exists == false && r.value@.len() == 0,
        }),
{
    match outcome {
        Some(Some(v)) => GetResponse { exists: true, value: v },
        _ => GetResponse { exists: false, value: String::new() },
    }
}

} // verus!
