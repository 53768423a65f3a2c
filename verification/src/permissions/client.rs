//! The shell's side of the permission flow: the requests waiting for the
//! user's decision, what to tell the user when a message arrives, and what
//! to send back when the user decides.

use std::collections::HashMap;

use vstd::prelude::*;

use crate::permissions::protocol::{
    GrantScope, PermissionRequest, RequestView, RiskLevel, ServiceToShell, ShellToService,
};
use crate::text::{append_str, int_text, u64_to_string};
use vstd::std_specs::hash::{axiom_spec_keys_iter, spec_keys_iter};
use vstd::std_specs::iter::IteratorSpec;

verus! {

broadcast use vstd::std_specs::hash::group_hash_axioms;

/// The requests waiting for a decision, by id.
pub struct PendingRequests {
    requests: HashMap<u64, PermissionRequest>,
}

/// What to tell the user about a message from the daemon.
pub open spec fn notice_for(m: ServiceToShell) -> Seq<char> {
    match m {
        ServiceToShell::Request(r) => if r.risk == RiskLevel::Critical {
            "\n[permission] ignoring a CRITICAL request from "@ + r.app_name@ + " (needs mitos-session)\n"@
        } else {
            "\n[permission] "@ + r.app_name@ + " wants: "@ + r.action@ + " -- type `allow "@
                + int_text(r.id as int) + "` or `deny "@ + int_text(r.id as int) + "`\n"@
        },
        ServiceToShell::AlreadyResolved { id } => "\n[permission] request "@ + int_text(id as int)
            + " was already resolved\n"@,
    }
}

impl PendingRequests {
    /// The pending requests, by id.
    pub closed spec fn view(&self) -> Map<u64, RequestView> {
        self.requests@.map_values(|r: PermissionRequest| r.view())
    }

    #[verifier::type_invariant]
    spec fn filed_by_id(&self) -> bool {
        forall|k: u64| #[trigger] self.requests@.contains_key(k) ==> self.requests@[k].id == k
    }

    /// No request pending.
    pub fn new() -> (p: Self)
        ensures
            p.view() == Map::<u64, RequestView>::empty(),
    {
        let p = PendingRequests { requests: HashMap::new() };
        assert(p.view() =~= Map::<u64, RequestView>::empty());
        p
    }

    /// Copies of the pending requests, each once, in no particular order.
    pub fn list_pending(&self) -> (r: Vec<PermissionRequest>)
        ensures
            r@.len() == self.view().dom().len(),
            forall|i: int|
                0 <= i < r@.len() ==> self.view().contains_key((#[trigger] r@[i]).id) && self.view()[r@[i].id]
                    == r@[i].view(),
            forall|k: u64|
                #[trigger] self.view().contains_key(k) ==> exists|i: int| 0 <= i < r@.len() && r@[i].id == k,
    {
        proof {
            use_type_invariant(self);
        }
        let mut r: Vec<PermissionRequest> = Vec::new();
        let ghost keys = spec_keys_iter(&self.requests).remaining();
        proof {
            axiom_spec_keys_iter(&self.requests);
        }
        for k in it: self.requests.keys()
            invariant
                it.seq() == keys,
                keys.unref().to_set() == self.requests@.dom(),
                keys.len() == self.requests@.dom().len(),
                r@.len() == it.index(),
                forall|k: u64| #[trigger] self.requests@.contains_key(k) ==> self.requests@[k].id == k,
                forall|i: int|
                    0 <= i < r@.len() ==> r@[i].id == *keys[i] && self.view().contains_key(*keys[i])
                        && self.view()[*keys[i]] == (#[trigger] r@[i]).view(),
        {
            let q = self.requests.get(k);
            match q {
                Some(q) => {
                    r.push(q.duplicate());
                },
                None => {
                    assert(false);
                },
            }
        }
        proof {
            assert(self.view().dom() =~= self.requests@.dom());
            assert forall|k: u64| #[trigger] self.view().contains_key(k) implies exists|i: int|
                0 <= i < r@.len() && r@[i].id == k by {
                assert(keys.unref().to_set().contains(k));
                let i = choose|i: int| 0 <= i < keys.len() && keys.unref()[i] == k;
                assert(r@[i].id == *keys[i]);
            }
        }
        r
    }

    /// Drops the request with id `id`; tells whether it was pending.
    pub fn remove(&mut self, id: u64) -> (found: bool)
        ensures
            found == old(self).view().contains_key(id),
            final(self).view() == old(self).view().remove(id),
    {
        proof {
            use_type_invariant(&*self);
        }
        let ghost before = self.requests@;
        let mut requests = HashMap::new();
        std::mem::swap(&mut requests, &mut self.requests);
        let out = requests.remove(&id);
        assert(requests@ == before.remove(id));
        assert(requests@.map_values(|r: PermissionRequest| r.view()) =~= before.map_values(
            |r: PermissionRequest| r.view(),
        ).remove(id));
        self.requests = requests;
        out.is_some()
    }

    /// Records `request` as pending under its id, in place of any request
    /// with that id.
    pub fn insert(&mut self, request: PermissionRequest)
        ensures
            final(self).view() == old(self).view().insert(request.id, request.view()),
    {
        proof {
            use_type_invariant(&*self);
        }
        let ghost before = self.requests@;
        let ghost rv = request.view();
        let mut requests = HashMap::new();
        std::mem::swap(&mut requests, &mut self.requests);
        let id = request.id;
        requests.insert(id, request);
        assert(requests@.map_values(|r: PermissionRequest| r.view()) =~= before.map_values(
            |r: PermissionRequest| r.view(),
        ).insert(id, rv));
        self.requests = requests;
    }

    /// Takes in a message from the daemon and gives the notice to print. A
    /// `Critical` request is not recorded; another request is recorded as
    /// pending under its id; an already-resolved one stops being pending.
    pub fn handle(&mut self, message: ServiceToShell) -> (notice: String)
        ensures
            notice@ == notice_for(message),
            final(self).view() == after_message(old(self).view(), message),
    {
        match message {
            ServiceToShell::Request(r) => {
                let mut text = String::from_str("\n[permission] ");
                if r.risk == RiskLevel::Critical {
                    let mut t = String::from_str("\n[permission] ignoring a CRITICAL request from ");
                    append_str(&mut t, r.app_name.as_str());
                    append_str(&mut t, " (needs mitos-session)\n");
                    t
                } else {
                    append_str(&mut text, r.app_name.as_str());
                    append_str(&mut text, " wants: ");
                    append_str(&mut text, r.action.as_str());
                    append_str(&mut text, " -- type `allow ");
                    let id = u64_to_string(r.id);
                    append_str(&mut text, id.as_str());
                    append_str(&mut text, "` or `deny ");
                    append_str(&mut text, id.as_str());
                    append_str(&mut text, "`\n");
                    self.insert(r);
                    text
                }
            },
            ServiceToShell::AlreadyResolved { id } => {
                self.remove(id);
                let mut t = String::from_str("\n[permission] request ");
                let n = u64_to_string(id);
                append_str(&mut t, n.as_str());
                append_str(&mut t, " was already resolved\n");
                t
            },
        }
    }

    /// Resolves request `id`: where it was pending it stops being so and the
    /// decision to send back is given; otherwise nothing is sent.
    pub fn resolve(&mut self, id: u64, allow: bool, scope: GrantScope) -> (r: Option<ShellToService>)
        ensures
            final(self).view() == old(self).view().remove(id),
            old(self).view().contains_key(id) ==> (r matches Some(ShellToService::Decision { id: i, allow: a, scope: s })
                && i == id && a == allow && s == scope),
            !old(self).view().contains_key(id) ==> r is None,
    {
        if self.remove(id) {
            Some(ShellToService::Decision { id, allow, scope })
        } else {
            None
        }
    }

    /// Takes in the daemon's messages in order; gives the notice for each.
    pub fn handle_all(&mut self, messages: Vec<ServiceToShell>) -> (notices: Vec<String>)
        ensures
            final(self).view() == after_messages(old(self).view(), messages@),
            notices@.len() == messages@.len(),
    {
        let ghost ms = messages@;
        let ghost v0 = self.view();
        let mut notices: Vec<String> = Vec::new();
        let mut rest = messages;
        let ghost mut i: int = 0;
        assert(ms.subrange(0, 0) =~= Seq::<ServiceToShell>::empty());
        while rest.len() > 0
            invariant
                0 <= i <= ms.len(),
                i + rest@.len() == ms.len(),
                rest@ == ms.subrange(i, ms.len() as int),
                notices@.len() == i,
                self.view() == after_messages(v0, ms.subrange(0, i)),
                v0 == old(self).view(),
            decreases rest@.len(),
        {
            let m = rest.remove(0);
            proof {
                assert(m == ms[i]);
                assert(rest@ =~= ms.subrange(i + 1, ms.len() as int));
                assert(ms.subrange(0, i + 1).drop_last() =~= ms.subrange(0, i));
            }
            let n = self.handle(m);
            notices.push(n);
            proof {
                i = i + 1;
            }
        }
        assert(ms.subrange(0, i) =~= ms);
        notices
    }
}

/// The pending requests after the daemon's message `m`: an `Ask` request
/// is recorded under its id (replacing one with the same id), a `Critical`
/// one is not, and an already-resolved id stops being pending.
pub open spec fn after_message(rs: Map<u64, RequestView>, m: ServiceToShell) -> Map<u64, RequestView> {
    match m {
        ServiceToShell::Request(r) => if r.risk == RiskLevel::Critical {
            rs
        } else {
            rs.insert(r.id, r.view())
        },
        ServiceToShell::AlreadyResolved { id } => rs.remove(id),
    }
}

/// The pending requests after the messages `ms`, in order.
pub open spec fn after_messages(rs: Map<u64, RequestView>, ms: Seq<ServiceToShell>) -> Map<u64, RequestView>
    decreases ms.len(),
{
    if ms.len() == 0 {
        rs
    } else {
        after_message(after_messages(rs, ms.drop_last()), ms.last())
    }
}

/// Whether no pending request is `Critical`.
pub open spec fn none_critical(rs: Map<u64, RequestView>) -> bool {
    forall|k: u64| #[trigger] rs.contains_key(k) ==> rs[k].risk != RiskLevel::Critical
}

/// A request is resolved once: resolving drops exactly the request with
/// that id, so resolving it again finds nothing; the others stay pending
/// as they were.
pub proof fn law_resolve_once(rs: Map<u64, RequestView>, id: u64)
    ensures
        !rs.remove(id).contains_key(id),
        forall|k: u64| k != id ==> (#[trigger] rs.remove(id).contains_key(k) <==> rs.contains_key(k)),
        rs.remove(id).remove(id) == rs.remove(id),
{
    assert(rs.remove(id).remove(id) =~= rs.remove(id));
}

/// Whatever the daemon sends, a `Critical` request never becomes pending
/// and a resolved id is no longer pending: after any run of messages,
/// where no request was `Critical` before, none is after.
pub proof fn law_no_critical_pending(rs: Map<u64, RequestView>, ms: Seq<ServiceToShell>)
    requires
        none_critical(rs),
    ensures
        none_critical(after_messages(rs, ms)),
        ms.len() > 0 ==> (ms.last() matches ServiceToShell::AlreadyResolved { id }
            ==> !after_messages(rs, ms).contains_key(id)),
    decreases ms.len(),
{
    if ms.len() > 0 {
        law_no_critical_pending(rs, ms.drop_last());
    }
}

/// Whether the daemon's message `m` bears on request id `k`: a notice that
/// `k` was resolved, or a request under `k` that is not `Critical`.
pub open spec fn bears_on(m: ServiceToShell, k: u64) -> bool {
    match m {
        ServiceToShell::Request(r) => r.id == k && r.risk != RiskLevel::Critical,
        ServiceToShell::AlreadyResolved { id } => id == k,
    }
}

/// The position of the last of the first `n` messages of `ms` that bears on
/// `k`.
pub open spec fn last_bearing(ms: Seq<ServiceToShell>, n: int, k: u64) -> Option<int>
    decreases n,
{
    if n <= 0 || n > ms.len() {
        None
    } else if bears_on(ms[n - 1], k) {
        Some(n - 1)
    } else {
        last_bearing(ms, n - 1, k)
    }
}

/// What is pending under `k` after the messages `ms`, starting from `rs`:
/// what the last message bearing on `k` says (its request, or nothing for a
/// resolved notice), or what was pending before where none bears on it.
pub open spec fn pending_at(rs: Map<u64, RequestView>, ms: Seq<ServiceToShell>, k: u64) -> Option<
    RequestView,
> {
    match last_bearing(ms, ms.len() as int, k) {
        Some(i) => match ms[i] {
            ServiceToShell::Request(r) => Some(r.view()),
            ServiceToShell::AlreadyResolved { .. } => None,
        },
        None => if rs.contains_key(k) {
            Some(rs[k])
        } else {
            None
        },
    }
}

proof fn lemma_last_bearing_prefix(ms: Seq<ServiceToShell>, n: int, k: u64)
    requires
        ms.len() > 0,
        n < ms.len(),
    ensures
        last_bearing(ms, n, k) == last_bearing(ms.drop_last(), n, k),
    decreases n,
{
    if n > 0 {
        assert(ms[n - 1] == ms.drop_last()[n - 1]);
        lemma_last_bearing_prefix(ms, n - 1, k);
    }
}

proof fn lemma_after_messages_at(rs: Map<u64, RequestView>, ms: Seq<ServiceToShell>, k: u64)
    ensures
        after_messages(rs, ms).contains_key(k) == (pending_at(rs, ms, k) is Some),
        after_messages(rs, ms).contains_key(k) ==> after_messages(rs, ms)[k] == pending_at(
            rs,
            ms,
            k,
        )->0,
    decreases ms.len(),
{
    if ms.len() > 0 {
        let p = ms.drop_last();
        lemma_after_messages_at(rs, p, k);
        lemma_last_bearing_prefix(ms, ms.len() - 1, k);
        if let Some(i) = last_bearing(p, p.len() as int, k) {
            lemma_last_bearing_bound(p, p.len() as int, k);
            assert(ms[i] == p[i]);
        }
    }
}

proof fn lemma_last_bearing_bound(ms: Seq<ServiceToShell>, n: int, k: u64)
    ensures
        last_bearing(ms, n, k) matches Some(i) ==> 0 <= i < n && i < ms.len(),
    decreases n,
{
    if 0 < n <= ms.len() && !bears_on(ms[n - 1], k) {
        lemma_last_bearing_bound(ms, n - 1, k);
    }
}

/// What the listener leaves pending after the daemon's messages `ms`, taken
/// in order from `rs`: under each id, what the last message bearing on it
/// says (its request, or nothing once it was resolved), and what was
/// pending before where no message bears on it. A `Critical` request bears
/// on nothing, so it never becomes pending: where none was pending before,
/// none is after.
pub proof fn law_listener_run(rs: Map<u64, RequestView>, ms: Seq<ServiceToShell>)
    ensures
        forall|k: u64|
            #[trigger] after_messages(rs, ms).contains_key(k) == (pending_at(rs, ms, k) is Some),
        forall|k: u64|
            #[trigger] after_messages(rs, ms).contains_key(k) ==> after_messages(rs, ms)[k]
                == pending_at(rs, ms, k)->0,
        none_critical(rs) ==> none_critical(after_messages(rs, ms)),
{
    assert forall|k: u64| #[trigger] after_messages(rs, ms).contains_key(k) == (pending_at(
        rs,
        ms,
        k,
    ) is Some) by {
        lemma_after_messages_at(rs, ms, k);
    }
    assert forall|k: u64| #[trigger] after_messages(rs, ms).contains_key(k) implies after_messages(
        rs,
        ms,
    )[k] == pending_at(rs, ms, k)->0 by {
        lemma_after_messages_at(rs, ms, k);
    }
    if none_critical(rs) {
        law_no_critical_pending(rs, ms);
    }
}

} // verus!
