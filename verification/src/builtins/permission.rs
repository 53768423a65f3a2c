//! `allow`, `deny` and `permissions`: the user's side of the permission
//! flow (see `crate::permissions`).

use vstd::prelude::*;

use crate::permissions::client::PendingRequests;
use crate::permissions::protocol::{GrantScope, RequestView, ShellToService};
use crate::text::{append_str, eq_str, int_text, parse_u64, parse_u64_spec, u64_to_string};

verus! {

/// The scope `allow` reads from its optional second operand; `None` where
/// that operand names no scope.
pub open spec fn scope_of(args: Seq<String>) -> Option<GrantScope> {
    if args.len() <= 2 || args[2]@ == "once"@ {
        Some(GrantScope::Once)
    } else if args[2]@ == "session"@ {
        Some(GrantScope::Session)
    } else {
        None
    }
}

/// The request id in the first operand, if there is one.
pub open spec fn id_of(args: Seq<String>) -> Option<u64> {
    if args.len() >= 2 {
        parse_u64_spec(args[1]@)
    } else {
        None
    }
}

fn id_arg(args: &[String]) -> (r: Option<u64>)
    ensures
        r == id_of(args@),
{
    if args.len() >= 2 {
        parse_u64(args[1].as_str())
    } else {
        None
    }
}

/// `allow ID [once|session]`: approves pending request `ID`. Gives the exit
/// status, the message for standard error, and the decision to send.
pub fn allow(pending: &mut PendingRequests, args: &[String]) -> (r: (i32, Option<String>, Option<ShellToService>))
    ensures
        id_of(args@) is None ==> final(pending).view() == old(pending).view() && r.0 == 1 && (r.1 matches Some(m) && m@ == "allow: usage: allow <id> [once|session]"@) && r.2 is None,
        id_of(args@) is Some && scope_of(args@) is None ==> final(pending).view() == old(pending).view() && r.0 == 1 && (r.1 matches Some(m) && m@ == "allow: unknown scope '"@ + args@[2]@ + "' (expected once|session)"@) && r.2 is None,
        id_of(args@) is Some && scope_of(args@) is Some ==> final(pending).view() == old(pending).view().remove(id_of(args@)->0) && (if old(pending).view().contains_key(id_of(args@)->0) {
            r.0 == 0 && r.1 is None && (r.2 matches Some(ShellToService::Decision { id: i, allow: a, scope: s }) && i == id_of(args@)->0 && a && s == scope_of(args@)->0)
        } else {
            r.0 == 1 && (r.1 matches Some(m) && m@ == "allow: no pending permission request with id "@ + int_text(id_of(args@)->0 as int)) && r.2 is None
        }),
{
    let id = match id_arg(args) {
        Some(id) => id,
        None => {
            return (1, Some(String::from_str("allow: usage: allow <id> [once|session]")), None);
        },
    };
    let scope = if args.len() <= 2 || eq_str(args[2].as_str(), "once") {
        GrantScope::Once
    } else if eq_str(args[2].as_str(), "session") {
        GrantScope::Session
    } else {
        let mut m = String::from_str("allow: unknown scope '");
        append_str(&mut m, args[2].as_str());
        append_str(&mut m, "' (expected once|session)");
        return (1, Some(m), None);
    };
    match pending.resolve(id, true, scope) {
        Some(d) => (0, None, Some(d)),
        None => {
            let mut m = String::from_str("allow: no pending permission request with id ");
            let n = u64_to_string(id);
            append_str(&mut m, n.as_str());
            (1, Some(m), None)
        },
    }
}

/// `deny ID`: declines pending request `ID`. Gives the exit status, the
/// message for standard error, and the decision to send.
pub fn deny(pending: &mut PendingRequests, args: &[String]) -> (r: (i32, Option<String>, Option<ShellToService>))
    ensures
        id_of(args@) is None ==> final(pending).view() == old(pending).view() && r.0 == 1 && (r.1 matches Some(m) && m@ == "deny: usage: deny <id>"@) && r.2 is None,
        id_of(args@) is Some ==> final(pending).view() == old(pending).view().remove(id_of(args@)->0) && (if old(pending).view().contains_key(id_of(args@)->0) {
            r.0 == 0 && r.1 is None && (r.2 matches Some(ShellToService::Decision { id: i, allow: a, scope: s }) && i == id_of(args@)->0 && !a && s == GrantScope::Once)
        } else {
            r.0 == 1 && (r.1 matches Some(m) && m@ == "deny: no pending permission request with id "@ + int_text(id_of(args@)->0 as int)) && r.2 is None
        }),
{
    let id = match id_arg(args) {
        Some(id) => id,
        None => {
            return (1, Some(String::from_str("deny: usage: deny <id>")), None);
        },
    };
    match pending.resolve(id, false, GrantScope::Once) {
        Some(d) => (0, None, Some(d)),
        None => {
            let mut m = String::from_str("deny: no pending permission request with id ");
            let n = u64_to_string(id);
            append_str(&mut m, n.as_str());
            (1, Some(m), None)
        },
    }
}

/// How `permissions` lists a pending request.
pub open spec fn request_line(id: u64, app: Seq<char>, action: Seq<char>) -> Seq<char> {
    "["@ + int_text(id as int) + "] "@ + app + " wants: "@ + action
}

/// Whether `line` is how `permissions` lists one of the requests `m`.
pub open spec fn lists_a_request(m: Map<u64, RequestView>, line: Seq<char>) -> bool {
    exists|k: u64| #[trigger] m.contains_key(k) && line == request_line(k, m[k].app_name, m[k].action)
}

/// `permissions`: a line for each pending request, in no particular order,
/// or a line saying there are none.
pub fn list(pending: &PendingRequests) -> (r: Vec<String>)
    ensures
        pending.view().dom().len() == 0 ==> r@.len() == 1 && r@[0]@ == "No pending permission requests."@,
        pending.view().dom().len() > 0 ==> r@.len() == pending.view().dom().len()
            && (forall|i: int| 0 <= i < r@.len() ==> lists_a_request(pending.view(), (#[trigger] r@[i])@))
            && (forall|k: u64|
            #[trigger] pending.view().contains_key(k) ==> exists|i: int|
                0 <= i < r@.len() && (#[trigger] r@[i])@ == request_line(
                    k,
                    pending.view()[k].app_name,
                    pending.view()[k].action,
                )),
{
    let requests = pending.list_pending();
    let mut r: Vec<String> = Vec::new();
    if requests.len() == 0 {
        r.push(String::from_str("No pending permission requests."));
        return r;
    }
    let mut i: usize = 0;
    while i < requests.len()
        invariant
            i <= requests@.len(),
            r@.len() == i,
            requests@.len() == pending.view().dom().len(),
            forall|k: u64|
                #[trigger] pending.view().contains_key(k) ==> exists|j: int|
                    0 <= j < requests@.len() && requests@[j].id == k,
            forall|j: int|
                0 <= j < requests@.len() ==> pending.view().contains_key((#[trigger] requests@[j]).id)
                    && pending.view()[requests@[j].id] == requests@[j].view(),
            forall|j: int|
                0 <= j < i ==> (#[trigger] r@[j])@ == request_line(
                    requests@[j].id,
                    requests@[j].app_name@,
                    requests@[j].action@,
                ),
        decreases requests@.len() - i,
    {
        let q = &requests[i];
        let mut line = String::from_str("[");
        let n = u64_to_string(q.id);
        append_str(&mut line, n.as_str());
        append_str(&mut line, "] ");
        append_str(&mut line, q.app_name.as_str());
        append_str(&mut line, " wants: ");
        append_str(&mut line, q.action.as_str());
        r.push(line);
        i = i + 1;
    }
    proof {
        assert forall|j: int| 0 <= j < r@.len() implies lists_a_request(pending.view(), (#[trigger] r@[j])@) by {
            let k = requests@[j].id;
            assert(pending.view().contains_key(k));
            assert(r@[j]@ == request_line(k, pending.view()[k].app_name, pending.view()[k].action));
        }
        assert forall|k: u64| #[trigger] pending.view().contains_key(k) implies exists|j: int|
            0 <= j < r@.len() && (#[trigger] r@[j])@ == request_line(
                k,
                pending.view()[k].app_name,
                pending.view()[k].action,
            ) by {
            let j = choose|j: int| 0 <= j < requests@.len() && requests@[j].id == k;
            assert(pending.view().contains_key(requests@[j].id));
            assert(r@[j]@ == request_line(k, pending.view()[k].app_name, pending.view()[k].action));
        }
    }
    r
}

} // verus!
