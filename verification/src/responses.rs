//! The textual response convention: one line per request, `OK: <detail>`
//! on success, `ERR: <reason>` on failure.

use vstd::prelude::*;
use vstd::string::{StrSliceExecFns, StringExecFns};

use crate::codec::{push_udec, udec};

verus! {

pub open spec fn ok_found_line(k: Seq<char>, v: Seq<char>) -> Seq<char> {
    "OK: "@ + k + "="@ + v + "\n"@
}

pub open spec fn not_found_line(k: Seq<char>) -> Seq<char> {
    "ERR: Key '"@ + k + "' not found\n"@
}

pub open spec fn ok_inserted_line(k: Seq<char>, v: Seq<char>) -> Seq<char> {
    "OK: Inserted '"@ + k + "'='"@ + v + "'\n"@
}

pub open spec fn ok_replicated_line(k: Seq<char>, v: Seq<char>) -> Seq<char> {
    "OK: Replicated '"@ + k + "'='"@ + v + "'\n"@
}

pub open spec fn ok_registered_line(p: u16) -> Seq<char> {
    "OK: Registered follower on port "@ + udec(p as nat) + "\n"@
}

pub open spec fn invalid_port_line() -> Seq<char> {
    "ERR: Invalid port number\n"@
}

pub open spec fn only_leader_registers_line() -> Seq<char> {
    "ERR: Only leader can register followers\n"@
}

pub open spec fn leader_no_replicate_line() -> Seq<char> {
    "ERR: Leader should not receive replicate commands\n"@
}

pub open spec fn unknown_command_line() -> Seq<char> {
    "ERR: Unknown command\n"@
}

pub open spec fn parse_error_line() -> Seq<char> {
    "ERR: Failed to parse message\n"@
}

pub open spec fn new_connection_line() -> Seq<char> {
    "New client connection received\n"@
}

pub open spec fn leader_unreachable_line() -> Seq<char> {
    "ERR: Leader unreachable\n"@
}

pub(crate) fn build_ok_found(k: &str, v: &str) -> (r: String)
    ensures
        r@ == ok_found_line(k@, v@),
{
    let mut out = String::from_str("OK: ");
    out.append(k);
    out.append("=");
    out.append(v);
    out.append("\n");
    proof {
        assert(out@ =~= ok_found_line(k@, v@));
    }
    out
}

pub(crate) fn build_not_found(k: &str) -> (r: String)
    ensures
        r@ == not_found_line(k@),
{
    let mut out = String::from_str("ERR: Key '");
    out.append(k);
    out.append("' not found\n");
    proof {
        assert(out@ =~= not_found_line(k@));
    }
    out
}

pub(crate) fn build_ok_inserted(k: &str, v: &str) -> (r: String)
    ensures
        r@ == ok_inserted_line(k@, v@),
{
    let mut out = String::from_str("OK: Inserted '");
    out.append(k);
    out.append("'='");
    out.append(v);
    out.append("'\n");
    proof {
        assert(out@ =~= ok_inserted_line(k@, v@));
    }
    out
}

pub(crate) fn build_ok_replicated(k: &str, v: &str) -> (r: String)
    ensures
        r@ == ok_replicated_line(k@, v@),
{
    let mut out = String::from_str("OK: Replicated '");
    out.append(k);
    out.append("'='");
    out.append(v);
    out.append("'\n");
    proof {
        assert(out@ =~= ok_replicated_line(k@, v@));
    }
    out
}

pub(crate) fn build_ok_registered(p: u16) -> (r: String)
    ensures
        r@ == ok_registered_line(p),
{
    let mut out = String::from_str("OK: Registered follower on port ");
    push_udec(p as u64, &mut out);
    out.append("\n");
    proof {
        assert(out@ =~= ok_registered_line(p));
    }
    out
}

/// Relays the leader's reply verbatim, or reports that the leader
/// could not be reached.
pub fn forward_reply(reply: Option<String>) -> (r: String)
    ensures
        match reply {
            Some(line) => r@ == line@,
            None => r@ == leader_unreachable_line(),
        },
{
    match reply {
        Some(line) => line,
        None => String::from_str("ERR: Leader unreachable\n"),
    }
}

/// A response line that acknowledges success.
pub open spec fn is_ok_response(s: Seq<char>) -> bool {
    s.len() >= 3 && s.subrange(0, 3) == "OK:"@
}

/// Whether a peer's reply acknowledges success, as the replication
/// fan-out judges it.
pub fn response_is_ok(resp: &str) -> (r: bool)
    ensures
        r == is_ok_response(resp@),
{
    proof {
        reveal_strlit("OK:");
        assert("OK:"@ =~= seq!['O', 'K', ':']);
    }
    let n = resp.unicode_len();
    if n < 3 {
        return false;
    }
    let c0 = match resp.get_char(0) {
        'O' => true,
        _ => false,
    };
    let c1 = match resp.get_char(1) {
        'K' => true,
        _ => false,
    };
    let c2 = match resp.get_char(2) {
        ':' => true,
        _ => false,
    };
    let r = c0 && c1 && c2;
    proof {
        assert(resp@.subrange(0, 3) =~= seq![resp@[0], resp@[1], resp@[2]]);
        if r {
            assert(resp@.subrange(0, 3) =~= "OK:"@);
        } else {
            assert(resp@.subrange(0, 3) != "OK:"@);
        }
    }
    r
}

} // verus!
