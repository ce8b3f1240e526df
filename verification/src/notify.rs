//! Composition of the notification message. Sending is a collaborator's
//! job; the subject line and body are built and pinned down here. The
//! subject distinguishes a first observation from a change; the body
//! carries a human-readable timestamp and the address.

use crate::addr::Address;
use crate::addr::address_text;
use crate::addr::render_address;
use vstd::prelude::*;
use vstd::string::StringExecFns;

verus! {

/// The subject line reporting an address, marked as first detection or as
/// a change.
pub open spec fn subject_text(addr: Address, first: bool) -> Seq<char> {
    if first {
        "[IP Watcher] First external IP detected: "@ + address_text(addr)
    } else {
        "[IP Watcher] External IP changed: "@ + address_text(addr)
    }
}

/// The HTML body reporting an address at a given time.
pub open spec fn body_text(addr: Address, time_text: Seq<char>) -> Seq<char> {
    "<p>Time: "@ + time_text + "</p>\n<p>Current external IP: <b>"@ + address_text(addr)
        + "</b></p>\n<p>This email was sent automatically by ip-watcher.</p>"@
}

/// Writes the subject line for an observation.
pub fn subject_line(addr: &Address, first: bool) -> (r: String)
    ensures
        r@ == subject_text(*addr, first),
{
    let mut out = if first {
        String::from_str("[IP Watcher] First external IP detected: ")
    } else {
        String::from_str("[IP Watcher] External IP changed: ")
    };
    let tail = render_address(addr);
    out.append(tail.as_str());
    out
}

/// Writes the HTML body for an observation at the given time.
pub fn email_body(addr: &Address, time_text: &str) -> (r: String)
    ensures
        r@ == body_text(*addr, time_text@),
{
    let mut out = String::from_str("<p>Time: ");
    out.append(time_text);
    out.append("</p>\n<p>Current external IP: <b>");
    let rendered = render_address(addr);
    out.append(rendered.as_str());
    out.append("</b></p>\n<p>This email was sent automatically by ip-watcher.</p>");
    proof {
        assert(out@ =~= body_text(*addr, time_text@));
    }
    out
}

} // verus!
