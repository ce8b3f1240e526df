//! The append-only ledger of observed addresses. Appending is the only
//! mutation; readers only ever need the most recent entry. The durable
//! backend is a collaborator: it mirrors this ledger row for row.

use crate::addr::Address;
use crate::text::is_digit;
use vstd::prelude::*;
use vstd::string::StringExecFns;

verus! {

/// Why a store operation failed.
#[derive(PartialEq, Eq, Structural, Clone, Copy, Debug)]
pub enum StoreError {
    ReadFailed,
    WriteFailed,
}

/// One recorded (address, timestamp) pair: created once per detected
/// change, never mutated.
#[derive(Clone, Debug)]
pub struct Observation {
    pub address: Address,
    pub observed_at: String,
}

/// The ordered, append-only sequence of observations.
pub struct History {
    entries: Vec<Observation>,
}

impl View for History {
    type V = Seq<Observation>;

    closed spec fn view(&self) -> Seq<Observation> {
        self.entries@
    }
}

impl History {
    /// A fresh store holds nothing.
    pub fn new() -> (h: History)
        ensures
            h@ == Seq::<Observation>::empty(),
    {
        let h = History { entries: Vec::new() };
        proof {
            assert(h@ =~= Seq::<Observation>::empty());
        }
        h
    }

    /// Records a new observation after every prior one; nothing is
    /// reordered or overwritten.
    pub fn append(&mut self, address: Address, observed_at: String)
        ensures
            final(self)@ == old(self)@.push((Observation { address, observed_at })),
    {
        self.entries.push(Observation { address, observed_at });
    }

    /// The address of the most recent observation, or nothing if none was
    /// ever recorded.
    pub fn last_address(&self) -> (r: Option<Address>)
        ensures
            match r {
                None => self@.len() == 0,
                Some(a) => self@.len() > 0 && a == self@.last().address,
            },
    {
        let n = self.entries.len();
        if n == 0 {
            None
        } else {
            Some(self.entries[n - 1].address)
        }
    }

    pub fn len(&self) -> (n: usize)
        ensures
            n == self@.len(),
    {
        self.entries.len()
    }

    pub fn get(&self, i: usize) -> (o: &Observation)
        requires
            i < self@.len(),
        ensures
            *o == self@[i as int],
    {
        &self.entries[i]
    }
}

/// After appending one observation and then another, the most recent entry
/// is the second, whatever the store held before.
pub proof fn lemma_append_then_append(h: Seq<Observation>, first: Observation, second: Observation)
    ensures
        h.push(first).push(second).len() > 0,
        h.push(first).push(second).last() == second,
{
}

/// The most recent address is always one that was appended: it sits in the
/// ledger itself.
pub proof fn lemma_last_address_was_appended(h: Seq<Observation>)
    requires
        h.len() > 0,
    ensures
        exists|i: int| 0 <= i < h.len() && #[trigger] h[i].address == h.last().address,
{
    assert(h[h.len() - 1].address == h.last().address);
}

/// The shape of an RFC 3339 UTC timestamp as the formatter writes it: a
/// four-digit year, two-digit calendar and clock fields at fixed
/// positions, an optional fraction, and a final `Z`.
pub open spec fn rfc3339_shape(t: Seq<char>) -> bool {
    &&& t.len() >= 20
    &&& (forall|i: int| 0 <= i < 4 ==> is_digit(#[trigger] t[i]))
    &&& t[4] == '-'
    &&& is_digit(t[5]) && is_digit(t[6])
    &&& t[7] == '-'
    &&& is_digit(t[8]) && is_digit(t[9])
    &&& t[10] == 'T'
    &&& is_digit(t[11]) && is_digit(t[12])
    &&& t[13] == ':'
    &&& is_digit(t[14]) && is_digit(t[15])
    &&& t[16] == ':'
    &&& is_digit(t[17]) && is_digit(t[18])
    &&& t.last() == 'Z'
}

/// Relies on time::OffsetDateTime::now_utc and its RFC 3339 formatting.
/// Which instant comes back depends on the clock, so only the successful
/// text's shape is promised: the formatter writes the year as four digits
/// (failing on years it cannot), each further field as two digits behind
/// its fixed separator, and `Z` for the UTC offset.
#[verifier::external_body]
fn format_now_rfc3339() -> (r: Option<String>)
    ensures
        r matches Some(t) ==> rfc3339_shape(t@),
{
    time::OffsetDateTime::now_utc()
        .format(&time::format_description::well_known::Rfc3339)
        .ok()
}

/// The current UTC time as RFC 3339 text, or a fixed marker when the
/// formatter fails.
pub fn now_text() -> (r: String)
    ensures
        r@ == "unknown-time"@ || rfc3339_shape(r@),
{
    match format_now_rfc3339() {
        Some(s) => s,
        None => String::from_str("unknown-time"),
    }
}

} // verus!
