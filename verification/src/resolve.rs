//! Resolving the current address from an ordered list of sources: each
//! source is asked once, in list order, and the first response that trims
//! and parses to a valid address wins. The network fetch itself is the
//! caller's job: the `Resolver` names the source to ask and is fed what
//! came back.

use crate::addr::Address;
use crate::addr::address_of_text;
use crate::addr::parse_address;
use crate::text::trim;
use crate::text::trimmed;
use vstd::prelude::*;
use vstd::string::StringExecFns;

verus! {

/// Why no address could be resolved.
#[derive(PartialEq, Eq, Structural, Clone, Copy, Debug)]
pub enum IpError {
    /// The source list was empty: a configuration defect, not retried.
    NoSources,
    /// Every source failed or returned unparseable data.
    AllSourcesFailed,
}

/// What one source's fetch produced: the response body on success, or
/// nothing on a transport error or non-success status.
pub open spec fn body_view(body: Option<String>) -> Option<Seq<char>> {
    match body {
        Some(b) => Some(b@),
        None => None,
    }
}

/// The address a fetch outcome yields, if any: the body, trimmed, read as
/// an address text.
pub open spec fn outcome_address(body: Option<Seq<char>>) -> Option<Address> {
    match body {
        Some(b) => address_of_text(trimmed(b)),
        None => None,
    }
}

/// The first successful outcome in source order, if there is one.
pub open spec fn first_success(outs: Seq<Option<Address>>) -> Option<Address>
    decreases outs.len(),
{
    if outs.len() == 0 {
        None
    } else if outs[0] is Some {
        outs[0]
    } else {
        first_success(outs.drop_first())
    }
}

pub proof fn lemma_first_success_skip(outs: Seq<Option<Address>>, i: int)
    requires
        0 <= i <= outs.len(),
        forall|k: int| 0 <= k < i ==> outs[k] is None,
    ensures
        first_success(outs) == first_success(outs.skip(i)),
    decreases i,
{
    if i > 0 {
        assert(outs[0] is None);
        assert(outs.drop_first() =~= outs.skip(1));
        lemma_first_success_skip(outs.drop_first(), i - 1);
        assert(outs.drop_first().skip(i - 1) =~= outs.skip(i));
    } else {
        assert(outs.skip(0) =~= outs);
    }
}

/// The earliest source whose outcome succeeds decides the result,
/// regardless of every later source's behaviour.
pub proof fn lemma_first_success_earliest(outs: Seq<Option<Address>>, i: int)
    requires
        0 <= i < outs.len(),
        outs[i] is Some,
        forall|k: int| 0 <= k < i ==> outs[k] is None,
    ensures
        first_success(outs) == outs[i],
{
    lemma_first_success_skip(outs, i);
    assert(outs.skip(i)[0] == outs[i]);
}

/// Resolution yields nothing exactly when every source's outcome failed.
pub proof fn lemma_first_success_none_iff(outs: Seq<Option<Address>>)
    ensures
        first_success(outs) is None <==> (forall|k: int|
            0 <= k < outs.len() ==> outs[k] is None),
    decreases outs.len(),
{
    if outs.len() > 0 {
        lemma_first_success_none_iff(outs.drop_first());
        if outs[0] is None {
            if first_success(outs) is None {
                assert forall|k: int| 0 <= k < outs.len() implies outs[k] is None by {
                    if k > 0 {
                        assert(outs.drop_first()[k - 1] == outs[k]);
                    }
                }
            } else {
                let k = choose|k: int|
                    0 <= k < outs.drop_first().len() && !(outs.drop_first()[k] is None);
                assert(outs[k + 1] == outs.drop_first()[k]);
            }
        }
    }
}

/// The views of the built-in fallback source list.
pub open spec fn default_source_views() -> Seq<Seq<char>> {
    seq![
        "https://api.ipify.org"@,
        "https://ifconfig.me/ip"@,
        "https://ident.me"@,
        "https://checkip.amazonaws.com"@,
    ]
}

/// The built-in list of well-known address-echo endpoints, used when the
/// configuration names no sources.
pub fn default_sources() -> (v: Vec<String>)
    ensures
        v@.map_values(|s: String| s@) == default_source_views(),
{
    let mut v: Vec<String> = Vec::new();
    v.push(String::from_str("https://api.ipify.org"));
    v.push(String::from_str("https://ifconfig.me/ip"));
    v.push(String::from_str("https://ident.me"));
    v.push(String::from_str("https://checkip.amazonaws.com"));
    proof {
        assert(v@.map_values(|s: String| s@) =~= default_source_views());
    }
    v
}

/// The source list a run works with: the configured one where present,
/// else the built-in fallback.
pub fn effective_sources(configured: Option<Vec<String>>) -> (v: Vec<String>)
    ensures
        match configured {
            Some(list) => v@ == list@,
            None => v@.map_values(|s: String| s@) == default_source_views(),
        },
{
    match configured {
        Some(list) => list,
        None => default_sources(),
    }
}

/// What feeding one fetch outcome produced.
#[derive(PartialEq, Eq, Structural, Clone, Copy, Debug)]
pub enum ResolveStep {
    /// The outcome failed; another source remains to be asked.
    Continue,
    /// The outcome parsed: resolution is over.
    Done { address: Address },
    /// The outcome failed and no source remains.
    Failed { error: IpError },
}

/// Walks the source list in order, handing out one source at a time and
/// consuming that source's fetch outcome.
pub struct Resolver {
    srcs: Vec<String>,
    idx: usize,
}

impl Resolver {
    /// The views of the sources, in order.
    pub closed spec fn source_list(&self) -> Seq<Seq<char>> {
        self.srcs@.map_values(|s: String| s@)
    }

    /// How many sources have been consumed without success.
    pub closed spec fn tried(&self) -> int {
        self.idx as int
    }

    pub open spec fn wf(&self) -> bool {
        0 <= self.tried() <= self.source_list().len()
    }

    /// Rejects an empty source list before any fetch is asked for.
    pub fn new(sources: Vec<String>) -> (r: Result<Resolver, IpError>)
        ensures
            match r {
                Ok(m) => sources@.len() > 0 && m.wf() && m.source_list() == sources@.map_values(
                    |s: String| s@,
                ) && m.tried() == 0,
                Err(e) => sources@.len() == 0 && e == IpError::NoSources,
            },
    {
        if sources.len() == 0 {
            Err(IpError::NoSources)
        } else {
            Ok(Resolver { srcs: sources, idx: 0 })
        }
    }

    /// Whether every source has been consumed without success.
    pub fn exhausted(&self) -> (b: bool)
        ensures
            b == (self.tried() == self.source_list().len()),
    {
        proof {
            assert(self.source_list().len() == self.srcs@.len());
        }
        self.idx == self.srcs.len()
    }

    /// The source to fetch next.
    pub fn current_source(&self) -> (u: String)
        requires
            self.wf(),
            self.tried() < self.source_list().len(),
        ensures
            u@ == self.source_list()[self.tried()],
    {
        self.srcs[self.idx].clone()
    }

    /// Consumes the current source's fetch outcome: done on a body that
    /// trims and parses to an address, otherwise on to the next source
    /// until none remains.
    pub fn feed(&mut self, body: Option<String>) -> (st: ResolveStep)
        requires
            old(self).wf(),
            old(self).tried() < old(self).source_list().len(),
        ensures
            final(self).wf(),
            final(self).source_list() == old(self).source_list(),
            match outcome_address(body_view(body)) {
                Some(a) => {
                    &&& st == (ResolveStep::Done { address: a })
                    &&& final(self).tried() == old(self).tried()
                },
                None => {
                    &&& final(self).tried() == old(self).tried() + 1
                    &&& st == (if final(self).tried() == final(self).source_list().len() {
                        ResolveStep::Failed { error: IpError::AllSourcesFailed }
                    } else {
                        ResolveStep::Continue
                    })
                },
            },
    {
        match body {
            Some(b) => {
                let t = trim(b.as_str());
                match parse_address(t) {
                    Some(a) => ResolveStep::Done { address: a },
                    None => self.advance(),
                }
            },
            None => self.advance(),
        }
    }

    fn advance(&mut self) -> (st: ResolveStep)
        requires
            old(self).wf(),
            old(self).tried() < old(self).source_list().len(),
        ensures
            final(self).wf(),
            final(self).source_list() == old(self).source_list(),
            final(self).tried() == old(self).tried() + 1,
            st == (if final(self).tried() == final(self).source_list().len() {
                ResolveStep::Failed { error: IpError::AllSourcesFailed }
            } else {
                ResolveStep::Continue
            }),
    {
        proof {
            assert(self.source_list().len() == self.srcs@.len());
        }
        let n = self.srcs.len();
        self.idx += 1;
        if self.idx == n {
            ResolveStep::Failed { error: IpError::AllSourcesFailed }
        } else {
            ResolveStep::Continue
        }
    }
}

/// The per-source outcomes of a list of fetched bodies.
pub open spec fn outcomes_of(bodies: Seq<Option<String>>) -> Seq<Option<Address>> {
    bodies.map_values(|b: Option<String>| outcome_address(body_view(b)))
}

/// Resolution over already-fetched bodies, one per source: the result is
/// the earliest source's address that parses, `NoSources` on an empty
/// list, `AllSourcesFailed` exactly when every outcome fails.
pub fn resolve_prefetched(sources: Vec<String>, bodies: &Vec<Option<String>>) -> (r: Result<
    Address,
    IpError,
>)
    requires
        bodies@.len() == sources@.len(),
    ensures
        sources@.len() == 0 ==> r == Err::<Address, IpError>(IpError::NoSources),
        sources@.len() > 0 ==> r == (match first_success(outcomes_of(bodies@)) {
            Some(a) => Ok::<Address, IpError>(a),
            None => Err::<Address, IpError>(IpError::AllSourcesFailed),
        }),
{
    let ghost outs = outcomes_of(bodies@);
    let mut m = match Resolver::new(sources) {
        Ok(m) => m,
        Err(e) => {
            return Err(e);
        },
    };
    proof {
        assert(m.source_list().len() == sources@.len());
    }
    let mut i: usize = 0;
    loop
        invariant
            m.wf(),
            m.source_list().len() == bodies@.len(),
            sources@.len() == bodies@.len(),
            i == m.tried(),
            i < bodies@.len(),
            outs == outcomes_of(bodies@),
            outs.len() == bodies@.len(),
            forall|k: int| 0 <= k < i ==> outs[k] is None,
        decreases bodies@.len() - i,
    {
        let body = match &bodies[i] {
            Some(b) => Some(b.clone()),
            None => None,
        };
        proof {
            assert(outs[i as int] == outcome_address(body_view(body)));
        }
        let st = m.feed(body);
        match st {
            ResolveStep::Done { address } => {
                proof {
                    lemma_first_success_earliest(outs, i as int);
                }
                return Ok(address);
            },
            ResolveStep::Failed { error } => {
                proof {
                    lemma_first_success_none_iff(outs);
                }
                return Err(error);
            },
            ResolveStep::Continue => {
                i += 1;
            },
        }
    }
}

} // verus!
