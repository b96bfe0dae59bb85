//! The probe stages: which targets answer, and which of those speak the
//! protocol without credentials.

use vstd::prelude::*;
use crate::endpoint::{Endpoint, addrs};

verus! {

/// How one deadline-bounded step of a probe ended.
#[derive(Clone, Copy, Debug, PartialEq, Eq, Structural)]
pub enum Step {
    Completed,
    Failed,
    TimedOut,
}

/// How the protocol handshake of one target ended.
#[derive(Clone, Copy, Debug, PartialEq, Eq, Structural)]
pub enum Handshake {
    Passed,
    ConnectFailed,
    ConnectTimedOut,
    CommandFailed,
    CommandTimedOut,
}

/// The fixed limits of a run.
#[derive(Clone, Copy, Debug, PartialEq, Eq, Structural)]
pub struct Config {
    /// Probes in flight at once in the reachability, handshake and metadata stages.
    pub probe_concurrency: usize,
    /// Extraction workers at once.
    pub extraction_concurrency: usize,
    /// Deadline of each connection attempt and of each command, in milliseconds.
    pub connect_timeout_ms: u64,
}

impl Config {
    pub fn standard() -> (r: Config)
        ensures
            r.probe_concurrency == 16,
            r.extraction_concurrency == 4,
            r.connect_timeout_ms == 10000,
    {
        Config { probe_concurrency: 16, extraction_concurrency: 4, connect_timeout_ms: 10000 }
    }
}

/// A target passes the reachability stage iff its connection was made in time.
pub fn reach_passes(connect: Step) -> (r: bool)
    ensures
        r == (connect == Step::Completed),
{
    match connect {
        Step::Completed => true,
        _ => false,
    }
}

/// What the handshake decides once its connection step has ended: `None` when
/// the liveness command is to be sent next, else the verdict.
pub fn after_connect(connect: Step) -> (r: Option<Handshake>)
    ensures
        connect == Step::Completed <==> r is None,
        connect == Step::Failed ==> r == Some(Handshake::ConnectFailed),
        connect == Step::TimedOut ==> r == Some(Handshake::ConnectTimedOut),
{
    match connect {
        Step::Completed => None,
        Step::Failed => Some(Handshake::ConnectFailed),
        Step::TimedOut => Some(Handshake::ConnectTimedOut),
    }
}

/// The verdict of a handshake whose liveness command has ended.
pub fn after_command(command: Step) -> (r: Handshake)
    ensures
        r == match command {
            Step::Completed => Handshake::Passed,
            Step::Failed => Handshake::CommandFailed,
            Step::TimedOut => Handshake::CommandTimedOut,
        },
{
    match command {
        Step::Completed => Handshake::Passed,
        Step::Failed => Handshake::CommandFailed,
        Step::TimedOut => Handshake::CommandTimedOut,
    }
}

/// The items of `c` whose flag in `pass` is set, in order.
pub open spec fn kept<T>(c: Seq<T>, pass: Seq<bool>) -> Seq<T>
    decreases c.len(),
{
    if c.len() == 0 || pass.len() < c.len() {
        Seq::<T>::empty()
    } else {
        let rest = kept(c.drop_last(), pass.subrange(0, c.len() - 1));
        if pass[c.len() - 1] {
            rest.push(c.last())
        } else {
            rest
        }
    }
}

/// A stage only narrows: what leaves it is no longer than what entered, and
/// each survivor is one of the candidates that entered.
pub proof fn lemma_stage_narrows<T>(c: Seq<T>, pass: Seq<bool>)
    requires
        pass.len() == c.len(),
    ensures
        kept(c, pass).len() <= c.len(),
        forall|j: int| 0 <= j < kept(c, pass).len() ==> c.contains(#[trigger] kept(c, pass)[j]),
    decreases c.len(),
{
    if c.len() > 0 {
        let c0 = c.drop_last();
        let p0 = pass.subrange(0, c.len() - 1);
        lemma_stage_narrows(c0, p0);
        let k = kept(c, pass);
        assert forall|j: int| 0 <= j < k.len() implies c.contains(#[trigger] k[j]) by {
            if j < kept(c0, p0).len() {
                assert(k[j] == kept(c0, p0)[j]);
                let w = choose|w: int| 0 <= w < c0.len() && c0[w] == k[j];
                assert(c[w] == k[j]);
            } else {
                assert(k[j] == c[c.len() - 1]);
            }
        }
    }
}

/// What `keep_flagged` returns narrows its candidates.
proof fn lemma_kept_from(c: Seq<Endpoint>, pass: Seq<bool>, r: Seq<Endpoint>)
    requires
        pass.len() == c.len(),
        addrs(r) == kept(addrs(c), pass),
    ensures
        r.len() <= c.len(),
        forall|j: int| 0 <= j < r.len() ==> addrs(c).contains(#[trigger] r[j]@),
{
    lemma_stage_narrows(addrs(c), pass);
    assert forall|j: int| 0 <= j < r.len() implies addrs(c).contains(#[trigger] r[j]@) by {
        assert(addrs(r)[j] == r[j]@);
    }
}

/// The candidates whose flag is set.
fn keep_flagged(c: &Vec<Endpoint>, pass: &Vec<bool>) -> (r: Vec<Endpoint>)
    requires
        pass@.len() == c@.len(),
    ensures
        addrs(r@) == kept(addrs(c@), pass@),
{
    let mut out: Vec<Endpoint> = Vec::new();
    let mut i: usize = 0;
    while i < c.len()
        invariant
            pass@.len() == c@.len(),
            i <= c@.len(),
            addrs(out@) == kept(addrs(c@).subrange(0, i as int), pass@.subrange(0, i as int)),
        decreases c.len() - i,
    {
        let ghost a = addrs(c@);
        assert(a.subrange(0, i as int + 1).drop_last() =~= a.subrange(0, i as int));
        assert(pass@.subrange(0, i as int + 1).subrange(0, i as int) =~= pass@.subrange(0, i as int));
        assert(a.subrange(0, i as int + 1).last() == c@[i as int]@);
        if pass[i] {
            let ghost before = addrs(out@);
            out.push(c[i].duplicate());
            assert(addrs(out@) =~= before.push(c@[i as int]@));
        }
        i = i + 1;
    }
    assert(addrs(c@).subrange(0, i as int) =~= addrs(c@));
    assert(pass@.subrange(0, i as int) =~= pass@);
    out
}

/// The reachability stage: the candidates whose connection was made in time.
/// `connects[i]` is how the attempt on `candidates[i]` ended.
pub fn reachable(candidates: &Vec<Endpoint>, connects: &Vec<Step>) -> (r: Vec<Endpoint>)
    requires
        connects@.len() == candidates@.len(),
    ensures
        addrs(r@) == kept(addrs(candidates@), connects@.map_values(|s: Step| s == Step::Completed)),
        r@.len() <= candidates@.len(),
        forall|j: int| 0 <= j < r@.len() ==> addrs(candidates@).contains(#[trigger] r@[j]@),
{
    let mut pass: Vec<bool> = Vec::new();
    let mut i: usize = 0;
    while i < connects.len()
        invariant
            i <= connects@.len(),
            pass@ == connects@.subrange(0, i as int).map_values(|s: Step| s == Step::Completed),
        decreases connects.len() - i,
    {
        pass.push(reach_passes(connects[i]));
        i = i + 1;
        assert(pass@ =~= connects@.subrange(0, i as int).map_values(|s: Step| s == Step::Completed));
    }
    assert(connects@.subrange(0, i as int) =~= connects@);
    let r = keep_flagged(candidates, &pass);
    proof {
        lemma_kept_from(candidates@, pass@, r@);
    }
    r
}

/// The handshake stage: the candidates that answered the liveness command
/// without credentials. `verdicts[i]` is the verdict on `candidates[i]`.
pub fn responsive(candidates: &Vec<Endpoint>, verdicts: &Vec<Handshake>) -> (r: Vec<Endpoint>)
    requires
        verdicts@.len() == candidates@.len(),
    ensures
        addrs(r@) == kept(addrs(candidates@), verdicts@.map_values(|h: Handshake| h == Handshake::Passed)),
        r@.len() <= candidates@.len(),
        forall|j: int| 0 <= j < r@.len() ==> addrs(candidates@).contains(#[trigger] r@[j]@),
{
    let mut pass: Vec<bool> = Vec::new();
    let mut i: usize = 0;
    while i < verdicts.len()
        invariant
            i <= verdicts@.len(),
            pass@ == verdicts@.subrange(0, i as int).map_values(|h: Handshake| h == Handshake::Passed),
        decreases verdicts.len() - i,
    {
        pass.push(verdicts[i] == Handshake::Passed);
        i = i + 1;
        assert(pass@ =~= verdicts@.subrange(0, i as int).map_values(|h: Handshake| h == Handshake::Passed));
    }
    assert(verdicts@.subrange(0, i as int) =~= verdicts@);
    let r = keep_flagged(candidates, &pass);
    proof {
        lemma_kept_from(candidates@, pass@, r@);
    }
    r
}

} // verus!
