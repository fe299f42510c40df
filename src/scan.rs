use vstd::prelude::*;

use crate::config::{config_error, ConfigError, ScanConfig};
use crate::result::PortResult;
use crate::session::{
    lemma_open_ports_exact, open_ports, outcomes, ports_of, reports_open, ProbeState, ScanSession,
};

verus! {

/// What a scan of a host whose ports answer as `open` says (entry i stands for
/// port i + 1): the open ports in ascending order, or why the configuration was
/// refused.
pub open spec fn scan_spec(config: ScanConfig, open: Seq<bool>) -> Result<Seq<u16>, ConfigError> {
    match config_error(config) {
        Some(e) => Err(e),
        None => Ok(open_ports(open)),
    }
}

/// The open ports a scan reports do not depend on the worker count, on the
/// order of probing or on the seed of the shuffle: two configurations that
/// differ only there give the same answer for the same host.
pub proof fn lemma_worker_count_invariance(c1: ScanConfig, c2: ScanConfig, open: Seq<bool>)
    requires
        c1.ipaddr == c2.ipaddr,
        c1.timeout == c2.timeout,
        c1.delay == c2.delay,
        c1.threads > 0,
        c2.threads > 0,
    ensures
        scan_spec(c1, open) == scan_spec(c2, open),
{
}

/// A scan under a valid configuration reports each open port exactly once, in
/// ascending order, and no closed port.
pub proof fn lemma_scan_reports_open_ports_once(config: ScanConfig, open: Seq<bool>)
    requires
        config_error(config) is None,
        open.len() == 1024,
    ensures
        scan_spec(config, open) matches Ok(ps) && {
            &&& ps.no_duplicates()
            &&& forall|i: int, j: int| 0 <= i < j < ps.len() ==> ps[i] < ps[j]
            &&& forall|p: u16| #[trigger] ps.contains(p) <==> 1 <= p <= 1024 && open[p - 1]
        },
{
    lemma_open_ports_exact(open, 1024);
    let ps = open_ports(open);
    assert forall|i: int, j: int| 0 <= i < ps.len() && 0 <= j < ps.len() && i != j implies ps[i]
        != ps[j] by {
        if i < j {
            assert(ps[i] < ps[j]);
        } else {
            assert(ps[j] < ps[i]);
        }
    }
}

/// Runs a whole scan against a host whose ports answer as `open_table` says
/// (entry i stands for port i + 1), keeping up to the configured number of
/// probes in flight and taking their outcomes back one by one.
pub fn scan_ports_with(config: ScanConfig, seed: u64, open_table: &Vec<bool>) -> (r: Result<
    Vec<PortResult>,
    ConfigError,
>)
    requires
        open_table@.len() == 1024,
    ensures
        match r {
            Ok(v) => scan_spec(config, open_table@) == Ok::<Seq<u16>, ConfigError>(ports_of(v@))
                && reports_open(v@, open_table@),
            Err(e) => scan_spec(config, open_table@) == Err::<Seq<u16>, ConfigError>(e),
        },
{
    let mut session = match ScanSession::start(config, seed) {
        Ok(s) => s,
        Err(e) => {
            return Err(e);
        },
    };
    let mut flying: Vec<u16> = Vec::new();
    while !session.is_complete()
        invariant
            session.wf(),
            session.spec_config() == config,
            open_table@.len() == 1024,
            flying@.len() == session.spec_in_flight(),
            flying@.no_duplicates(),
            forall|j: int|
                0 <= j < flying@.len() ==> 1 <= #[trigger] flying@[j] <= 1024
                    && session.spec_states()[flying@[j] - 1] == ProbeState::InFlight,
            forall|i: int|
                0 <= i < 1024 && #[trigger] session.spec_states()[i] is Done
                    ==> session.spec_states()[i] == ProbeState::Done(open_table@[i]),
        decreases 2 * (1024 - session.spec_next()) + session.spec_in_flight(),
    {
        match session.next_probe() {
            Some(p) => {
                flying.push(p);
            },
            None => {
                let p = flying.remove(flying.len() - 1);
                let ok = session.record(p, open_table[(p - 1) as usize]);
                assert(ok);
                assert forall|j: int| 0 <= j < flying@.len() implies 1 <= #[trigger] flying@[j]
                    <= 1024 && session.spec_states()[flying@[j] - 1]
                    == ProbeState::InFlight by {
                    assert(flying@[j] != p);
                }
            },
        }
    }
    proof {
        session.lemma_complete_all_done();
        assert(outcomes(session.spec_states()) =~= open_table@);
    }
    Ok(session.open_results().unwrap())
}

} // verus!
