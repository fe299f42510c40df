use vstd::prelude::*;

use crate::config::{config_error, ConfigError, ScanConfig};
use crate::ports::{ascending_ports, is_port_permutation, port_order, shuffled, PORT_COUNT};
use crate::result::PortResult;

verus! {

/// Where the probe of one port stands.
#[derive(Clone, Copy, PartialEq, Eq, Structural)]
pub enum ProbeState {
    /// Not dispatched yet.
    Pending,
    /// Dispatched, no outcome yet.
    InFlight,
    /// Probed; `true` when the port accepted the connection.
    Done(bool),
}

/// How many entries of `s` are in flight.
pub open spec fn in_flight_count(s: Seq<ProbeState>) -> nat
    decreases s.len(),
{
    if s.len() == 0 {
        0
    } else {
        in_flight_count(s.drop_last()) + (if s.last() == ProbeState::InFlight {
            1nat
        } else {
            0nat
        })
    }
}

proof fn lemma_count_update(s: Seq<ProbeState>, i: int, x: ProbeState)
    requires
        0 <= i < s.len(),
    ensures
        in_flight_count(s.update(i, x)) + (if s[i] == ProbeState::InFlight {
            1nat
        } else {
            0nat
        }) == in_flight_count(s) + (if x == ProbeState::InFlight {
            1nat
        } else {
            0nat
        }),
    decreases s.len(),
{
    let t = s.update(i, x);
    if i == s.len() - 1 {
        assert(t.drop_last() =~= s.drop_last());
    } else {
        assert(t.drop_last() =~= s.drop_last().update(i, x));
        lemma_count_update(s.drop_last(), i, x);
    }
}

proof fn lemma_count_zero(s: Seq<ProbeState>, i: int)
    requires
        in_flight_count(s) == 0,
        0 <= i < s.len(),
    ensures
        s[i] != ProbeState::InFlight,
    decreases s.len(),
{
    if i < s.len() - 1 {
        lemma_count_zero(s.drop_last(), i);
    }
}

proof fn lemma_count_none_in_flight(s: Seq<ProbeState>)
    requires
        forall|i: int| 0 <= i < s.len() ==> #[trigger] s[i] != ProbeState::InFlight,
    ensures
        in_flight_count(s) == 0,
    decreases s.len(),
{
    if s.len() > 0 {
        lemma_count_none_in_flight(s.drop_last());
    }
}

/// Which ports turned out open, indexed by port - 1.
pub open spec fn outcomes(s: Seq<ProbeState>) -> Seq<bool> {
    Seq::new(s.len(), |i: int| s[i] == ProbeState::Done(true))
}

/// The ports among 1..=n that `open` marks open (entry i stands for port i + 1),
/// ascending.
pub open spec fn open_ports_upto(open: Seq<bool>, n: nat) -> Seq<u16>
    decreases n,
{
    if n == 0 {
        Seq::empty()
    } else if open[n - 1] {
        open_ports_upto(open, (n - 1) as nat).push(n as u16)
    } else {
        open_ports_upto(open, (n - 1) as nat)
    }
}

/// The ports that `open` marks open, ascending.
pub open spec fn open_ports(open: Seq<bool>) -> Seq<u16> {
    open_ports_upto(open, open.len())
}

/// The ports `open_ports_upto(open, n)` lists are ascending, and a port is
/// among them exactly when it lies in 1..=n and `open` marks it open.
pub proof fn lemma_open_ports_exact(open: Seq<bool>, n: nat)
    requires
        n <= open.len(),
        n <= 1024,
    ensures
        forall|i: int, j: int|
            0 <= i < j < open_ports_upto(open, n).len() ==> open_ports_upto(open, n)[i]
                < open_ports_upto(open, n)[j],
        forall|i: int|
            0 <= i < open_ports_upto(open, n).len() ==> 1 <= #[trigger] open_ports_upto(
                open,
                n,
            )[i] <= n,
        forall|p: u16|
            #[trigger] open_ports_upto(open, n).contains(p) <==> 1 <= p <= n && open[p - 1],
    decreases n,
{
    if n > 0 {
        let m = (n - 1) as nat;
        lemma_open_ports_exact(open, m);
        let prev = open_ports_upto(open, m);
        let cur = open_ports_upto(open, n);
        assert forall|p: u16| #[trigger] cur.contains(p) <==> 1 <= p <= n && open[p - 1] by {
            if 1 <= p <= n && open[p - 1] {
                if p < n {
                    assert(prev.contains(p));
                    let k = choose|k: int| 0 <= k < prev.len() && prev[k] == p;
                    if open[m as int] {
                        assert(cur[k] == p);
                    }
                } else {
                    assert(cur[cur.len() - 1] == p);
                }
            }
            if cur.contains(p) {
                let k = choose|k: int| 0 <= k < cur.len() && cur[k] == p;
                if k < prev.len() {
                    assert(prev[k] == p);
                    assert(prev.contains(p));
                }
            }
        }
    }
}

/// The port numbers of a list of results, in its order.
pub open spec fn ports_of(rs: Seq<PortResult>) -> Seq<u16> {
    rs.map_values(|r: PortResult| r.port)
}

/// A list that reports exactly the ports `open` marks open, ascending, each
/// as open and with its service name.
pub open spec fn reports_open(rs: Seq<PortResult>, open: Seq<bool>) -> bool {
    &&& ports_of(rs) == open_ports(open)
    &&& forall|i: int| 0 <= i < rs.len() ==> (#[trigger] rs[i]).is_open && rs[i].named()
}

/// A list that holds one result per port of 1..=1024, ascending, each with the
/// outcome `open` gives it and its service name.
pub open spec fn reports_all(rs: Seq<PortResult>, open: Seq<bool>) -> bool {
    &&& rs.len() == 1024
    &&& forall|i: int|
        0 <= i < 1024 ==> (#[trigger] rs[i]).port == i + 1 && rs[i].is_open == open[i]
            && rs[i].named()
}

/// A running scan: the order in which ports are dispatched, how far dispatch
/// has come, and the state of each port's probe.
pub struct ScanSession {
    config: ScanConfig,
    order: Vec<u16>,
    next: usize,
    in_flight: usize,
    states: Vec<ProbeState>,
}

impl ScanSession {
    pub closed spec fn spec_config(&self) -> ScanConfig {
        self.config
    }

    /// The ports in dispatch order.
    pub closed spec fn spec_order(&self) -> Seq<u16> {
        self.order@
    }

    /// How many ports have been dispatched.
    pub closed spec fn spec_next(&self) -> nat {
        self.next as nat
    }

    /// How many probes are in flight.
    pub closed spec fn spec_in_flight(&self) -> nat {
        self.in_flight as nat
    }

    /// The state of each port's probe, indexed by port - 1.
    pub closed spec fn spec_states(&self) -> Seq<ProbeState> {
        self.states@
    }

    pub open spec fn wf(&self) -> bool {
        &&& config_error(self.spec_config()) is None
        &&& is_port_permutation(self.spec_order())
        &&& self.spec_states().len() == 1024
        &&& self.spec_next() <= 1024
        &&& self.spec_in_flight() == in_flight_count(self.spec_states())
        &&& self.spec_in_flight() <= self.spec_config().threads
        &&& forall|k: int|
            0 <= k < 1024 ==> (#[trigger] self.spec_states()[self.spec_order()[k] - 1]
                == ProbeState::Pending <==> k >= self.spec_next())
    }

    /// The ports handed out by `next_probe` so far, in the order they went.
    pub open spec fn dispatched(&self) -> Seq<u16> {
        self.spec_order().take(self.spec_next() as int)
    }

    /// Every port has been dispatched and has its outcome.
    pub open spec fn complete(&self) -> bool {
        self.spec_next() == 1024 && self.spec_in_flight() == 0
    }

    /// Starts a scan of `config`'s target; `seed` drives the shuffle when the
    /// configuration asks for a shuffled order. Nothing is dispatched yet.
    pub fn start(config: ScanConfig, seed: u64) -> (r: Result<ScanSession, ConfigError>)
        ensures
            match config_error(config) {
                Some(e) => r == Err::<ScanSession, ConfigError>(e),
                None => r is Ok,
            },
            r matches Ok(s) ==> {
                &&& s.wf()
                &&& s.spec_config() == config
                &&& s.spec_next() == 0
                &&& s.spec_in_flight() == 0
                &&& forall|i: int| 0 <= i < 1024 ==> #[trigger] s.spec_states()[i] == ProbeState::Pending
                &&& !config.randomize ==> s.spec_order() == ascending_ports()
                &&& config.randomize ==> s.spec_order() == shuffled(
                    ascending_ports(),
                    seed % 2147483648,
                    1023,
                )
                &&& s.dispatched() == Seq::<u16>::empty()
            },
    {
        match config.validate() {
            Err(e) => {
                return Err(e);
            },
            Ok(()) => {},
        }
        let order = port_order(config.randomize, seed);
        let mut states: Vec<ProbeState> = Vec::new();
        let mut i: usize = 0;
        while i < PORT_COUNT
            invariant
                i <= PORT_COUNT,
                states@.len() == i,
                forall|j: int| 0 <= j < i ==> #[trigger] states@[j] == ProbeState::Pending,
            decreases PORT_COUNT - i,
        {
            states.push(ProbeState::Pending);
            i = i + 1;
        }
        proof {
            lemma_count_none_in_flight(states@);
        }
        let s = ScanSession { config, order, next: 0, in_flight: 0, states };
        assert forall|k: int| 0 <= k < 1024 implies (#[trigger] s.spec_states()[s.spec_order()[k]
            - 1] == ProbeState::Pending <==> k >= s.spec_next()) by {}
        Ok(s)
    }

    /// The configuration the scan runs under.
    pub fn config(&self) -> (r: ScanConfig)
        ensures
            r == self.spec_config(),
    {
        self.config
    }

    /// Whether every port has been dispatched and has its outcome.
    pub fn is_complete(&self) -> (r: bool)
        ensures
            r == self.complete(),
    {
        self.next == PORT_COUNT && self.in_flight == 0
    }

    /// Dispatches the next port of the order, if one is left and fewer probes
    /// than the worker count are in flight.
    pub fn next_probe(&mut self) -> (r: Option<u16>)
        requires
            old(self).wf(),
        ensures
            final(self).wf(),
            final(self).spec_config() == old(self).spec_config(),
            final(self).spec_order() == old(self).spec_order(),
            match r {
                Some(p) => {
                    &&& old(self).spec_next() < 1024
                    &&& old(self).spec_in_flight() < old(self).spec_config().threads
                    &&& p == old(self).spec_order()[old(self).spec_next() as int]
                    &&& 1 <= p <= 1024
                    &&& old(self).spec_states()[p - 1] == ProbeState::Pending
                    &&& final(self).spec_next() == old(self).spec_next() + 1
                    &&& final(self).dispatched() == old(self).dispatched().push(p)
                    &&& final(self).spec_in_flight() == old(self).spec_in_flight() + 1
                    &&& final(self).spec_states() == old(self).spec_states().update(
                        p - 1,
                        ProbeState::InFlight,
                    )
                },
                None => {
                    &&& old(self).spec_next() == 1024 || old(self).spec_in_flight()
                        == old(self).spec_config().threads
                    &&& final(self).spec_next() == old(self).spec_next()
                    &&& final(self).spec_in_flight() == old(self).spec_in_flight()
                    &&& final(self).spec_states() == old(self).spec_states()
                },
            },
    {
        if self.next >= PORT_COUNT || self.in_flight >= self.config.threads as usize {
            return None;
        }
        let p = self.order[self.next];
        proof {
            assert(self.order@.contains(p));
            assert(self.states@[p - 1] == ProbeState::Pending);
            lemma_count_update(self.states@, p - 1, ProbeState::InFlight);
        }
        let ghost old_order = self.order@;
        let ghost old_states = self.states@;
        let ghost old_next = self.next as int;
        self.states.set((p - 1) as usize, ProbeState::InFlight);
        self.next = self.next + 1;
        self.in_flight = self.in_flight + 1;
        assert forall|k: int| 0 <= k < 1024 implies (#[trigger] self.spec_states()[
            self.spec_order()[k] - 1] == ProbeState::Pending <==> k >= self.spec_next()) by {
            if k != old_next {
                assert(old_order[k] != old_order[old_next]);
                assert(old_states[old_order[k] - 1] == ProbeState::Pending <==> k >= old_next);
            }
        }
        assert(self.dispatched() =~= old_order.take(old_next).push(p));
        Some(p)
    }

    /// Records the outcome of an in-flight probe of `port`. A port that is not
    /// in flight is refused and nothing changes.
    pub fn record(&mut self, port: u16, open: bool) -> (ok: bool)
        requires
            old(self).wf(),
        ensures
            final(self).wf(),
            final(self).spec_config() == old(self).spec_config(),
            final(self).spec_order() == old(self).spec_order(),
            final(self).spec_next() == old(self).spec_next(),
            ok == (1 <= port <= 1024 && old(self).spec_states()[port - 1] == ProbeState::InFlight),
            ok ==> final(self).spec_in_flight() == old(self).spec_in_flight() - 1,
            ok ==> final(self).spec_states() == old(self).spec_states().update(
                port - 1,
                ProbeState::Done(open),
            ),
            !ok ==> final(self).spec_in_flight() == old(self).spec_in_flight(),
            !ok ==> final(self).spec_states() == old(self).spec_states(),
    {
        if port < 1 || port > 1024 {
            return false;
        }
        let i: usize = (port - 1) as usize;
        if self.states[i] != ProbeState::InFlight {
            return false;
        }
        proof {
            lemma_count_update(self.states@, i as int, ProbeState::Done(open));
        }
        let ghost old_states = self.states@;
        self.states.set(i, ProbeState::Done(open));
        self.in_flight = self.in_flight - 1;
        assert forall|k: int| 0 <= k < 1024 implies (#[trigger] self.spec_states()[
            self.spec_order()[k] - 1] == ProbeState::Pending <==> k >= self.spec_next()) by {
            assert(old_states[self.order@[k] - 1] == ProbeState::Pending <==> k >= self.next);
        }
        true
    }

    /// Once every port has its outcome: one result per port of 1..=1024, in
    /// ascending order of port.
    pub fn results(&self) -> (r: Option<Vec<PortResult>>)
        requires
            self.wf(),
        ensures
            r is Some <==> self.complete(),
            r matches Some(v) ==> reports_all(v@, outcomes(self.spec_states())),
    {
        if !self.is_complete() {
            return None;
        }
        proof {
            self.lemma_complete_all_done();
        }
        let ghost open = outcomes(self.spec_states());
        let mut v: Vec<PortResult> = Vec::new();
        let mut i: usize = 0;
        while i < PORT_COUNT
            invariant
                self.wf(),
                self.complete(),
                forall|j: int| 0 <= j < 1024 ==> #[trigger] self.spec_states()[j] is Done,
                open == outcomes(self.spec_states()),
                i <= PORT_COUNT,
                v@.len() == i,
                forall|j: int|
                    0 <= j < i ==> (#[trigger] v@[j]).port == j + 1 && v@[j].is_open == open[j]
                        && v@[j].named(),
            decreases PORT_COUNT - i,
        {
            let ghost st = self.states@[i as int];
            assert(st is Done);
            let is_open = match self.states[i] {
                ProbeState::Done(b) => b,
                _ => false,
            };
            v.push(PortResult::new((i + 1) as u16, is_open));
            i = i + 1;
        }
        Some(v)
    }

    /// Once every port has its outcome: the open ports alone, in ascending
    /// order of port, each with its service name.
    pub fn open_results(&self) -> (r: Option<Vec<PortResult>>)
        requires
            self.wf(),
        ensures
            r is Some <==> self.complete(),
            r matches Some(v) ==> reports_open(v@, outcomes(self.spec_states())),
    {
        if !self.is_complete() {
            return None;
        }
        let ghost open = outcomes(self.spec_states());
        let mut v: Vec<PortResult> = Vec::new();
        let mut i: usize = 0;
        while i < PORT_COUNT
            invariant
                self.wf(),
                open == outcomes(self.spec_states()),
                i <= PORT_COUNT,
                ports_of(v@) == open_ports_upto(open, i as nat),
                forall|j: int| 0 <= j < v@.len() ==> (#[trigger] v@[j]).is_open && v@[j].named(),
            decreases PORT_COUNT - i,
        {
            if self.states[i] == ProbeState::Done(true) {
                let ghost before = v@;
                let r = PortResult::new((i + 1) as u16, true);
                v.push(r);
                assert(ports_of(v@) =~= ports_of(before).push(r.port));
            }
            i = i + 1;
        }
        Some(v)
    }

    /// Over a whole run, from `start` until the scan is complete, `next_probe`
    /// hands out every port of 1..=1024 exactly once.
    pub proof fn lemma_complete_dispatched_each_port_once(&self)
        requires
            self.wf(),
            self.complete(),
        ensures
            is_port_permutation(self.dispatched()),
    {
        assert(self.dispatched() =~= self.spec_order());
    }

    /// A complete scan holds an outcome for every port of 1..=1024.
    pub proof fn lemma_complete_all_done(&self)
        requires
            self.wf(),
            self.complete(),
        ensures
            forall|i: int| 0 <= i < 1024 ==> #[trigger] self.spec_states()[i] is Done,
    {
        assert forall|i: int| 0 <= i < 1024 implies #[trigger] self.spec_states()[i] is Done by {
            let p = (i + 1) as u16;
            assert(self.spec_order().contains(p));
            let k = choose|k: int| 0 <= k < 1024 && self.spec_order()[k] == p;
            assert(self.spec_states()[self.spec_order()[k] - 1] != ProbeState::Pending);
            lemma_count_zero(self.spec_states(), i);
        }
    }
}

} // verus!
