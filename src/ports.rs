use vstd::prelude::*;

verus! {

/// The lowest port a scan probes.
pub const FIRST_PORT: u16 = 1;

/// The highest port a scan probes.
pub const LAST_PORT: u16 = 1024;

/// Number of ports in a scan.
pub const PORT_COUNT: usize = 1024;

/// The modulus of the generator that drives the shuffle.
const RAND_MODULUS: u64 = 2147483648;

/// The ports of a scan in ascending order: 1, 2, ..., 1024.
pub open spec fn ascending_ports() -> Seq<u16> {
    Seq::new(1024, |i: int| (i + 1) as u16)
}

/// `s` holds every port of 1..=1024 exactly once, in some order.
pub open spec fn is_port_permutation(s: Seq<u16>) -> bool {
    &&& s.len() == 1024
    &&& s.no_duplicates()
    &&& forall|i: int| 0 <= i < s.len() ==> 1 <= #[trigger] s[i] <= 1024
    &&& forall|p: u16| 1 <= p <= 1024 ==> #[trigger] s.contains(p)
}

/// Exchanging two entries of a permutation of the ports leaves a permutation.
proof fn lemma_swap_keeps_permutation(s: Seq<u16>, i: int, j: int)
    requires
        is_port_permutation(s),
        0 <= i < s.len(),
        0 <= j < s.len(),
    ensures
        is_port_permutation(s.update(i, s[j]).update(j, s[i])),
{
    let t = s.update(i, s[j]).update(j, s[i]);
    assert forall|k: int| 0 <= k < t.len() implies #[trigger] t[k] == s[if k == j {
        i
    } else if k == i {
        j
    } else {
        k
    }] by {}
    assert forall|a: int, b: int| 0 <= a < t.len() && 0 <= b < t.len() && a != b implies t[a]
        != t[b] by {
        let sa = if a == j {
            i
        } else if a == i {
            j
        } else {
            a
        };
        let sb = if b == j {
            i
        } else if b == i {
            j
        } else {
            b
        };
        assert(t[a] == s[sa]);
        assert(t[b] == s[sb]);
    }
    assert forall|p: u16| 1 <= p <= 1024 implies #[trigger] t.contains(p) by {
        assert(s.contains(p));
        let k = choose|k: int| 0 <= k < s.len() && s[k] == p;
        let m = if k == i {
            j
        } else if k == j {
            i
        } else {
            k
        };
        assert(t[m] == p);
    }
}

/// The ascending sequence of ports is a permutation of the ports.
pub proof fn lemma_ascending_is_permutation()
    ensures
        is_port_permutation(ascending_ports()),
{
    let s = ascending_ports();
    assert forall|p: u16| 1 <= p <= 1024 implies #[trigger] s.contains(p) by {
        assert(s[p - 1] == p);
    }
}

/// One step of the linear congruential generator behind the shuffle.
pub open spec fn lcg_step(x: u64) -> u64 {
    ((x * 1103515245 + 12345) % 2147483648) as u64
}

/// The Fisher-Yates shuffle of `s` that exchanges position `i`, then `i - 1`,
/// down to 1, each with a position drawn from the generator, which starts
/// from state `x`.
pub open spec fn shuffled(s: Seq<u16>, x: u64, i: nat) -> Seq<u16>
    decreases i,
{
    if i == 0 {
        s
    } else {
        let y = lcg_step(x);
        let j = y as int % (i + 1) as int;
        shuffled(s.update(i as int, s[j]).update(j, s[i as int]), y, (i - 1) as nat)
    }
}

fn next_random(x: u64) -> (r: u64)
    requires
        x < RAND_MODULUS,
    ensures
        r == lcg_step(x),
        r < RAND_MODULUS,
{
    assert(x * 1103515245 <= 2147483647 * 1103515245) by (nonlinear_arith)
        requires
            x < 2147483648,
    ;
    (x * 1103515245 + 12345) % RAND_MODULUS
}

/// The ports 1..=1024 in the order a scan probes them: ascending, or shuffled by
/// a generator started from `seed`. Either way every port comes exactly once.
pub fn port_order(randomize: bool, seed: u64) -> (r: Vec<u16>)
    ensures
        is_port_permutation(r@),
        !randomize ==> r@ == ascending_ports(),
        randomize ==> r@ == shuffled(ascending_ports(), seed % 2147483648, 1023),
{
    let mut v: Vec<u16> = Vec::new();
    let mut p: u16 = FIRST_PORT;
    while p <= LAST_PORT
        invariant
            1 <= p <= 1025,
            v@.len() == p - 1,
            forall|i: int| 0 <= i < v@.len() ==> #[trigger] v@[i] == (i + 1) as u16,
        decreases 1025 - p,
    {
        v.push(p);
        p = p + 1;
    }
    assert(v@ =~= ascending_ports());
    proof {
        lemma_ascending_is_permutation();
    }
    if !randomize {
        return v;
    }
    let mut x: u64 = seed % RAND_MODULUS;
    let mut i: usize = PORT_COUNT - 1;
    while i > 0
        invariant
            i < PORT_COUNT,
            x < RAND_MODULUS,
            is_port_permutation(v@),
            v@.len() == PORT_COUNT,
            shuffled(v@, x, i as nat) == shuffled(ascending_ports(), seed % 2147483648, 1023),
        decreases i,
    {
        x = next_random(x);
        let j: usize = (x % ((i + 1) as u64)) as usize;
        let a = v[i];
        let b = v[j];
        proof {
            lemma_swap_keeps_permutation(v@, i as int, j as int);
        }
        let ghost before = v@;
        v.set(i, b);
        v.set(j, a);
        assert(v@ =~= before.update(i as int, before[j as int]).update(j as int, before[i as int]));
        i = i - 1;
    }
    v
}

} // verus!
