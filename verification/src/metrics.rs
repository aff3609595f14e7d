//! What the proxy counts, and the labels it counts under.

use vstd::prelude::*;
use vstd::string::StringExecFns;

verus! {

/// Counters of a replica selector. They wrap around at the end of their range.
#[derive(Clone, Copy, Debug, PartialEq, Eq, Structural)]
pub struct ReplicaSelectorMetrics {
    /// Moves from the active replica to the next in the ranking.
    pub failovers: u64,
    /// Returns to the primary.
    pub failbacks: u64,
    /// Clusters dropped because nothing was heard of them.
    pub idle_evictions: u64,
}

/// A counter that `n` is added to.
pub open spec fn counted(counter: u64, n: nat) -> u64 {
    ((counter + n) % 0x1_0000_0000_0000_0000) as u64
}

impl ReplicaSelectorMetrics {
    pub fn new() -> (metrics: ReplicaSelectorMetrics)
        ensures
            metrics == (ReplicaSelectorMetrics { failovers: 0, failbacks: 0, idle_evictions: 0 }),
    {
        ReplicaSelectorMetrics { failovers: 0, failbacks: 0, idle_evictions: 0 }
    }

    pub fn record_failover(&mut self)
        ensures
            *final(self) == (ReplicaSelectorMetrics {
                failovers: counted(old(self).failovers, 1),
                ..*old(self)
            }),
    {
        self.failovers = self.failovers.wrapping_add(1);
    }

    pub fn record_failback(&mut self)
        ensures
            *final(self) == (ReplicaSelectorMetrics {
                failbacks: counted(old(self).failbacks, 1),
                ..*old(self)
            }),
    {
        self.failbacks = self.failbacks.wrapping_add(1);
    }

    pub fn record_idle_evictions(&mut self, evicted: u64)
        ensures
            *final(self) == (ReplicaSelectorMetrics {
                idle_evictions: counted(old(self).idle_evictions, evicted as nat),
                ..*old(self)
            }),
    {
        self.idle_evictions = self.idle_evictions.wrapping_add(evicted);
    }
}

/// The decimal digits of a number, without leading zeros.
pub open spec fn decimal(n: nat) -> Seq<char>
    decreases n,
{
    if n < 10 {
        seq![digit(n)]
    } else {
        decimal(n / 10).push(digit(n % 10))
    }
}

/// The character of a digit.
pub open spec fn digit(d: nat) -> char {
    (d + '0' as u32) as char
}

fn digit_text(d: u16) -> (text: &'static str)
    requires
        d < 10,
    ensures
        text@ == seq![digit(d as nat)],
{
    proof {
        reveal_strlit("0");
        reveal_strlit("1");
        reveal_strlit("2");
        reveal_strlit("3");
        reveal_strlit("4");
        reveal_strlit("5");
        reveal_strlit("6");
        reveal_strlit("7");
        reveal_strlit("8");
        reveal_strlit("9");
    }
    match d {
        0 => "0",
        1 => "1",
        2 => "2",
        3 => "3",
        4 => "4",
        5 => "5",
        6 => "6",
        7 => "7",
        8 => "8",
        _ => "9",
    }
}

/// Writes a number in decimal.
pub fn to_decimal(n: u16) -> (text: String)
    ensures
        text@ == decimal(n as nat),
    decreases n,
{
    if n < 10 {
        digit_text(n).to_owned()
    } else {
        let mut text = to_decimal(n / 10);
        text.append(digit_text(n % 10));
        assert(text@ =~= decimal(n as nat));
        text
    }
}

/// The code that stands for a request that got no answer from the upstream.
pub const NO_ANSWER_CODE: u16 = 0;

/// The labels that a request is counted under.
#[derive(Clone, Debug)]
pub struct HttpRequestLabels {
    pub method: String,
    pub code: String,
}

impl HttpRequestLabels {
    /// The labels of a request by its method and the status code of its answer.
    pub fn for_answer(method: &str, code: u16) -> (labels: HttpRequestLabels)
        ensures
            labels.method@ == method@,
            labels.code@ == decimal(code as nat),
    {
        HttpRequestLabels { method: method.to_owned(), code: to_decimal(code) }
    }
}

/// Adding nothing to a counter leaves it, and adding one more counts up by one, from the
/// end of the range to zero.
pub proof fn law_counted(counter: u64, n: nat)
    ensures
        counted(counter, 0) == counter,
        counted(counter, n) < u64::MAX ==> counted(counter, n + 1) == counted(counter, n) + 1,
        counted(counter, n) == u64::MAX ==> counted(counter, n + 1) == 0,
{
}

/// A number below ten is written as its digit, and any other as its tenth, followed by
/// the digit that is left.
pub proof fn law_decimal(n: nat, d: nat)
    requires
        d < 10,
    ensures
        decimal(d).len() == 1,
        decimal(d)[0] as int == 48 + d,
        n > 0 ==> decimal(10 * n + d).drop_last() == decimal(n),
        n > 0 ==> decimal(10 * n + d).last() as int == 48 + d,
{
    if n > 0 {
        let m = 10 * n + d;
        assert(m / 10 == n && m % 10 == d);
        assert(decimal(n).push(digit(d)).drop_last() =~= decimal(n));
    }
}

} // verus!
