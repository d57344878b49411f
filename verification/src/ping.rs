//! Statistics of a UDP ping session. Round-trip times are nanoseconds.
use vstd::prelude::*;

verus! {

/// Round-trip times of the answered pings and the counts of pings sent
/// and answered.
pub struct PingStats {
    rtts: Vec<u64>,
    transmitted: u64,
    received: u64,
}

/// The smallest value of a non-empty sequence.
pub open spec fn seq_min(s: Seq<u64>) -> u64
    decreases s.len(),
{
    if s.len() <= 1 {
        s[0]
    } else if s.last() < seq_min(s.drop_last()) {
        s.last()
    } else {
        seq_min(s.drop_last())
    }
}

/// The largest value of a non-empty sequence.
pub open spec fn seq_max(s: Seq<u64>) -> u64
    decreases s.len(),
{
    if s.len() <= 1 {
        s[0]
    } else if s.last() > seq_max(s.drop_last()) {
        s.last()
    } else {
        seq_max(s.drop_last())
    }
}

/// The sum of a sequence.
pub open spec fn seq_sum(s: Seq<u64>) -> nat
    decreases s.len(),
{
    if s.len() == 0 {
        0
    } else {
        seq_sum(s.drop_last()) + s.last() as nat
    }
}

proof fn lemma_sum_bound(s: Seq<u64>)
    ensures
        seq_sum(s) <= s.len() * 0xFFFF_FFFF_FFFF_FFFF,
    decreases s.len(),
{
    if s.len() > 0 {
        lemma_sum_bound(s.drop_last());
    }
}

impl PingStats {
    pub closed spec fn rtt_seq(&self) -> Seq<u64> {
        self.rtts@
    }

    pub closed spec fn sent(&self) -> u64 {
        self.transmitted
    }

    pub closed spec fn answered(&self) -> u64 {
        self.received
    }

    /// What every operation keeps: no more pings answered than sent, and
    /// one round-trip time per answered ping.
    pub open spec fn consistent(&self) -> bool {
        self.answered() <= self.sent() && self.rtt_seq().len() == self.answered()
    }

    pub fn new() -> (res: Self)
        ensures
            res.rtt_seq() == Seq::<u64>::empty(),
            res.sent() == 0,
            res.answered() == 0,
            res.consistent(),
    {
        Self { rtts: vec![], transmitted: 0, received: 0 }
    }

    /// A ping answered after `rtt` nanoseconds.
    pub fn record_reply(&mut self, rtt: u64)
        requires
            old(self).sent() < u64::MAX,
            old(self).answered() < u64::MAX,
        ensures
            final(self).rtt_seq() == old(self).rtt_seq().push(rtt),
            final(self).sent() == old(self).sent() + 1,
            final(self).answered() == old(self).answered() + 1,
            old(self).consistent() ==> final(self).consistent(),
    {
        self.rtts.push(rtt);
        self.transmitted = self.transmitted + 1;
        self.received = self.received + 1;
    }

    /// A ping that timed out.
    pub fn record_timeout(&mut self)
        requires
            old(self).sent() < u64::MAX,
        ensures
            final(self).rtt_seq() == old(self).rtt_seq(),
            final(self).sent() == old(self).sent() + 1,
            final(self).answered() == old(self).answered(),
            old(self).consistent() ==> final(self).consistent(),
    {
        self.transmitted = self.transmitted + 1;
    }

    pub fn transmitted(&self) -> (res: u64)
        ensures
            res == self.sent(),
    {
        self.transmitted
    }

    pub fn received(&self) -> (res: u64)
        ensures
            res == self.answered(),
    {
        self.received
    }

    /// The shortest and longest round trip and the sum of all, when at
    /// least one ping was answered.
    pub fn rtt_summary(&self) -> (res: Option<(u64, u64, u128)>)
        requires
            self.rtt_seq().len() <= 0xFFFF_FFFF,
        ensures
            self.rtt_seq().len() == 0 ==> res is None,
            self.rtt_seq().len() > 0 ==> res == Some(
                (seq_min(self.rtt_seq()), seq_max(self.rtt_seq()), seq_sum(self.rtt_seq()) as u128),
            ),
    {
        let n = self.rtts.len();
        if n == 0 {
            return None;
        }
        let mut lo = self.rtts[0];
        let mut hi = self.rtts[0];
        let mut sum: u128 = self.rtts[0] as u128;
        let mut i: usize = 1;
        let ghost one = self.rtts@.take(1);
        assert(one.drop_last() =~= Seq::<u64>::empty());
        assert(seq_sum(one.drop_last()) == 0);
        assert(seq_sum(one) == self.rtts@[0]);
        while i < n
            invariant
                1 <= i <= n,
                n == self.rtts@.len(),
                n <= 0xFFFF_FFFF,
                lo == seq_min(self.rtts@.take(i as int)),
                hi == seq_max(self.rtts@.take(i as int)),
                sum == seq_sum(self.rtts@.take(i as int)),
            decreases n - i,
        {
            let v = self.rtts[i];
            assert(self.rtts@.take(i + 1).drop_last() =~= self.rtts@.take(i as int));
            proof {
                lemma_sum_bound(self.rtts@.take(i + 1));
                assert((i + 1) * 0xFFFF_FFFF_FFFF_FFFFnat <= 0x1_0000_0000nat * 0xFFFF_FFFF_FFFF_FFFFnat)
                    by (nonlinear_arith)
                    requires
                        i + 1 <= 0x1_0000_0000,
                ;
            }
            if v < lo {
                lo = v;
            }
            if v > hi {
                hi = v;
            }
            sum = sum + v as u128;
            i = i + 1;
        }
        assert(self.rtts@.take(n as int) =~= self.rtts@);
        Some((lo, hi, sum))
    }
}

} // verus!
