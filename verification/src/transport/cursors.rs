//! Cursors of the durable pipeline, each named by its sequence space.
//!
//! A [`WireSeq`] is the sequence that the journal allocates per durable
//! event: comparable across nodes and stable across restarts. A [`RingPos`]
//! is a ring consumer's progress: it starts at zero with every process and
//! counts every slot. The two do not convert into each other.

use vstd::prelude::*;

verus! {

/// Position in the journal's sequence space.
#[derive(Clone, Copy, Debug, PartialEq, Eq, PartialOrd, Ord, Hash, Default, Structural)]
pub struct WireSeq(u64);

/// Position in a ring's sequence space.
#[derive(Clone, Copy, Debug, PartialEq, Eq, PartialOrd, Ord, Hash, Default, Structural)]
pub struct RingPos(u64);

/// The distance from an earlier position to a later one, and zero where they
/// stand the other way round.
pub open spec fn distance(later: int, earlier: int) -> int {
    if later > earlier {
        later - earlier
    } else {
        0
    }
}

impl View for WireSeq {
    type V = int;

    closed spec fn view(&self) -> int {
        self.0 as int
    }
}

impl View for RingPos {
    type V = int;

    closed spec fn view(&self) -> int {
        self.0 as int
    }
}

impl WireSeq {
    /// A position.
    pub fn new(seq: u64) -> (s: WireSeq)
        ensures
            s@ == seq,
    {
        WireSeq(seq)
    }

    /// The raw position.
    pub fn get(self) -> (seq: u64)
        ensures
            seq == self@,
    {
        self.0
    }

    /// The lag behind this position, which is a count and never negative.
    pub fn saturating_sub(self, earlier: WireSeq) -> (lag: u64)
        ensures
            lag == distance(self@, earlier@),
    {
        if self.0 > earlier.0 {
            self.0 - earlier.0
        } else {
            0
        }
    }
}

impl RingPos {
    /// A position.
    pub fn new(pos: u64) -> (p: RingPos)
        ensures
            p@ == pos,
    {
        RingPos(pos)
    }

    /// The raw position.
    pub fn get(self) -> (pos: u64)
        ensures
            pos == self@,
    {
        self.0
    }

    /// The depth behind this position, which is a count and never negative.
    pub fn saturating_sub(self, behind: RingPos) -> (depth: u64)
        ensures
            depth == distance(self@, behind@),
    {
        if self.0 > behind.0 {
            self.0 - behind.0
        } else {
            0
        }
    }
}

/// Stands for the acknowledged sequence until a replica engages.
pub const NO_REPLICA: u64 = u64::MAX;

/// The journal's progress.
#[derive(Debug)]
pub struct PipelineCursors {
    durable_wire_seq: u64,
    journal_ring: u64,
    matching_ring: u64,
    replica_acked_wire_seq: u64,
}

impl PipelineCursors {
    /// Highest sequence persisted on this node.
    pub closed spec fn durable(&self) -> int {
        self.durable_wire_seq as int
    }

    /// Slots that the journal stage has read.
    pub closed spec fn journal(&self) -> int {
        self.journal_ring as int
    }

    /// Slots that the matching stage has read.
    pub closed spec fn matching(&self) -> int {
        self.matching_ring as int
    }

    /// Highest sequence that a replica acknowledged, or [`NO_REPLICA`].
    pub closed spec fn acked(&self) -> int {
        self.replica_acked_wire_seq as int
    }

    /// Cursors at some positions.
    pub fn new(
        durable_wire_seq: u64,
        journal_ring: u64,
        matching_ring: u64,
        replica_acked_wire_seq: u64,
    ) -> (c: PipelineCursors)
        ensures
            c.durable() == durable_wire_seq,
            c.journal() == journal_ring,
            c.matching() == matching_ring,
            c.acked() == replica_acked_wire_seq,
    {
        PipelineCursors { durable_wire_seq, journal_ring, matching_ring, replica_acked_wire_seq }
    }

    /// Highest sequence persisted on this node.
    pub fn load_durable_wire_seq(&self) -> (seq: WireSeq)
        ensures
            seq@ == self.durable(),
    {
        WireSeq(self.durable_wire_seq)
    }

    /// Publishes the highest persisted sequence.
    pub fn store_durable_wire_seq(&mut self, seq: WireSeq)
        ensures
            final(self).durable() == seq@,
            final(self).journal() == old(self).journal(),
            final(self).matching() == old(self).matching(),
            final(self).acked() == old(self).acked(),
    {
        self.durable_wire_seq = seq.0;
    }

    /// Slots that the journal stage has read.
    pub fn load_journal_ring(&self) -> (pos: RingPos)
        ensures
            pos@ == self.journal(),
    {
        RingPos(self.journal_ring)
    }

    /// Publishes the journal stage's progress.
    pub fn store_journal_ring(&mut self, pos: RingPos)
        ensures
            final(self).journal() == pos@,
            final(self).durable() == old(self).durable(),
            final(self).matching() == old(self).matching(),
            final(self).acked() == old(self).acked(),
    {
        self.journal_ring = pos.0;
    }

    /// Slots that the matching stage has read.
    pub fn load_matching_ring(&self) -> (pos: RingPos)
        ensures
            pos@ == self.matching(),
    {
        RingPos(self.matching_ring)
    }

    /// Publishes the matching stage's progress.
    pub fn store_matching_ring(&mut self, pos: RingPos)
        ensures
            final(self).matching() == pos@,
            final(self).durable() == old(self).durable(),
            final(self).journal() == old(self).journal(),
            final(self).acked() == old(self).acked(),
    {
        self.matching_ring = pos.0;
    }

    /// The fastest replica's acknowledged sequence, once one has engaged.
    pub fn load_replica_acked(&self) -> (seq: Option<WireSeq>)
        ensures
            match seq {
                Some(s) => s@ == self.acked() && self.acked() != NO_REPLICA,
                None => self.acked() == NO_REPLICA,
            },
    {
        if self.replica_acked_wire_seq == NO_REPLICA {
            None
        } else {
            Some(WireSeq(self.replica_acked_wire_seq))
        }
    }

    /// Publishes the fastest replica's acknowledged sequence.
    pub fn store_replica_acked(&mut self, seq: WireSeq)
        ensures
            final(self).acked() == seq@,
            final(self).durable() == old(self).durable(),
            final(self).journal() == old(self).journal(),
            final(self).matching() == old(self).matching(),
    {
        self.replica_acked_wire_seq = seq.0;
    }
}

/// A lag closes when the earlier position catches up, and positions that
/// follow each other have lags that add up.
pub proof fn law_lags_add_up(a: WireSeq, b: WireSeq, c: WireSeq)
    requires
        a@ <= b@ <= c@,
    ensures
        distance(c@, a@) == distance(c@, b@) + distance(b@, a@),
        distance(a@, c@) == 0,
{
}

/// Without a replica the lesser of the durable and the acknowledged sequence
/// is the durable one: a fresh primary waits for its journal alone.
pub proof fn law_no_replica_waits_for_journal_alone(c: &PipelineCursors)
    requires
        c.acked() == NO_REPLICA,
    ensures
        c.durable() <= c.acked(),
{
}

/// A lag is how far the later position is ahead, and nothing where it is not.
pub proof fn law_lag_is_how_far_ahead(a: WireSeq, b: WireSeq)
    ensures
        a@ >= b@ ==> distance(a@, b@) == a@ - b@,
        a@ <= b@ ==> distance(a@, b@) == 0,
        distance(a@, b@) - distance(b@, a@) == a@ - b@,
{
}

/// Whether all four cursors are where they are told to be.
pub open spec fn reads(
    c: PipelineCursors,
    durable: int,
    journal: int,
    matching: int,
    acked: Option<int>,
) -> bool {
    &&& forall|s: WireSeq|
        call_ensures(PipelineCursors::load_durable_wire_seq, (&c,), s) ==> s@ == durable
    &&& forall|p: RingPos|
        call_ensures(PipelineCursors::load_journal_ring, (&c,), p) ==> p@ == journal
    &&& forall|p: RingPos|
        call_ensures(PipelineCursors::load_matching_ring, (&c,), p) ==> p@ == matching
    &&& forall|s: Option<WireSeq>|
        call_ensures(PipelineCursors::load_replica_acked, (&c,), s) ==> match acked {
            Some(n) => s matches Some(t) && t@ == n,
            None => s is None,
        }
}

/// A new set of cursors reads back the positions that it was made at; the
/// largest number stands for no acknowledgement.
pub proof fn law_new_cursors_are_read_back(
    durable: u64,
    journal: u64,
    matching: u64,
    acked: u64,
    c: PipelineCursors,
)
    requires
        call_ensures(PipelineCursors::new, (durable, journal, matching, acked), c),
    ensures
        reads(
            c,
            durable as int,
            journal as int,
            matching as int,
            if acked < u64::MAX {
                Some(acked as int)
            } else {
                None
            },
        ),
{
}

/// The persisted sequence is read back as it was stored; the other cursors
/// stay.
pub proof fn law_stored_durable_is_read_back(
    c: &mut PipelineCursors,
    seq: WireSeq,
    j: int,
    m: int,
    a: Option<int>,
)
    requires
        call_ensures(PipelineCursors::store_durable_wire_seq, (c, seq), ()),
        old(c).journal() == j,
        old(c).matching() == m,
        old(c).acked() == (match a {
            Some(n) => n,
            None => u64::MAX as int,
        }),
        a != Some(u64::MAX as int),
    ensures
        reads(*final(c), seq@, j, m, a),
{
}

/// The journal's position is read back as it was stored; the other cursors
/// stay.
pub proof fn law_stored_journal_is_read_back(
    c: &mut PipelineCursors,
    pos: RingPos,
    d: int,
    m: int,
    a: Option<int>,
)
    requires
        call_ensures(PipelineCursors::store_journal_ring, (c, pos), ()),
        old(c).durable() == d,
        old(c).matching() == m,
        old(c).acked() == (match a {
            Some(n) => n,
            None => u64::MAX as int,
        }),
        a != Some(u64::MAX as int),
    ensures
        reads(*final(c), d, pos@, m, a),
{
}

/// The matching stage's position is read back as it was stored; the other
/// cursors stay.
pub proof fn law_stored_matching_is_read_back(
    c: &mut PipelineCursors,
    pos: RingPos,
    d: int,
    j: int,
    a: Option<int>,
)
    requires
        call_ensures(PipelineCursors::store_matching_ring, (c, pos), ()),
        old(c).durable() == d,
        old(c).journal() == j,
        old(c).acked() == (match a {
            Some(n) => n,
            None => u64::MAX as int,
        }),
        a != Some(u64::MAX as int),
    ensures
        reads(*final(c), d, j, pos@, a),
{
}

/// An acknowledged sequence is read back as it was stored; the other cursors
/// stay.
pub proof fn law_stored_acknowledgement_is_read_back(
    c: &mut PipelineCursors,
    seq: WireSeq,
    d: int,
    j: int,
    m: int,
)
    requires
        call_ensures(PipelineCursors::store_replica_acked, (c, seq), ()),
        old(c).durable() == d,
        old(c).journal() == j,
        old(c).matching() == m,
        seq@ < u64::MAX,
    ensures
        reads(*final(c), d, j, m, Some(seq@)),
{
}

/// A sequence or a position comes out as it went in, and what it is ahead by
/// is what is missing to it.
pub proof fn law_positions_keep_their_numbers(
    n: u64,
    m: u64,
    a: WireSeq,
    b: WireSeq,
    got: u64,
    lag: u64,
    p: RingPos,
    q: RingPos,
    at: u64,
    depth: u64,
)
    requires
        call_ensures(WireSeq::new, (n,), a),
        call_ensures(WireSeq::new, (m,), b),
        call_ensures(WireSeq::get, (a,), got),
        call_ensures(WireSeq::saturating_sub, (a, b), lag),
        call_ensures(RingPos::new, (n,), p),
        call_ensures(RingPos::new, (m,), q),
        call_ensures(RingPos::get, (p,), at),
        call_ensures(RingPos::saturating_sub, (p, q), depth),
    ensures
        got == n,
        at == n,
        n >= m ==> m + lag == n && m + depth == n,
        n <= m ==> lag == 0 && depth == 0,
{
}

} // verus!
