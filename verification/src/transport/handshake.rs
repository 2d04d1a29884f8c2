//! Validation of a replica's handshake against this node's journal.
//!
//! A replica reports its journal's last sequence and its chain hash there.
//! Segment boundaries come from the primary, so the primary can tell its own
//! chain value at that sequence and compare. Another value, or a sequence
//! past the primary's tip, shows divergent history.

use vstd::prelude::*;

verus! {

/// What a replica reports.
#[derive(Clone, Copy, Debug)]
pub struct Handshake {
    pub last_sequence: u64,
    pub chain_hash: [u8; 32],
    pub epoch: u64,
}

/// What validation finds.
#[derive(Clone, Copy, Debug, PartialEq, Eq, Structural)]
pub enum HandshakeValidation {
    /// The chains agree, or there is nothing to compare.
    Consistent,
    /// The replica's journal holds other history.
    Divergent(DivergenceKind),
}

/// Why a replica's journal is divergent.
#[derive(Clone, Copy, Debug, PartialEq, Eq, Structural)]
pub enum DivergenceKind {
    /// The chain at the replica's last sequence differs.
    ChainMismatch,
    /// The replica's last sequence is past this node's tip.
    AheadOfTip,
}

/// This node's chain value at a sequence.
#[derive(Clone, Copy, Debug)]
pub enum ChainAtSequence {
    Value([u8; 32]),
    /// The sequence is older than the oldest segment.
    PredatesHistory,
    /// The sequence is past the durable tip.
    BeyondTip,
}

/// What walking a segment up to a sequence finds.
#[derive(Clone, Copy, Debug)]
pub enum ChainValueAt {
    Value([u8; 32]),
    BeyondTip,
}

/// What a segment's header says.
#[derive(Clone, Copy, Debug)]
pub struct SegmentHeader {
    /// Sequence of the segment's first entry.
    pub starting_sequence: u64,
    /// Chain value before the first entry.
    pub anchor_hash: [u8; 32],
}

/// Where the chain value at a sequence is found.
#[derive(Clone, Copy, Debug)]
pub enum ChainSource {
    /// In a segment's header: the segment starts right behind the sequence.
    Anchor([u8; 32]),
    /// In the segment at this place of the list, which holds the sequence.
    Walk(usize),
    /// Nowhere among the segments that were looked at.
    NotFound,
}

/// Whether a segment starts right behind a sequence.
pub open spec fn starts_behind(header: SegmentHeader, seq: u64) -> bool {
    header.starting_sequence == (if seq < u64::MAX {
        seq + 1
    } else {
        u64::MAX as int
    })
}

/// Whether a segment settles where the chain value at a sequence is found.
pub open spec fn settles(header: SegmentHeader, seq: u64) -> bool {
    starts_behind(header, seq) || header.starting_sequence <= seq
}

/// Whether the search over segments, the newest first, ends at one of them.
pub open spec fn first_settling(headers: Seq<SegmentHeader>, seq: u64, k: int) -> bool {
    &&& 0 <= k < headers.len()
    &&& settles(headers[k], seq)
    &&& forall|i: int| 0 <= i < k ==> !settles(#[trigger] headers[i], seq)
}

/// Whether a source is the one for a sequence.
pub open spec fn is_source(headers: Seq<SegmentHeader>, seq: u64, source: ChainSource) -> bool {
    match source {
        ChainSource::Anchor(hash) => exists|k: int| #[trigger]
            first_settling(headers, seq, k) && starts_behind(headers[k], seq) && hash
                == headers[k].anchor_hash,
        ChainSource::Walk(k) => first_settling(headers, seq, k as int) && !starts_behind(
            headers[k as int],
            seq,
        ),
        ChainSource::NotFound => forall|i: int|
            0 <= i < headers.len() ==> !settles(#[trigger] headers[i], seq),
    }
}

/// Looks for the chain value at a sequence among segments, the newest first.
pub fn find_chain_source(headers: &[SegmentHeader], seq: u64) -> (source: ChainSource)
    ensures
        is_source(headers@, seq, source),
{
    let next: u64 = if seq < u64::MAX {
        seq + 1
    } else {
        seq
    };
    let mut i: usize = 0;
    while i < headers.len()
        invariant
            0 <= i <= headers@.len(),
            next == (if seq < u64::MAX {
                seq + 1
            } else {
                u64::MAX as int
            }),
            forall|j: int| 0 <= j < i ==> !settles(#[trigger] headers@[j], seq),
        decreases headers@.len() - i,
    {
        let header = headers[i];
        if header.starting_sequence == next {
            assert(first_settling(headers@, seq, i as int));
            return ChainSource::Anchor(header.anchor_hash);
        }
        if header.starting_sequence <= seq {
            return ChainSource::Walk(i);
        }
        i = i + 1;
    }
    ChainSource::NotFound
}

/// The chain value at a sequence: from a header, from walking the segment
/// that holds it, or not to be had from the segments that are left.
pub open spec fn chain_from(source: ChainSource, walked: ChainValueAt) -> ChainAtSequence {
    match source {
        ChainSource::Anchor(hash) => ChainAtSequence::Value(hash),
        ChainSource::Walk(_) => match walked {
            ChainValueAt::Value(hash) => ChainAtSequence::Value(hash),
            ChainValueAt::BeyondTip => ChainAtSequence::BeyondTip,
        },
        ChainSource::NotFound => ChainAtSequence::PredatesHistory,
    }
}

/// The chain value at a sequence, once its source is known. What walking a
/// segment found counts only where the source is that segment.
pub fn chain_at_sequence(source: ChainSource, walked: ChainValueAt) -> (chain: ChainAtSequence)
    ensures
        chain == chain_from(source, walked),
{
    match source {
        ChainSource::Anchor(hash) => ChainAtSequence::Value(hash),
        ChainSource::Walk(_) => match walked {
            ChainValueAt::Value(hash) => ChainAtSequence::Value(hash),
            ChainValueAt::BeyondTip => ChainAtSequence::BeyondTip,
        },
        ChainSource::NotFound => ChainAtSequence::PredatesHistory,
    }
}

/// What validation finds for a chain value of this node.
pub open spec fn validation(
    last_sequence: u64,
    chain_hash: Seq<u8>,
    chain: ChainAtSequence,
) -> HandshakeValidation {
    if last_sequence == 0 {
        HandshakeValidation::Consistent
    } else {
        match chain {
            ChainAtSequence::Value(local) => if local@ == chain_hash {
                HandshakeValidation::Consistent
            } else {
                HandshakeValidation::Divergent(DivergenceKind::ChainMismatch)
            },
            ChainAtSequence::PredatesHistory => HandshakeValidation::Consistent,
            ChainAtSequence::BeyondTip => {
                HandshakeValidation::Divergent(DivergenceKind::AheadOfTip)
            },
        }
    }
}

fn same_hash(a: &[u8; 32], b: &[u8; 32]) -> (r: bool)
    ensures
        r == (a@ == b@),
{
    let mut i: usize = 0;
    while i < 32
        invariant
            0 <= i <= 32,
            forall|j: int| 0 <= j < i ==> a@[j] == b@[j],
        decreases 32 - i,
    {
        if a[i] != b[i] {
            return false;
        }
        i = i + 1;
    }
    assert(a@ =~= b@);
    true
}

/// Validates a replica's handshake against this node's chain value at the
/// replica's last sequence. A fresh replica has nothing to compare.
pub fn validate_replica_handshake(handshake: &Handshake, chain: ChainAtSequence) -> (v:
    HandshakeValidation)
    ensures
        v == validation(handshake.last_sequence, handshake.chain_hash@, chain),
{
    if handshake.last_sequence == 0 {
        return HandshakeValidation::Consistent;
    }
    match chain {
        ChainAtSequence::Value(local) => if same_hash(&local, &handshake.chain_hash) {
            HandshakeValidation::Consistent
        } else {
            HandshakeValidation::Divergent(DivergenceKind::ChainMismatch)
        },
        ChainAtSequence::PredatesHistory => HandshakeValidation::Consistent,
        ChainAtSequence::BeyondTip => HandshakeValidation::Divergent(DivergenceKind::AheadOfTip),
    }
}

/// Whether segments belong to a journal with a chain value at each sequence:
/// every header holds the value before its first entry.
pub open spec fn anchored(
    headers: Seq<SegmentHeader>,
    chain: spec_fn(int) -> Seq<u8>,
) -> bool {
    forall|i: int|
        0 <= i < headers.len() ==> (#[trigger] headers[i]).anchor_hash@ == chain(
            headers[i].starting_sequence - 1,
        )
}

/// Whether walking a segment up to a sequence tells the journal's chain value
/// there, or that the sequence is past the journal's tip.
pub open spec fn walked_truly(
    walked: ChainValueAt,
    seq: u64,
    tip: u64,
    chain: spec_fn(int) -> Seq<u8>,
) -> bool {
    match walked {
        ChainValueAt::Value(hash) => seq <= tip && hash@ == chain(seq as int),
        ChainValueAt::BeyondTip => seq > tip,
    }
}

/// A replica that reports this node's own chain value validates at every
/// position up to the tip: inside a segment, at a boundary, and where the
/// history was pruned.
pub proof fn law_truthful_replica_validates(
    headers: Seq<SegmentHeader>,
    chain: spec_fn(int) -> Seq<u8>,
    tip: u64,
    seq: u64,
    source: ChainSource,
    walked: ChainValueAt,
)
    requires
        anchored(headers, chain),
        is_source(headers, seq, source),
        walked_truly(walked, seq, tip, chain),
        seq <= tip < u64::MAX,
    ensures
        validation(seq, chain(seq as int), chain_from(source, walked)) == HandshakeValidation::Consistent,
{
}

/// A replica that reports another value than this node's is divergent at
/// every position that the segments still tell of.
pub proof fn law_other_history_is_divergent(
    headers: Seq<SegmentHeader>,
    chain: spec_fn(int) -> Seq<u8>,
    tip: u64,
    seq: u64,
    reported: Seq<u8>,
    source: ChainSource,
    walked: ChainValueAt,
)
    requires
        anchored(headers, chain),
        is_source(headers, seq, source),
        walked_truly(walked, seq, tip, chain),
        0 < seq <= tip < u64::MAX,
        reported != chain(seq as int),
        source !is NotFound,
    ensures
        validation(seq, reported, chain_from(source, walked)) == HandshakeValidation::Divergent(
            DivergenceKind::ChainMismatch,
        ),
{
}

/// A replica past this node's tip is divergent, whatever value it reports:
/// segments are dense, so none starts past the tip's successor.
pub proof fn law_ahead_of_tip_is_divergent(
    headers: Seq<SegmentHeader>,
    chain: spec_fn(int) -> Seq<u8>,
    tip: u64,
    seq: u64,
    reported: Seq<u8>,
    source: ChainSource,
    walked: ChainValueAt,
)
    requires
        headers.len() > 0,
        forall|i: int|
            0 <= i < headers.len() ==> (#[trigger] headers[i]).starting_sequence <= tip + 1,
        is_source(headers, seq, source),
        walked_truly(walked, seq, tip, chain),
        tip < seq < u64::MAX,
    ensures
        validation(seq, reported, chain_from(source, walked)) == HandshakeValidation::Divergent(
            DivergenceKind::AheadOfTip,
        ),
{
    assert(settles(headers[0], seq));
    assert(!starts_behind(headers[0], seq));
}

/// A fresh replica has nothing to compare, and one whose position was pruned
/// cannot be compared: both are let in, whatever value they report.
pub proof fn law_nothing_to_compare_is_consistent(
    seq: u64,
    reported: Seq<u8>,
    chain: ChainAtSequence,
    walked: ChainValueAt,
)
    ensures
        validation(0, reported, chain) == HandshakeValidation::Consistent,
        validation(seq, reported, chain_from(ChainSource::NotFound, walked))
            == HandshakeValidation::Consistent,
{
}

/// The source of a chain value, by where segments start: the newest segment
/// that starts at or before the sequence is walked, unless a segment that
/// comes first starts right behind it, whose header then tells.
pub proof fn law_source_by_starting_sequence(
    headers: Seq<SegmentHeader>,
    seq: u64,
    source: ChainSource,
    i: int,
)
    requires
        is_source(headers, seq, source),
        seq < u64::MAX,
        0 <= i < headers.len(),
    ensures
        source is NotFound ==> headers[i].starting_sequence > seq + 1,
        source matches ChainSource::Walk(k) ==> {
            &&& k < headers.len()
            &&& headers[k as int].starting_sequence <= seq
            &&& i < k ==> headers[i].starting_sequence > seq + 1
        },
        source matches ChainSource::Anchor(hash) ==> exists|k: int|
            {
                &&& 0 <= k < headers.len()
                &&& (#[trigger] headers[k]).starting_sequence == seq + 1
                &&& headers[k].anchor_hash == hash
                &&& i < k ==> headers[i].starting_sequence > seq + 1
            },
{
    if let ChainSource::Anchor(hash) = source {
        let k = choose|k: int| #[trigger]
            first_settling(headers, seq, k) && starts_behind(headers[k], seq) && hash
                == headers[k].anchor_hash;
        assert(headers[k].starting_sequence == seq + 1);
        assert(i < k ==> !settles(headers[i], seq));
    }
}

/// A divergent replica has reached beyond the tip, or its value differs from
/// the one this node has at its last sequence.
pub proof fn law_divergence_has_its_cause(seq: u64, reported: Seq<u8>, chain: ChainAtSequence)
    ensures
        match validation(seq, reported, chain) {
            HandshakeValidation::Divergent(DivergenceKind::AheadOfTip) => chain is BeyondTip && seq
                > 0,
            HandshakeValidation::Divergent(DivergenceKind::ChainMismatch) => seq > 0 && (
            chain matches ChainAtSequence::Value(local) && local@ != reported),
            HandshakeValidation::Consistent => seq == 0 || chain is PredatesHistory || (
            chain matches ChainAtSequence::Value(local) && local@ == reported),
        },
{
}

/// Walking a segment counts only where the segment holds the sequence.
pub proof fn law_header_tells_before_the_walk(hash: [u8; 32], k: usize, walked: ChainValueAt)
    ensures
        chain_from(ChainSource::Anchor(hash), walked) == ChainAtSequence::Value(hash),
        walked matches ChainValueAt::Value(found) ==> chain_from(ChainSource::Walk(k), walked)
            == ChainAtSequence::Value(found),
        walked is BeyondTip ==> chain_from(ChainSource::Walk(k), walked)
            == ChainAtSequence::BeyondTip,
{
}

/// A replica that starts from nothing, or from before all history, is taken;
/// one that is ahead of the tip is not, and of the others those whose hash is
/// the chain's own.
pub proof fn law_replica_is_taken_by_its_hash(
    handshake: &Handshake,
    headers: &[SegmentHeader],
    source: ChainSource,
    walked: ChainValueAt,
    chain: ChainAtSequence,
    v: HandshakeValidation,
    i: int,
)
    requires
        call_ensures(find_chain_source, (headers, handshake.last_sequence), source),
        call_ensures(chain_at_sequence, (source, walked), chain),
        call_ensures(validate_replica_handshake, (handshake, chain), v),
        0 <= i < headers@.len(),
        handshake.last_sequence < u64::MAX,
    ensures
        handshake.last_sequence == 0 ==> v is Consistent,
        source is NotFound ==> v is Consistent && headers@[i].starting_sequence
            > handshake.last_sequence + 1,
        v == HandshakeValidation::Divergent(DivergenceKind::AheadOfTip) ==> source is Walk
            && walked is BeyondTip,
        handshake.last_sequence > 0 && source is Walk && walked is BeyondTip ==> v
            == HandshakeValidation::Divergent(DivergenceKind::AheadOfTip),
        handshake.last_sequence > 0 && source is Walk ==> (walked matches ChainValueAt::Value(
            local,
        ) ==> (v is Consistent <==> local@ == handshake.chain_hash@)),
        handshake.last_sequence > 0 ==> (source matches ChainSource::Anchor(local) ==> (
        v is Consistent <==> local@ == handshake.chain_hash@)),
{
    law_source_by_starting_sequence(headers@, handshake.last_sequence, source, i);
    law_divergence_has_its_cause(handshake.last_sequence, handshake.chain_hash@, chain);
}

} // verus!
