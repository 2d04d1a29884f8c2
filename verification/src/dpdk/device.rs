//! Hands out the packets of a receive burst one at a time.

use vstd::prelude::*;

verus! {

/// Most packets of one burst.
pub const BURST_SIZE: usize = 32;

/// Longest packet without jumbo frames.
pub const MTU: usize = 1500;

/// A burst of received packets.
#[derive(Clone, Copy, Debug)]
pub struct RxBurst {
    rx_count: usize,
    rx_cursor: usize,
}

impl RxBurst {
    /// The cursor lies within the burst, and the burst within its buffer.
    pub closed spec fn wf(&self) -> bool {
        self.rx_cursor <= self.rx_count <= BURST_SIZE
    }

    /// Places in the buffer of the packets that are left.
    pub closed spec fn left(&self) -> Seq<int> {
        Seq::new((self.rx_count - self.rx_cursor) as nat, |i: int| self.rx_cursor + i)
    }

    /// No packets.
    pub fn new() -> (b: RxBurst)
        ensures
            b.wf(),
            b.left() == Seq::<int>::empty(),
    {
        let b = RxBurst { rx_count: 0, rx_cursor: 0 };
        assert(b.left() =~= Seq::empty());
        b
    }

    /// Whether another burst is to be polled: only once all packets of the
    /// last one are handed out.
    pub fn needs_poll(&self) -> (b: bool)
        requires
            self.wf(),
        ensures
            b == (self.left().len() == 0),
    {
        self.rx_cursor >= self.rx_count
    }

    /// Takes a burst of some packets, which lie at the start of the buffer.
    pub fn polled(&mut self, count: u16)
        requires
            count <= BURST_SIZE,
        ensures
            final(self).wf(),
            final(self).left() == Seq::new(count as nat, |i: int| i),
    {
        self.rx_count = count as usize;
        self.rx_cursor = 0;
        assert(self.left() =~= Seq::new(count as nat, |i: int| i));
    }

    /// The place of the next packet.
    pub fn next_packet(&mut self) -> (place: Option<usize>)
        requires
            old(self).wf(),
        ensures
            final(self).wf(),
            if old(self).left().len() == 0 {
                place is None && final(self).left() == old(self).left()
            } else {
                &&& place matches Some(i)
                &&& i == old(self).left()[0]
                &&& i < BURST_SIZE
                &&& final(self).left() == old(self).left().skip(1)
            },
    {
        if self.rx_cursor >= self.rx_count {
            return None;
        }
        let place: usize = self.rx_cursor;
        self.rx_cursor = self.rx_cursor + 1;
        assert(self.left() =~= old(self).left().skip(1));
        Some(place)
    }
}

/// The packets of a burst are handed out in the order of their places, each
/// once; another burst is polled when none is left, and not before.
pub proof fn law_packets_come_out_in_order(b: &mut RxBurst, place: Option<usize>, poll: bool)
    requires
        call_ensures(RxBurst::next_packet, (b,), place),
        call_ensures(RxBurst::needs_poll, (&*old(b),), poll),
    ensures
        place is None <==> old(b).left().len() == 0,
        poll <==> place is None,
        place matches Some(i) ==> old(b).left() == seq![i as int] + final(b).left(),
        place is None ==> final(b).left() == old(b).left(),
{
    if place is Some {
        assert(old(b).left() =~= seq![place->0 as int] + old(b).left().skip(1));
    }
}

/// A burst of some packets leaves as many to hand out, at the first places.
pub proof fn law_burst_fills_the_first_places(b: &mut RxBurst, count: u16, i: int)
    requires
        call_ensures(RxBurst::polled, (b, count), ()),
        0 <= i < count,
    ensures
        final(b).left().len() == count,
        final(b).left()[i] == i,
{
}

} // verus!
