use vstd::prelude::*;

verus! {

/// Walks one region from its first slot to its last, handing out for each slot
/// a copy of its content and an exclusive reference to the same slot.
pub struct InplaceIter<'a, T: Copy> {
    inout: &'a mut [T],
}

impl<'a, T: Copy> InplaceIter<'a, T> {
    /// The contents of the slots not yet visited, in order.
    pub closed spec fn values(&self) -> Seq<T> {
        self.inout@
    }

    /// The slots not yet visited; `final(it.slots())@` is what they hold once
    /// the region is given back.
    pub closed spec fn slots(&self) -> &'a mut [T] {
        self.inout
    }

    /// Starts at the region's first slot.
    pub fn new(inout: &'a mut [T]) -> (r: Self)
        ensures
            r.values() == old(inout)@,
            final(inout)@ == final(r.slots())@,
    {
        InplaceIter { inout }
    }

    /// Yields the next slot's content together with a reference to that slot,
    /// or `None` once every slot was visited.
    pub fn next(&mut self) -> (r: Option<(T, &'a mut T)>)
        ensures
            old(self).values().len() == 0 ==> {
                &&& r is None
                &&& final(self).values().len() == 0
                &&& final(old(self).slots())@ == old(self).values()
            },
            old(self).values().len() > 0 ==> {
                &&& r is Some
                &&& {
                    let (v, d) = r->0;
                    &&& v == old(self).values()[0]
                    &&& *d == v
                    &&& final(self).values() == old(self).values().drop_first()
                    &&& final(old(self).slots())@ == seq![*final(d)] + final(final(self).slots())@
                }
            },
    {
        let mut rest: &'a mut [T] = &mut [];
        core::mem::swap(&mut self.inout, &mut rest);
        if rest.len() == 0 {
            return None;
        }
        let (head, tail) = rest.split_at_mut(1);
        self.inout = tail;
        let slot = head.first_mut().unwrap();
        let v = *slot;
        Some((v, slot))
    }
}

/// Walks a source region and a destination region side by side, handing out
/// for each position a copy of the source's content and an exclusive reference
/// to the destination's slot; it stops when either region is used up.
pub struct OutOfPlaceIter<'a, 'b, T: Copy> {
    src: &'a [T],
    dst: &'b mut [T],
}

impl<'a, 'b, T: Copy> OutOfPlaceIter<'a, 'b, T> {
    /// The source contents not yet handed out, in order.
    pub closed spec fn sources(&self) -> Seq<T> {
        self.src@
    }

    /// The destination slots not yet visited.
    pub closed spec fn slots(&self) -> &'b mut [T] {
        self.dst
    }

    /// The number of steps left: the shorter of the two remaining regions.
    pub open spec fn steps_left(&self) -> nat {
        if self.sources().len() <= self.slots()@.len() {
            self.sources().len()
        } else {
            self.slots()@.len()
        }
    }

    /// Starts at the first position of both regions.
    pub fn new(src: &'a [T], dst: &'b mut [T]) -> (r: Self)
        ensures
            r.sources() == src@,
            r.slots()@ == old(dst)@,
            final(dst)@ == final(r.slots())@,
    {
        OutOfPlaceIter { src, dst }
    }

    /// Yields the next source content together with a reference to the
    /// destination slot at the same position, or `None` once either region is
    /// used up; the destination slots left over are then given back unchanged.
    pub fn next(&mut self) -> (r: Option<(T, &'b mut T)>)
        ensures
            old(self).steps_left() == 0 ==> {
                &&& r is None
                &&& final(self).steps_left() == 0
                &&& final(old(self).slots())@ == old(self).slots()@
            },
            old(self).steps_left() > 0 ==> {
                &&& r is Some
                &&& {
                    let (v, d) = r->0;
                    &&& v == old(self).sources()[0]
                    &&& *d == old(self).slots()@[0]
                    &&& final(self).sources() == old(self).sources().drop_first()
                    &&& final(self).slots()@ == old(self).slots()@.drop_first()
                    &&& final(old(self).slots())@ == seq![*final(d)] + final(final(self).slots())@
                }
            },
    {
        let mut rest: &'b mut [T] = &mut [];
        core::mem::swap(&mut self.dst, &mut rest);
        if self.src.len() == 0 || rest.len() == 0 {
            return None;
        }
        let v = self.src[0];
        let (_, src_tail) = self.src.split_at(1);
        self.src = src_tail;
        let (head, tail) = rest.split_at_mut(1);
        self.dst = tail;
        let slot = head.first_mut().unwrap();
        Some((v, slot))
    }
}

} // verus!
