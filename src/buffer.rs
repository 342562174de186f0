use vstd::prelude::*;
use crate::iter::{InplaceIter, OutOfPlaceIter};

verus! {

/// The smaller of two lengths.
pub open spec fn min_len(a: nat, b: nat) -> nat {
    if a <= b { a } else { b }
}

/// `output` is what a pass of `f` over `input` leaves: one result of `f` for
/// each input value, at the same position.
pub open spec fn transformed<T, F: Fn(T) -> T>(f: F, input: Seq<T>, output: Seq<T>) -> bool {
    &&& output.len() == input.len()
    &&& forall|i: int| 0 <= i < input.len() ==> f.ensures((input[i],), #[trigger] output[i])
}

/// The formula `f` gives one result for each value it is called on.
pub open spec fn deterministic<T, F: Fn(T) -> T>(f: F) -> bool {
    forall|x: T, y: T, z: T| f.ensures((x,), y) && f.ensures((x,), z) ==> y == z
}

/// Running one formula through either strategy over the same input leaves the
/// same output: a pass hands the formula the same value at every position, and
/// the destination ends up holding exactly what the formula returned there.
pub proof fn lemma_strategies_agree<T, F: Fn(T) -> T>(
    f: F,
    input: Seq<T>,
    in_place: Seq<T>,
    out_of_place: Seq<T>,
)
    requires
        deterministic(f),
        transformed(f, input, in_place),
        transformed(f, input, out_of_place),
    ensures
        in_place == out_of_place,
{
    assert(in_place =~= out_of_place);
}

/// What each buffer strategy offers, so that a transform can be written once
/// and run in place or out of place.
pub trait IoBuffer<'a, T: Copy> {
    /// The values a pass reads, by position.
    spec fn input(&self) -> Seq<T>;

    /// What the destination holds now, by position.
    spec fn output(&self) -> Seq<T>;

    /// The borrowed destination region.
    spec fn destination(&self) -> &'a mut [T];

    /// Runs one pass of `f`: at each position that both the input and the
    /// destination have, the destination slot receives `f` of the input value.
    /// The other destination slots keep their contents. Returns the number of
    /// steps taken.
    fn apply<F: Fn(T) -> T>(&mut self, f: F) -> (steps: usize)
        requires
            forall|x: T| f.requires((x,)),
        ensures
            steps == min_len(old(self).input().len(), old(self).output().len()),
            final(self).output().len() == old(self).output().len(),
            forall|i: int|
                0 <= i < steps ==> f.ensures(
                    (old(self).input()[i],),
                    #[trigger] final(self).output()[i],
                ),
            forall|i: int|
                steps <= i < old(self).output().len() ==> #[trigger] final(self).output()[i]
                    == old(self).output()[i],
            final(final(self).destination())@ == final(old(self).destination())@,
    ;
}

impl<'a, T: Copy> IoBuffer<'a, T> for InplaceBuffer<'a, T> {
    open spec fn input(&self) -> Seq<T> {
        self.contents()
    }

    open spec fn output(&self) -> Seq<T> {
        self.contents()
    }

    open spec fn destination(&self) -> &'a mut [T] {
        self.region()
    }

    fn apply<F: Fn(T) -> T>(&mut self, f: F) -> (steps: usize) {
        self.transform(f)
    }
}

impl<'a, 'b, T: Copy> IoBuffer<'b, T> for OutOfPlaceBuffer<'a, 'b, T> {
    open spec fn input(&self) -> Seq<T> {
        self.source()
    }

    open spec fn output(&self) -> Seq<T> {
        self.contents()
    }

    open spec fn destination(&self) -> &'b mut [T] {
        self.region()
    }

    fn apply<F: Fn(T) -> T>(&mut self, f: F) -> (steps: usize) {
        self.transform(f)
    }
}

/// A processing buffer over one region that is read and overwritten in place.
pub struct InplaceBuffer<'a, T: Copy> {
    inout: &'a mut [T],
}

impl<'a, T: Copy> InplaceBuffer<'a, T> {
    /// What the region holds now.
    pub closed spec fn contents(&self) -> Seq<T> {
        self.inout@
    }

    /// The borrowed region; `final(b.region())@` is what it holds once the
    /// buffer gives it back.
    pub closed spec fn region(&self) -> &'a mut [T] {
        self.inout
    }

    /// A buffer that is done with gives its region back holding what it
    /// holds now; in particular a buffer dropped right after construction
    /// leaves the region as it was.
    pub broadcast proof fn lemma_release(self)
        ensures
            #[trigger] has_resolved(self) ==> final(self.region())@ == self.contents(),
    {
    }

    /// Takes the region for a processing pass; nothing is copied.
    pub fn new(inout: &'a mut [T]) -> (r: Self)
        ensures
            r.contents() == old(inout)@,
            final(inout)@ == final(r.region())@,
    {
        InplaceBuffer { inout }
    }

    /// Starts a pass over the whole region.
    pub fn iter(&mut self) -> (r: InplaceIter<'_, T>)
        ensures
            r.values() == old(self).contents(),
            final(self).contents() == final(r.slots())@,
            final(final(self).region())@ == final(old(self).region())@,
    {
        InplaceIter::new(self.inout)
    }

    /// Runs one pass that overwrites every slot with `f` of the content it
    /// held before that step, and returns the number of steps taken.
    pub fn transform<F: Fn(T) -> T>(&mut self, f: F) -> (steps: usize)
        requires
            forall|x: T| f.requires((x,)),
        ensures
            steps == old(self).contents().len(),
            transformed(f, old(self).contents(), final(self).contents()),
            final(final(self).region())@ == final(old(self).region())@,
    {
        let ghost start = self.contents();
        let total: usize = self.inout.len();
        let mut it = self.iter();
        let ghost all = final(it.slots())@;
        let ghost mut done: Seq<T> = seq![];
        let mut steps: usize = 0;
        loop
            invariant
                forall|x: T| f.requires((x,)),
                start == old(self).contents(),
                after_borrow(self).contents() == all,
                final(after_borrow(self).region())@ == final(old(self).region())@,
                start.len() == total,
                steps == done.len(),
                done.len() + it.values().len() == start.len(),
                it.values() == start.subrange(steps as int, start.len() as int),
                all == done + final(it.slots())@,
                forall|i: int| 0 <= i < done.len() ==> f.ensures((start[i],), #[trigger] done[i]),
            decreases it.values().len(),
        {
            match it.next() {
                None => {
                    assert(done =~= all);
                    return steps;
                },
                Some((v, d)) => {
                    *d = f(v);
                    proof {
                        done = done.push(*d);
                    }
                    steps = steps + 1;
                },
            }
        }
    }
}

/// A processing buffer that reads a source region and writes a separate
/// destination region.
pub struct OutOfPlaceBuffer<'a, 'b, T: Copy> {
    src: &'a [T],
    dst: &'b mut [T],
}

impl<'a, 'b, T: Copy> OutOfPlaceBuffer<'a, 'b, T> {
    /// What the source region holds.
    pub closed spec fn source(&self) -> Seq<T> {
        self.src@
    }

    /// What the destination region holds now.
    pub closed spec fn contents(&self) -> Seq<T> {
        self.dst@
    }

    /// The borrowed destination region.
    pub closed spec fn region(&self) -> &'b mut [T] {
        self.dst
    }

    /// A buffer that is done with gives its destination region back holding
    /// what it holds now; in particular a buffer dropped right after
    /// construction leaves the destination as it was.
    pub broadcast proof fn lemma_release(self)
        ensures
            #[trigger] has_resolved(self) ==> final(self.region())@ == self.contents(),
    {
    }

    /// Takes the source to read and the destination to write for a
    /// processing pass; nothing is copied.
    pub fn new(src: &'a [T], dst: &'b mut [T]) -> (r: Self)
        ensures
            r.source() == src@,
            r.contents() == old(dst)@,
            final(dst)@ == final(r.region())@,
    {
        OutOfPlaceBuffer { src, dst }
    }

    /// Starts a pass over the positions that both regions have.
    pub fn iter(&mut self) -> (r: OutOfPlaceIter<'_, '_, T>)
        ensures
            r.sources() == old(self).source(),
            r.slots()@ == old(self).contents(),
            final(self).source() == old(self).source(),
            final(self).contents() == final(r.slots())@,
            final(final(self).region())@ == final(old(self).region())@,
    {
        OutOfPlaceIter::new(self.src, self.dst)
    }

    /// Runs one pass that writes `f` of each source value into the
    /// destination slot at the same position, over the positions that both
    /// regions have, and returns the number of steps taken. Destination slots
    /// past the source's end are left as they were.
    pub fn transform<F: Fn(T) -> T>(&mut self, f: F) -> (steps: usize)
        requires
            forall|x: T| f.requires((x,)),
        ensures
            steps == min_len(old(self).source().len(), old(self).contents().len()),
            final(self).source() == old(self).source(),
            final(self).contents().len() == old(self).contents().len(),
            forall|i: int|
                0 <= i < steps ==> f.ensures(
                    (old(self).source()[i],),
                    #[trigger] final(self).contents()[i],
                ),
            forall|i: int|
                steps <= i < old(self).contents().len() ==> #[trigger] final(self).contents()[i]
                    == old(self).contents()[i],
            final(final(self).region())@ == final(old(self).region())@,
    {
        let ghost source = self.source();
        let ghost start = self.contents();
        let total: usize = if self.src.len() <= self.dst.len() {
            self.src.len()
        } else {
            self.dst.len()
        };
        let mut it = self.iter();
        let ghost all = final(it.slots())@;
        let ghost mut done: Seq<T> = seq![];
        let mut steps: usize = 0;
        loop
            invariant
                forall|x: T| f.requires((x,)),
                source == old(self).source(),
                start == old(self).contents(),
                after_borrow(self).source() == source,
                after_borrow(self).contents() == all,
                final(after_borrow(self).region())@ == final(old(self).region())@,
                total == min_len(source.len(), start.len()),
                steps <= total,
                steps == done.len(),
                it.sources() == source.skip(steps as int),
                it.slots()@ == start.skip(steps as int),
                all == done + final(it.slots())@,
                forall|i: int| 0 <= i < done.len() ==> f.ensures((source[i],), #[trigger] done[i]),
            decreases it.slots()@.len(),
        {
            match it.next() {
                None => {
                    assert(forall|i: int| 0 <= i < steps ==> all[i] == done[i]);
                    assert(forall|i: int|
                        steps <= i < start.len() ==> all[i] == start.skip(steps as int)[i - steps]);
                    return steps;
                },
                Some((v, d)) => {
                    *d = f(v);
                    proof {
                        done = done.push(*d);
                    }
                    steps = steps + 1;
                    assert(it.sources() =~= source.skip(steps as int));
                    assert(it.slots()@ =~= start.skip(steps as int));
                },
            }
        }
    }
}

/// What a buffer's region holds once the buffer is done with.
pub broadcast group group_buffer_release {
    InplaceBuffer::lemma_release,
    OutOfPlaceBuffer::lemma_release,
}

} // verus!
