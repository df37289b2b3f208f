use vstd::prelude::*;
use crate::parse::PpmChannelValues;
use crate::{PpmLoadError, PpmLoadResult, PpmPixel};

verus! {

/// The pixels made of the values `v`, three at a time, in order. A failure
/// among the three ends the sequence with that failure; one or two values
/// left over at a clean end are dropped.
pub open spec fn triples(v: Seq<PpmLoadResult<u32>>) -> Seq<PpmLoadResult<PpmPixel>>
    decreases v.len(),
{
    if v.len() == 0 {
        seq![]
    } else if v[0] is Err {
        seq![Err(v[0]->Err_0)]
    } else if v.len() == 1 {
        seq![]
    } else if v[1] is Err {
        seq![Err(v[1]->Err_0)]
    } else if v.len() == 2 {
        seq![]
    } else if v[2] is Err {
        seq![Err(v[2]->Err_0)]
    } else {
        seq![Ok(PpmPixel(v[0]->Ok_0, v[1]->Ok_0, v[2]->Ok_0))] + triples(v.skip(3))
    }
}

/// With no failure among them, `n` values make `n / 3` pixels, in order;
/// one or two values left over are dropped.
pub proof fn lemma_triples_count(v: Seq<PpmLoadResult<u32>>)
    requires
        forall|i: int| 0 <= i < v.len() ==> (#[trigger] v[i]) is Ok,
    ensures
        triples(v).len() == v.len() / 3,
        forall|j: int|
            0 <= j < triples(v).len() ==> #[trigger] triples(v)[j] == Ok::<PpmPixel, PpmLoadError>(
                PpmPixel(v[3 * j]->Ok_0, v[3 * j + 1]->Ok_0, v[3 * j + 2]->Ok_0),
            ),
    decreases v.len(),
{
    if v.len() >= 3 {
        let w = v.skip(3);
        assert forall|i: int| 0 <= i < w.len() implies (#[trigger] w[i]) is Ok by {
            assert(w[i] == v[i + 3]);
        }
        lemma_triples_count(w);
        let t = triples(v);
        assert forall|j: int| 0 <= j < t.len() implies #[trigger] t[j] == Ok::<
            PpmPixel,
            PpmLoadError,
        >(PpmPixel(v[3 * j]->Ok_0, v[3 * j + 1]->Ok_0, v[3 * j + 2]->Ok_0)) by {
            if j > 0 {
                assert(t[j] == triples(w)[j - 1]);
                assert(w[3 * (j - 1)] == v[3 * j]);
                assert(w[3 * (j - 1) + 1] == v[3 * j + 1]);
                assert(w[3 * (j - 1) + 2] == v[3 * j + 2]);
            }
        }
    } else {
        if v.len() > 0 {
            assert(v[0] is Ok);
        }
        if v.len() > 1 {
            assert(v[1] is Ok);
        }
    }
}

/// The pixel whose channels are the three entries of `a`.
pub open spec fn pixel_of(a: [u32; 3]) -> PpmPixel {
    PpmPixel(a@[0], a@[1], a@[2])
}

/// The channel values of a stream, grouped into pixels.
pub struct PpmPixelChunks {
    iterator: PpmChannelValues,
}

/// Groups the values of `iterator` three at a time.
pub fn chunks(iterator: PpmChannelValues) -> (r: PpmPixelChunks)
    requires
        iterator.wf(),
    ensures
        r.wf(),
        r.items() == triples(iterator.items()),
{
    PpmPixelChunks { iterator }
}

impl PpmPixelChunks {
    pub closed spec fn wf(&self) -> bool {
        self.iterator.wf()
    }

    /// Everything the chunker will still yield, in order.
    pub closed spec fn items(&self) -> Seq<PpmLoadResult<PpmPixel>> {
        triples(self.iterator.items())
    }

    /// Yields the next group of three values, or the failure met while
    /// pulling them, or `None` once fewer than three values are left.
    pub fn next(&mut self) -> (r: Option<PpmLoadResult<[u32; 3]>>)
        requires
            old(self).wf(),
        ensures
            final(self).wf(),
            old(self).items().len() == 0 ==> r is None && final(self).items().len() == 0,
            old(self).items().len() > 0 ==> r is Some && final(self).items() == old(
                self,
            ).items().skip(1),
            old(self).items().len() > 0 ==> match r {
                Some(Ok(a)) => old(self).items()[0] == Ok::<PpmPixel, PpmLoadError>(pixel_of(a)),
                Some(Err(e)) => old(self).items()[0] == Err::<PpmPixel, PpmLoadError>(e),
                None => false,
            },
    {
        let ghost v = self.iterator.items();
        let red = match self.iterator.next() {
            Some(Ok(x)) => x,
            Some(Err(err)) => return Some(Err(err)),
            None => return None,
        };
        let green = match self.iterator.next() {
            Some(Ok(x)) => x,
            Some(Err(err)) => return Some(Err(err)),
            None => return None,
        };
        let blue = match self.iterator.next() {
            Some(Ok(x)) => x,
            Some(Err(err)) => return Some(Err(err)),
            None => return None,
        };
        assert(v.skip(1).skip(1).skip(1) =~= v.skip(3));
        let triple: [u32; 3] = [red, green, blue];
        Some(Ok(triple))
    }

    /// Yields the next pixel, or the failure met while reading it, or `None`
    /// once fewer than three values are left.
    pub fn next_pixel(&mut self) -> (r: Option<PpmLoadResult<PpmPixel>>)
        requires
            old(self).wf(),
        ensures
            final(self).wf(),
            old(self).items().len() == 0 ==> r is None && final(self).items().len() == 0,
            old(self).items().len() > 0 ==> r == Some(old(self).items()[0]),
            old(self).items().len() > 0 ==> final(self).items() == old(self).items().skip(1),
    {
        match self.next() {
            Some(Ok(triple)) => Some(Ok(PpmPixel(triple[0], triple[1], triple[2]))),
            Some(Err(err)) => Some(Err(err)),
            None => None,
        }
    }
}

} // verus!
