//! Iteration over doubly-null-terminated UTF-16 string lists
//! (`string\0string\0...\0\0`), as the device-interface listing
//! returns them.

use vstd::prelude::*;

verus! {

/// The index of the first null at or after `i`, or the length if none
/// follows.
pub open spec fn first_zero(s: Seq<u16>, i: int) -> int
    decreases s.len() - i,
{
    if i < 0 || i >= s.len() {
        s.len() as int
    } else if s[i] == 0 {
        i
    } else {
        first_zero(s, i + 1)
    }
}

/// The first null comes no earlier than the scan's start and no later
/// than the end.
pub proof fn lemma_first_zero_range(s: Seq<u16>, i: int)
    requires
        0 <= i <= s.len(),
    ensures
        i <= first_zero(s, i) <= s.len(),
    decreases s.len() - i,
{
    if i < s.len() && s[i] != 0 {
        lemma_first_zero_range(s, i + 1);
    }
}

/// The strings of the region starting at `i`: maximal nonempty runs up
/// to each null, ending at the first empty run.
pub open spec fn pzz_strings(s: Seq<u16>, i: int) -> Seq<Seq<u16>>
    decreases s.len() + 1 - i
        via pzz_strings_decreases
{
    if i < 0 || i >= s.len() || s[i] == 0 {
        seq![]
    } else {
        seq![s.subrange(i, first_zero(s, i))] + pzz_strings(s, first_zero(s, i) + 1)
    }
}

#[via_fn]
proof fn pzz_strings_decreases(s: Seq<u16>, i: int) {
    if !(i < 0 || i >= s.len() || s[i] == 0) {
        lemma_first_zero_range(s, i);
    }
}

/// The first null lies within the region and no earlier.
pub proof fn lemma_first_zero_bounds(s: Seq<u16>, i: int)
    requires
        0 <= i <= s.len(),
        s.len() > 0 ==> s[s.len() - 1] == 0,
    ensures
        i <= first_zero(s, i) <= s.len(),
        i < s.len() ==> first_zero(s, i) < s.len(),
        forall|j: int| i <= j < first_zero(s, i) ==> s[j] != 0,
        first_zero(s, i) < s.len() ==> s[first_zero(s, i)] == 0,
    decreases s.len() - i,
{
    if i < s.len() && s[i] != 0 {
        lemma_first_zero_bounds(s, i + 1);
    }
}

/// A cursor over a doubly-null-terminated UTF-16 region, yielding the
/// successive strings.
#[derive(Debug)]
pub struct PzzWSTRIter {
    /// The region.
    pub data: Vec<u16>,
    /// Cursor: start of the next string, or past the terminator.
    pub pos: usize,
}

impl PzzWSTRIter {
    /// The cursor is in bounds and the region ends with a null, so
    /// every scan terminates inside it.
    pub open spec fn wf(self) -> bool {
        &&& self.pos <= self.data@.len()
        &&& (self.data@.len() > 0 ==> self.data@[self.data@.len() - 1] == 0)
    }

    /// Iterate a doubly-null-terminated region from its start.  The
    /// caller warrants the shape; a region not ending in a null is
    /// rejected rather than read past.
    pub fn new(data: Vec<u16>) -> (r: Option<Self>)
        ensures
            r is Some <==> (data@.len() == 0 || data@[data@.len() - 1] == 0),
            r matches Some(it) ==> it.data@ == data@ && it.pos == 0 && it.wf(),
    {
        if data.len() == 0 || data[data.len() - 1] == 0 {
            Some(PzzWSTRIter { data, pos: 0 })
        } else {
            None
        }
    }

    /// The next string, or `None` at the terminating null.
    pub fn next(&mut self) -> (r: Option<Vec<u16>>)
        requires
            old(self).wf(),
        ensures
            final(self).wf(),
            final(self).data@ == old(self).data@,
            r is None <==> (old(self).pos == old(self).data@.len() || old(self).data@[old(
                self,
            ).pos as int] == 0),
            r is None ==> final(self).pos == old(self).pos,
            r matches Some(v) ==> {
                let e = first_zero(old(self).data@, old(self).pos as int);
                &&& v@ == old(self).data@.subrange(old(self).pos as int, e)
                &&& final(self).pos == e + 1
            },
    {
        if self.pos >= self.data.len() {
            return None;
        }
        if self.data[self.pos] == 0 {
            return None;
        }
        proof {
            lemma_first_zero_bounds(self.data@, self.pos as int);
        }
        let mut end: usize = self.pos;
        while end < self.data.len() && self.data[end] != 0
            invariant
                self.pos <= end <= self.data@.len(),
                self.data@.len() > 0 ==> self.data@[self.data@.len() - 1] == 0,
                forall|j: int| self.pos <= j < end ==> self.data@[j] != 0,
                first_zero(self.data@, self.pos as int) == first_zero(self.data@, end as int),
            decreases self.data@.len() - end,
        {
            end = end + 1;
        }
        proof {
            lemma_first_zero_bounds(self.data@, end as int);
            assert(end == first_zero(self.data@, self.pos as int));
            assert(end < self.data@.len());
        }
        let mut v: Vec<u16> = Vec::new();
        let mut j: usize = self.pos;
        while j < end
            invariant
                self.pos <= j <= end <= self.data@.len(),
                v@ == self.data@.subrange(self.pos as int, j as int),
            decreases end - j,
        {
            v.push(self.data[j]);
            proof {
                assert(v@ =~= self.data@.subrange(self.pos as int, j + 1));
            }
            j = j + 1;
        }
        self.pos = end + 1;
        Some(v)
    }

    /// All remaining strings, in order.
    pub fn all(&mut self) -> (r: Vec<Vec<u16>>)
        requires
            old(self).wf(),
        ensures
            final(self).wf(),
            final(self).data@ == old(self).data@,
            r.deep_view() == pzz_strings(old(self).data@, old(self).pos as int),
    {
        let mut r: Vec<Vec<u16>> = Vec::new();
        proof {
            assert(r.deep_view() =~= Seq::<Seq<u16>>::empty());
        }
        loop
            invariant
                self.wf(),
                self.data@ == old(self).data@,
                r.deep_view() + pzz_strings(self.data@, self.pos as int) == pzz_strings(
                    old(self).data@,
                    old(self).pos as int,
                ),
            decreases self.data@.len() - self.pos,
        {
            let ghost pre_pos = self.pos;
            let ghost pre_r = r.deep_view();
            match self.next() {
                None => {
                    proof {
                        assert(pzz_strings(self.data@, self.pos as int) =~= Seq::<
                            Seq<u16>,
                        >::empty());
                        assert(r.deep_view() =~= pzz_strings(
                            old(self).data@,
                            old(self).pos as int,
                        ));
                    }
                    return r;
                },
                Some(v) => {
                    proof {
                        lemma_first_zero_bounds(self.data@, pre_pos as int);
                    }
                    r.push(v);
                    proof {
                        assert forall|a: int| 0 <= a < r@.len() implies r.deep_view()[a]
                            == pre_r.push(v@)[a] by {
                            assert(r.deep_view()[a] == r@[a]@);
                        }
                        assert(r.deep_view() =~= pre_r.push(v@));
                        assert(pzz_strings(self.data@, pre_pos as int) == seq![v@] + pzz_strings(
                            self.data@,
                            self.pos as int,
                        ));
                        assert(r.deep_view() + pzz_strings(self.data@, self.pos as int)
                            =~= pzz_strings(old(self).data@, old(self).pos as int));
                    }
                },
            }
        }
    }
}

} // verus!
