//! Incremental line splitting for a growing log file.
//!
//! The caller reads whatever bytes the file has beyond its cursor — an
//! absent or unchanged file simply yields no bytes — and feeds them here;
//! each feed returns the newly completed lines, leaving a trailing partial
//! line buffered for the next poll. Nothing here blocks: a feed handles
//! exactly the bytes given.

use vstd::prelude::*;

verus! {

/// The lines joined back together, each closed by the newline that ended
/// it in the file.
pub open spec fn joined_lines(lines: Seq<Seq<u8>>) -> Seq<u8>
    decreases lines.len(),
{
    if lines.len() == 0 {
        Seq::empty()
    } else {
        lines[0] + seq![10u8] + joined_lines(lines.drop_first())
    }
}

pub open spec fn line_free(s: Seq<u8>) -> bool {
    forall|i: int| 0 <= i < s.len() ==> s[i] != 10u8
}

proof fn lemma_joined_lines_push(lines: Seq<Seq<u8>>, x: Seq<u8>)
    ensures
        joined_lines(lines.push(x)) == joined_lines(lines) + x + seq![10u8],
    decreases lines.len(),
{
    let p = lines.push(x);
    if lines.len() == 0 {
        assert(p[0] == x);
        assert(p.drop_first() =~= Seq::<Seq<u8>>::empty());
        assert(joined_lines(p.drop_first()) == Seq::<u8>::empty());
        assert(joined_lines(p) == p[0] + seq![10u8] + joined_lines(p.drop_first()));
        assert(joined_lines(lines) == Seq::<u8>::empty());
        assert(x + seq![10u8] + Seq::<u8>::empty() =~= Seq::<u8>::empty() + x + seq![10u8]);
    } else {
        assert(p[0] == lines[0]);
        assert(p.drop_first() =~= lines.drop_first().push(x));
        lemma_joined_lines_push(lines.drop_first(), x);
        assert(joined_lines(p) =~= joined_lines(lines) + x + seq![10u8]);
    }
}

/// The cursor over one log file: the bytes of an in-progress final line,
/// buffered until its newline arrives. The byte offset into the file is
/// the caller's, advanced by however much it read.
pub struct TailCursor {
    partial: Vec<u8>,
}

impl TailCursor {
    /// The buffered partial line.
    pub closed spec fn view(&self) -> Seq<u8> {
        self.partial@
    }

    pub closed spec fn wf(&self) -> bool {
        line_free(self.partial@)
    }

    /// A cursor with nothing buffered, for a fresh run read from the start
    /// of its file.
    pub fn new() -> (r: TailCursor)
        ensures
            r@ == Seq::<u8>::empty(),
            r.wf(),
    {
        TailCursor { partial: Vec::new() }
    }

    /// Splits newly read bytes into the completed lines: everything
    /// buffered plus the new bytes, cut at each newline, with the trailing
    /// remainder buffered for the next poll. No returned line and no
    /// remainder contains a newline, and nothing is lost or reordered:
    /// the lines, each closed by its newline, followed by the new
    /// remainder, are exactly the old remainder followed by the bytes fed.
    #[verifier::loop_isolation(false)]
    pub fn feed(&mut self, chunk: &[u8]) -> (lines: Vec<Vec<u8>>)
        requires
            old(self).wf(),
        ensures
            final(self).wf(),
            joined_lines(lines.deep_view()) + final(self)@ == old(self)@ + chunk@,
            forall|i: int|
                0 <= i < lines.deep_view().len() ==> line_free(#[trigger] lines.deep_view()[i]),
    {
        let mut lines: Vec<Vec<u8>> = Vec::new();
        let mut cur: Vec<u8> = Vec::new();
        let mut j: usize = 0;
        while j < self.partial.len()
            invariant
                j <= self.partial@.len(),
                cur@ == self.partial@.take(j as int),
            decreases self.partial@.len() - j,
        {
            let b = self.partial[j];
            cur.push(b);
            proof {
                assert(cur@ =~= self.partial@.take(j + 1));
            }
            j = j + 1;
        }
        proof {
            assert(self.partial@.take(self.partial@.len() as int) =~= self.partial@);
            assert(lines.deep_view() =~= Seq::<Seq<u8>>::empty());
            assert(joined_lines(lines.deep_view()) + cur@ =~= old(self)@ + chunk@.take(0));
        }
        let mut i: usize = 0;
        while i < chunk.len()
            invariant
                i <= chunk@.len(),
                joined_lines(lines.deep_view()) + cur@ == old(self)@ + chunk@.take(i as int),
                line_free(cur@),
                forall|k: int|
                    0 <= k < lines.deep_view().len() ==> line_free(
                        #[trigger] lines.deep_view()[k],
                    ),
            decreases chunk@.len() - i,
        {
            let b = chunk[i];
            let ghost lv = lines.deep_view();
            let ghost cv = cur@;
            if b == 10u8 {
                proof {
                    lemma_joined_lines_push(lines.deep_view(), cur@);
                }
                lines.push(cur);
                cur = Vec::new();
                proof {
                    assert(lines.deep_view() =~~= lv.push(cv));
                    assert(chunk@.take(i + 1) =~= chunk@.take(i as int) + seq![10u8]);
                    assert(joined_lines(lines.deep_view()) == joined_lines(lv) + cv + seq![10u8]);
                    assert(joined_lines(lv) + cv + seq![10u8] =~= (old(self)@ + chunk@.take(
                        i as int,
                    )) + seq![10u8]);
                    assert((old(self)@ + chunk@.take(i as int)) + seq![10u8] =~= old(self)@
                        + chunk@.take(i + 1));
                    assert(joined_lines(lines.deep_view()) + cur@ =~= joined_lines(
                        lines.deep_view(),
                    ));
                }
            } else {
                cur.push(b);
                proof {
                    assert(joined_lines(lines.deep_view()) + cur@ =~= (joined_lines(lv) + cv)
                        + seq![chunk@[i as int]]);
                    assert((old(self)@ + chunk@.take(i as int)) + seq![chunk@[i as int]]
                        =~= old(self)@ + chunk@.take(i + 1));
                }
            }
            i = i + 1;
        }
        proof {
            assert(chunk@.take(chunk@.len() as int) =~= chunk@);
        }
        self.partial = cur;
        lines
    }
}

} // verus!
