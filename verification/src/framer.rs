//! Line framing of the inbound byte stream.
//!
//! The device talks in newline-terminated lines, but the transport hands
//! bytes over in arbitrary chunks. `LineFramer` accumulates chunks and
//! hands back complete lines, each including its terminating newline; the
//! trailing unterminated partial line stays buffered. No byte is ever
//! dropped or duplicated: the emitted lines concatenated with the residue
//! reconstruct the input exactly.

use vstd::prelude::*;

verus! {

/// The line terminator of the wire protocol.
pub const NEWLINE: u8 = 10;

/// Index of the first newline in `s`, or `s.len()` if there is none.
pub open spec fn first_newline(s: Seq<u8>) -> int
    decreases s.len(),
{
    if s.len() == 0 {
        0
    } else if s[0] == NEWLINE {
        0
    } else {
        1 + first_newline(s.drop_first())
    }
}

/// Whether `s` holds at least one complete (newline-terminated) line.
pub open spec fn has_newline(s: Seq<u8>) -> bool {
    first_newline(s) < s.len()
}

/// The first complete line of `s`, including its newline.
pub open spec fn line_prefix(s: Seq<u8>) -> Seq<u8> {
    s.take(first_newline(s) + 1)
}

/// What remains of `s` after its first complete line.
pub open spec fn line_rest(s: Seq<u8>) -> Seq<u8> {
    s.skip(first_newline(s) + 1)
}

pub proof fn lemma_first_newline_bounds(s: Seq<u8>)
    ensures
        0 <= first_newline(s) <= s.len(),
        first_newline(s) < s.len() ==> s[first_newline(s)] == NEWLINE,
        forall|j: int| 0 <= j < first_newline(s) ==> s[j] != NEWLINE,
        forall|j: int| 0 <= j < s.len() && s[j] == NEWLINE ==> first_newline(s) <= j,
    decreases s.len(),
{
    if s.len() == 0 {
    } else if s[0] == NEWLINE {
    } else {
        lemma_first_newline_bounds(s.drop_first());
        assert forall|j: int| 0 <= j < s.len() && s[j] == NEWLINE implies first_newline(s)
            <= j by {
            assert(s.drop_first()[j - 1] == s[j]);
        }
    }
}

/// The first newline of `s` is at `i` exactly when `s[i]` is a newline and
/// nothing before it is.
pub proof fn lemma_first_newline_at(s: Seq<u8>, i: int)
    requires
        0 <= i < s.len(),
        s[i] == NEWLINE,
        forall|j: int| 0 <= j < i ==> s[j] != NEWLINE,
    ensures
        first_newline(s) == i,
{
    lemma_first_newline_bounds(s);
}

/// All complete lines of `s`, in order, each including its newline.
pub open spec fn complete_lines(s: Seq<u8>) -> Seq<Seq<u8>>
    decreases s.len() via complete_lines_decreases
{
    if has_newline(s) {
        seq![line_prefix(s)] + complete_lines(line_rest(s))
    } else {
        Seq::empty()
    }
}

#[via_fn]
proof fn complete_lines_decreases(s: Seq<u8>) {
    lemma_first_newline_bounds(s);
}

/// The trailing unterminated partial line of `s` (all of `s` when no
/// newline is present).
pub open spec fn unterminated_rest(s: Seq<u8>) -> Seq<u8>
    decreases s.len() via unterminated_rest_decreases
{
    if has_newline(s) {
        unterminated_rest(line_rest(s))
    } else {
        s
    }
}

#[via_fn]
proof fn unterminated_rest_decreases(s: Seq<u8>) {
    lemma_first_newline_bounds(s);
}

/// The views of a sequence of byte vectors.
pub open spec fn views_of(vs: Seq<Vec<u8>>) -> Seq<Seq<u8>> {
    vs.map_values(|v: Vec<u8>| v@)
}

/// Splitting at newline boundaries loses nothing: the complete lines,
/// concatenated, followed by the unterminated residue, are exactly `s`.
pub proof fn lemma_lines_reconstruct(s: Seq<u8>)
    ensures
        complete_lines(s).flatten() + unterminated_rest(s) == s,
    decreases s.len(),
{
    lemma_first_newline_bounds(s);
    if has_newline(s) {
        lemma_lines_reconstruct(line_rest(s));
        let a = line_prefix(s);
        let f = complete_lines(line_rest(s)).flatten();
        let u = unterminated_rest(line_rest(s));
        let xs = complete_lines(s);
        assert(xs == seq![a] + complete_lines(line_rest(s)));
        assert(xs.len() > 0);
        assert(xs.first() == a);
        assert(xs.drop_first() =~= complete_lines(line_rest(s)));
        assert(xs.flatten() == a + f);
        assert(f + u == line_rest(s));
        assert((a + f) + u =~= a + line_rest(s));
        assert(a + line_rest(s) =~= s);
    } else {
        assert(complete_lines(s).flatten() + unterminated_rest(s) =~= s);
    }
}

/// Every complete line is nonempty, ends with the newline, and holds no
/// newline before its end; the residue holds no newline at all.
pub proof fn lemma_lines_shape(s: Seq<u8>)
    ensures
        forall|k: int|
            0 <= k < complete_lines(s).len() ==> {
                let l = #[trigger] complete_lines(s)[k];
                &&& l.len() > 0
                &&& l[l.len() - 1] == NEWLINE
                &&& forall|j: int| 0 <= j < l.len() - 1 ==> l[j] != NEWLINE
            },
        !has_newline(unterminated_rest(s)),
    decreases s.len(),
{
    lemma_first_newline_bounds(s);
    if has_newline(s) {
        lemma_lines_shape(line_rest(s));
        let l0 = line_prefix(s);
        assert(l0.len() == first_newline(s) + 1);
        assert(l0[l0.len() - 1] == s[first_newline(s)]);
        assert(forall|j: int| 0 <= j < l0.len() - 1 ==> l0[j] == s[j] && s[j] != NEWLINE);
        assert(complete_lines(s) == seq![l0] + complete_lines(line_rest(s)));
        assert forall|k: int| 0 <= k < complete_lines(s).len() implies {
            let l = #[trigger] complete_lines(s)[k];
            &&& l.len() > 0
            &&& l[l.len() - 1] == NEWLINE
            &&& forall|j: int| 0 <= j < l.len() - 1 ==> l[j] != NEWLINE
        } by {
            if k > 0 {
                assert(complete_lines(s)[k] == complete_lines(line_rest(s))[k - 1]);
            }
        }
    }
}

/// Appending bytes does not move an existing first line.
pub proof fn lemma_first_line_extend(a: Seq<u8>, b: Seq<u8>)
    requires
        has_newline(a),
    ensures
        has_newline(a + b),
        first_newline(a + b) == first_newline(a),
        line_prefix(a + b) == line_prefix(a),
        line_rest(a + b) == line_rest(a) + b,
{
    lemma_first_newline_bounds(a);
    let i = first_newline(a);
    assert((a + b)[i] == NEWLINE);
    assert(forall|j: int| 0 <= j < i ==> (a + b)[j] == a[j] && a[j] != NEWLINE);
    lemma_first_newline_at(a + b, i);
    assert(line_prefix(a + b) =~= line_prefix(a));
    assert(line_rest(a + b) =~= line_rest(a) + b);
}

/// The complete lines of `s + x` are the complete lines of `s` followed
/// by the lines completed once `x` extends `s`'s unterminated residue;
/// the residue decomposes the same way.
pub proof fn lemma_lines_decompose(s: Seq<u8>, x: Seq<u8>)
    ensures
        complete_lines(s + x) == complete_lines(s) + complete_lines(unterminated_rest(s) + x),
        unterminated_rest(s + x) == unterminated_rest(unterminated_rest(s) + x),
    decreases s.len(),
{
    lemma_first_newline_bounds(s);
    if has_newline(s) {
        lemma_first_line_extend(s, x);
        lemma_lines_decompose(line_rest(s), x);
        assert(line_rest(s) + x == line_rest(s + x));
        assert(complete_lines(s + x) == seq![line_prefix(s)] + complete_lines(line_rest(s) + x));
        assert(complete_lines(s) == seq![line_prefix(s)] + complete_lines(line_rest(s)));
        assert(unterminated_rest(s) == unterminated_rest(line_rest(s)));
        assert(complete_lines(s + x) =~= complete_lines(s) + complete_lines(
            unterminated_rest(s) + x,
        ));
        assert(unterminated_rest(s + x) == unterminated_rest(line_rest(s) + x));
    } else {
        assert(unterminated_rest(s) == s);
        assert(complete_lines(s) =~= Seq::<Seq<u8>>::empty());
        assert(s + x == unterminated_rest(s) + x);
        assert(complete_lines(s + x) =~= complete_lines(s) + complete_lines(
            unterminated_rest(s) + x,
        ));
    }
}

/// Accumulates raw transport chunks and yields newline-terminated lines.
///
/// Its view is the sequence of buffered bytes not yet taken out as lines.
pub struct LineFramer {
    acc: Vec<u8>,
}

impl View for LineFramer {
    type V = Seq<u8>;

    closed spec fn view(&self) -> Seq<u8> {
        self.acc@
    }
}

impl LineFramer {
    /// A framer with an empty accumulator.
    pub fn new() -> (r: LineFramer)
        ensures
            r@ == Seq::<u8>::empty(),
    {
        LineFramer { acc: Vec::new() }
    }

    /// Append a chunk to the accumulator. A zero-length chunk leaves the
    /// framer exactly as it was.
    pub fn feed(&mut self, chunk: &[u8])
        ensures
            final(self)@ == old(self)@ + chunk@,
            chunk@.len() == 0 ==> final(self)@ == old(self)@,
    {
        let mut i: usize = 0;
        while i < chunk.len()
            invariant
                i <= chunk.len(),
                self.acc@ == old(self).acc@ + chunk@.take(i as int),
            decreases chunk.len() - i,
        {
            self.acc.push(chunk[i]);
            assert(chunk@.take(i + 1) =~= chunk@.take(i as int).push(chunk@[i as int]));
            assert(old(self).acc@ + chunk@.take(i + 1) =~= (old(self).acc@ + chunk@.take(
                i as int,
            )).push(chunk@[i as int]));
            i = i + 1;
        }
        assert(chunk@.take(chunk@.len() as int) =~= chunk@);
        assert(chunk@.len() == 0 ==> old(self).acc@ + chunk@ =~= old(self).acc@);
    }

    /// Take the first complete line out of the accumulator, newline
    /// included; `None`, and no change, while no newline is buffered.
    pub fn take_line(&mut self) -> (r: Option<Vec<u8>>)
        ensures
            !has_newline(old(self)@) ==> r is None && final(self)@ == old(self)@,
            has_newline(old(self)@) ==> (r matches Some(l) && l@ == line_prefix(old(self)@)
                && final(self)@ == line_rest(old(self)@)),
    {
        proof {
            lemma_first_newline_bounds(self@);
        }
        let n = self.acc.len();
        let mut i: usize = 0;
        while i < n && self.acc[i] != NEWLINE
            invariant
                n == self.acc.len(),
                i <= n,
                forall|j: int| 0 <= j < i ==> self.acc@[j] != NEWLINE,
                self == old(self),
            decreases n - i,
        {
            i = i + 1;
        }
        if i == n {
            proof {
                lemma_first_newline_bounds(self@);
            }
            return None;
        }
        proof {
            lemma_first_newline_at(self@, i as int);
        }
        let mut line: Vec<u8> = Vec::new();
        let mut j: usize = 0;
        while j <= i
            invariant
                n == self.acc.len(),
                i < n,
                j <= i + 1,
                line@ == self.acc@.take(j as int),
                self == old(self),
            decreases i + 1 - j,
        {
            line.push(self.acc[j]);
            assert(self.acc@.take(j + 1) =~= self.acc@.take(j as int).push(self.acc@[j as int]));
            j = j + 1;
        }
        let mut rest: Vec<u8> = Vec::new();
        let mut k: usize = i + 1;
        while k < n
            invariant
                n == self.acc.len(),
                i + 1 <= k <= n,
                rest@ == self.acc@.subrange(i + 1, k as int),
                self == old(self),
            decreases n - k,
        {
            rest.push(self.acc[k]);
            assert(self.acc@.subrange(i + 1, k + 1) =~= self.acc@.subrange(i + 1, k as int).push(
                self.acc@[k as int],
            ));
            k = k + 1;
        }
        self.acc = rest;
        Some(line)
    }
}

/// Feed every chunk through a fresh framer and collect all complete
/// lines plus the trailing residue.
///
/// The contract states the framing law: the lines are exactly the
/// newline-delimited complete lines of the concatenated input, the
/// residue is the unterminated tail, and together they reconstruct the
/// input byte for byte.
pub fn frame_all(chunks: &Vec<Vec<u8>>) -> (r: (Vec<Vec<u8>>, Vec<u8>))
    ensures
        views_of(r.0@) == complete_lines(views_of(chunks@).flatten()),
        r.1@ == unterminated_rest(views_of(chunks@).flatten()),
        views_of(r.0@).flatten() + r.1@ == views_of(chunks@).flatten(),
        forall|k: int|
            0 <= k < r.0@.len() ==> {
                let l = (#[trigger] r.0@[k])@;
                &&& l.len() > 0
                &&& l[l.len() - 1] == NEWLINE
                &&& forall|j: int| 0 <= j < l.len() - 1 ==> l[j] != NEWLINE
            },
        !has_newline(r.1@),
{
    let ghost all: Seq<u8> = views_of(chunks@).flatten();
    let mut framer = LineFramer::new();
    let mut i: usize = 0;
    while i < chunks.len()
        invariant
            i <= chunks.len(),
            all == views_of(chunks@).flatten(),
            framer@ == views_of(chunks@).take(i as int).flatten(),
        decreases chunks.len() - i,
    {
        framer.feed(chunks[i].as_slice());
        proof {
            let dv = views_of(chunks@);
            assert(dv.take(i + 1) =~= dv.take(i as int).push(dv[i as int]));
            dv.take(i as int).lemma_flatten_push(dv[i as int]);
            assert(dv[i as int] == chunks@[i as int]@);
        }
        i = i + 1;
    }
    proof {
        assert(views_of(chunks@).take(chunks@.len() as int) =~= views_of(chunks@));
    }
    let mut lines: Vec<Vec<u8>> = Vec::new();
    loop
        invariant
            views_of(lines@).flatten() + framer@ == all,
            complete_lines(all) == views_of(lines@) + complete_lines(framer@),
            unterminated_rest(all) == unterminated_rest(framer@),
        ensures
            !has_newline(framer@),
            views_of(lines@).flatten() + framer@ == all,
            complete_lines(all) == views_of(lines@) + complete_lines(framer@),
            unterminated_rest(all) == unterminated_rest(framer@),
        decreases framer@.len(),
    {
        proof {
            lemma_first_newline_bounds(framer@);
            assert(views_of(lines@).flatten() + framer@ == all);
        }
        let ghost acc_before = framer@;
        let ghost lines_before = views_of(lines@);
        match framer.take_line() {
            None => {
                break ;
            },
            Some(l) => {
                lines.push(l);
                proof {
                    assert(views_of(lines@) =~= lines_before.push(line_prefix(acc_before)));
                    lines_before.lemma_flatten_push(line_prefix(acc_before));
                    assert(line_prefix(acc_before) + line_rest(acc_before) =~= acc_before);
                    assert(views_of(lines@).flatten() + framer@ =~= lines_before.flatten()
                        + acc_before);
                    assert(complete_lines(acc_before) == seq![line_prefix(acc_before)]
                        + complete_lines(line_rest(acc_before)));
                    assert(views_of(lines@) + complete_lines(framer@) =~= lines_before
                        + complete_lines(acc_before));
                }
            },
        }
    }
    proof {
        assert(complete_lines(framer@) =~= Seq::<Seq<u8>>::empty());
        assert(views_of(lines@) + complete_lines(framer@) =~= views_of(lines@));
        assert(unterminated_rest(framer@) == framer@);
        lemma_lines_shape(all);
        assert(forall|k: int|
            0 <= k < lines@.len() ==> (#[trigger] lines@[k])@ == views_of(lines@)[k]);
    }
    (lines, framer.into_inner())
}

impl LineFramer {
    /// Surrender the buffered residue.
    pub fn into_inner(self) -> (r: Vec<u8>)
        ensures
            r@ == self@,
    {
        self.acc
    }
}

} // verus!
