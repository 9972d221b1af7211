use vstd::prelude::*;

verus! {

/// Byte that opens a sentence (`$`).
pub const SENTENCE_START: u8 = 0x24;

/// Byte that closes a sentence (`\n`).
pub const SENTENCE_END: u8 = 0x0A;

/// Position of the first `b` in `s`, or `s.len()` when there is none.
pub open spec fn first_index(s: Seq<u8>, b: u8) -> int
    decreases s.len(),
{
    if s.len() == 0 {
        0
    } else if s[0] == b {
        0
    } else {
        1 + first_index(s.drop_first(), b)
    }
}

/// `s` holds no byte equal to `b`.
pub open spec fn lacks(s: Seq<u8>, b: u8) -> bool {
    forall|i: int| 0 <= i < s.len() ==> s[i] != b
}

/// Drops everything before the first start marker; without one, `s` stays as it is.
pub open spec fn resync(s: Seq<u8>) -> Seq<u8> {
    let k = first_index(s, SENTENCE_START);
    if k < s.len() {
        s.skip(k)
    } else {
        s
    }
}

/// Cuts `s` after each line terminator: the complete lines in order, and what follows the last one.
pub open spec fn split_lines(s: Seq<u8>) -> (Seq<Seq<u8>>, Seq<u8>)
    decreases s.len(),
{
    let k = first_index(s, SENTENCE_END);
    if 0 <= k < s.len() {
        let t = split_lines(s.skip(k + 1));
        (seq![s.take(k + 1)] + t.0, t.1)
    } else {
        (Seq::empty(), s)
    }
}

/// One step of the reassembler: the sentences yielded and the bytes kept,
/// when `bytes` arrive while `pending` is buffered.
pub open spec fn feed(pending: Seq<u8>, bytes: Seq<u8>) -> (Seq<Seq<u8>>, Seq<u8>) {
    split_lines(resync(pending + bytes))
}

/// Feeding `chunks` one after another, starting with `pending` buffered:
/// all sentences yielded, in order, and the bytes kept at the end.
pub open spec fn feed_chunks(pending: Seq<u8>, chunks: Seq<Seq<u8>>) -> (Seq<Seq<u8>>, Seq<u8>)
    decreases chunks.len(),
{
    if chunks.len() == 0 {
        (Seq::empty(), pending)
    } else {
        let s = feed(pending, chunks[0]);
        let t = feed_chunks(s.1, chunks.drop_first());
        (s.0 + t.0, t.1)
    }
}

/// A run of sentences: empty, or opening with a start marker, and with a start
/// marker right after every line terminator but a final one.
pub open spec fn well_framed(body: Seq<u8>) -> bool {
    body.len() == 0 || (body[0] == SENTENCE_START && forall|i: int|
        0 <= i < body.len() - 1 && #[trigger] body[i] == SENTENCE_END ==> body[i + 1] == SENTENCE_START)
}

pub open spec fn byte_views(v: Seq<Vec<u8>>) -> Seq<Seq<u8>> {
    v.map_values(|l: Vec<u8>| l@)
}

pub(crate) proof fn lemma_first_index(s: Seq<u8>, b: u8)
    ensures
        0 <= first_index(s, b) <= s.len(),
        forall|j: int| 0 <= j < first_index(s, b) ==> s[j] != b,
        first_index(s, b) < s.len() ==> s[first_index(s, b)] == b,
    decreases s.len(),
{
    if s.len() > 0 && s[0] != b {
        lemma_first_index(s.drop_first(), b);
        assert forall|j: int| 0 <= j < first_index(s, b) implies s[j] != b by {
            if j > 0 {
                assert(s[j] == s.drop_first()[j - 1]);
            }
        }
    }
}

pub(crate) proof fn lemma_first_index_is(s: Seq<u8>, b: u8, k: int)
    requires
        0 <= k <= s.len(),
        forall|j: int| 0 <= j < k ==> s[j] != b,
        k < s.len() ==> s[k] == b,
    ensures
        first_index(s, b) == k,
    decreases s.len(),
{
    if s.len() > 0 && k > 0 {
        assert(s[0] != b);
        assert forall|j: int| 0 <= j < k - 1 implies s.drop_first()[j] != b by {
            assert(s.drop_first()[j] == s[j + 1]);
        }
        lemma_first_index_is(s.drop_first(), b, k - 1);
    }
}

proof fn lemma_split_without_end(s: Seq<u8>)
    requires
        lacks(s, SENTENCE_END),
    ensures
        split_lines(s).0 == Seq::<Seq<u8>>::empty(),
        split_lines(s).1 == s,
{
    lemma_first_index_is(s, SENTENCE_END, s.len() as int);
}

proof fn lemma_split_unfold(s: Seq<u8>, k: int)
    requires
        0 <= k < s.len(),
        s[k] == SENTENCE_END,
        forall|j: int| 0 <= j < k ==> s[j] != SENTENCE_END,
    ensures
        split_lines(s).0 == seq![s.take(k + 1)] + split_lines(s.skip(k + 1)).0,
        split_lines(s).1 == split_lines(s.skip(k + 1)).1,
{
    lemma_first_index_is(s, SENTENCE_END, k);
}

/// What is kept after splitting is a suffix of the input that holds no line
/// terminator and starts at the input's start or right after a terminator.
proof fn lemma_split_rest(s: Seq<u8>)
    ensures
        split_lines(s).1.len() <= s.len(),
        split_lines(s).1 =~= s.skip(s.len() - split_lines(s).1.len()),
        split_lines(s).1.len() == s.len() || s[s.len() - split_lines(s).1.len() - 1]
            == SENTENCE_END,
        lacks(split_lines(s).1, SENTENCE_END),
    decreases s.len(),
{
    lemma_first_index(s, SENTENCE_END);
    let k = first_index(s, SENTENCE_END);
    if k < s.len() {
        let t = s.skip(k + 1);
        lemma_split_rest(t);
        let r = split_lines(t).1;
        assert(s.skip(s.len() - r.len()) =~= t.skip(t.len() - r.len()));
        if r.len() == t.len() {
            assert(s[s.len() - r.len() - 1] == s[k]);
        } else {
            assert(s[s.len() - r.len() - 1] == t[t.len() - r.len() - 1]);
        }
    }
}

/// Splitting `a + b` is splitting `a`, then splitting what `a` left over together with `b`.
proof fn lemma_split_append(a: Seq<u8>, b: Seq<u8>)
    ensures
        split_lines(a + b).0 == split_lines(a).0 + split_lines(split_lines(a).1 + b).0,
        split_lines(a + b).1 == split_lines(split_lines(a).1 + b).1,
    decreases a.len(),
{
    lemma_first_index(a, SENTENCE_END);
    let k = first_index(a, SENTENCE_END);
    if k < a.len() {
        let ab = a + b;
        assert forall|j: int| 0 <= j < k implies ab[j] != SENTENCE_END by {
            assert(ab[j] == a[j]);
        }
        lemma_split_unfold(ab, k);
        assert(ab.take(k + 1) =~= a.take(k + 1));
        assert(ab.skip(k + 1) =~= a.skip(k + 1) + b);
        lemma_split_append(a.skip(k + 1), b);
        let t = split_lines(a.skip(k + 1));
        assert(seq![a.take(k + 1)] + (t.0 + split_lines(t.1 + b).0) =~= (seq![a.take(k + 1)]
            + t.0) + split_lines(t.1 + b).0);
    } else {
        assert(Seq::<Seq<u8>>::empty() + split_lines(a + b).0 =~= split_lines(a + b).0);
    }
}

proof fn lemma_resync_framed(s: Seq<u8>)
    requires
        well_framed(s),
    ensures
        resync(s) == s,
{
    if s.len() > 0 {
        lemma_first_index_is(s, SENTENCE_START, 0);
        assert(s.skip(0) =~= s);
    } else {
        lemma_first_index_is(s, SENTENCE_START, 0);
    }
}

/// One chunk fed into a buffer that holds the start of a noisy, well-framed stream.
proof fn lemma_feed_step(
    r: Seq<u8>,
    x: Seq<u8>,
    q: Seq<u8>,
    noise: Seq<u8>,
    body: Seq<u8>,
)
    requires
        lacks(r, SENTENCE_END),
        lacks(noise, SENTENCE_START),
        lacks(noise, SENTENCE_END),
        well_framed(body),
        (r + x) + q == noise + body,
    ensures
        lacks(feed(r, x).1, SENTENCE_END),
        split_lines(resync((r + x) + q)).0 == feed(r, x).0 + split_lines(resync(feed(r, x).1 + q)).0,
        split_lines(resync((r + x) + q)).1 == split_lines(resync(feed(r, x).1 + q)).1,
        resync(feed(r, x).1) == feed(r, x).1,
        feed(r, x).1 + q == noise + body || well_framed(feed(r, x).1 + q),
{
    let y0 = r + x;
    let z = y0 + q;
    let n = noise.len() as int;
    lemma_first_index(y0, SENTENCE_START);
    let m = first_index(y0, SENTENCE_START);
    if m < y0.len() {
        assert(z[m] == y0[m]);
        assert(y0[m] == SENTENCE_START);
        if m < n {
            assert((noise + body)[m] == noise[m]);
            assert(false);
        }
        assert(m >= n);
        assert(m < z.len());
        assert((noise + body)[m] == body[m - n]);
        assert(body.len() > 0);
        assert((noise + body)[n] == body[0]);
        assert(y0[n] == z[n]);
        assert forall|j: int| 0 <= j < n implies y0[j] != SENTENCE_START by {
            assert(y0[j] == z[j]);
            assert((noise + body)[j] == noise[j]);
        }
        lemma_first_index_is(y0, SENTENCE_START, n);
        assert forall|j: int| 0 <= j < n implies z[j] != SENTENCE_START by {
            assert((noise + body)[j] == noise[j]);
        }
        lemma_first_index_is(z, SENTENCE_START, n);
        let y = y0.skip(n);
        assert(resync(z) =~= body);
        assert(y + q =~= body);
        lemma_split_append(y, q);
        lemma_split_rest(y);
        let rest = split_lines(y).1;
        let j = y.len() - rest.len();
        assert(rest + q =~= body.skip(j));
        let tail = body.skip(j);
        if j > 0 && tail.len() > 0 {
            assert(body[j - 1] == y[j - 1]);
            assert(tail[0] == body[j]);
        }
        assert forall|i: int|
            0 <= i < tail.len() - 1 && #[trigger] tail[i] == SENTENCE_END implies tail[i + 1]
            == SENTENCE_START by {
            assert(tail[i] == body[i + j]);
            assert(tail[i + 1] == body[i + j + 1]);
        }
        lemma_resync_framed(tail);
        if rest.len() > 0 {
            assert(rest[0] == tail[0]);
            lemma_first_index_is(rest, SENTENCE_START, 0);
            assert(rest.skip(0) =~= rest);
        } else {
            lemma_first_index_is(rest, SENTENCE_START, 0);
        }
    } else {
        assert forall|i: int| 0 <= i < y0.len() implies y0[i] != SENTENCE_END by {
            assert(y0[i] == z[i]);
            if i < n {
                assert((noise + body)[i] == noise[i]);
            } else {
                assert((noise + body)[n] == body[0]);
                assert(y0[n] == z[n]);
            }
        }
        lemma_split_without_end(y0);
        assert(Seq::<Seq<u8>>::empty() + split_lines(resync(z)).0 =~= split_lines(resync(z)).0);
    }
}

proof fn lemma_feed_chunks(r: Seq<u8>, chunks: Seq<Seq<u8>>, noise: Seq<u8>, body: Seq<u8>)
    requires
        lacks(r, SENTENCE_END),
        resync(r) == r,
        lacks(noise, SENTENCE_START),
        lacks(noise, SENTENCE_END),
        well_framed(body),
        r + chunks.flatten() == noise + body,
    ensures
        feed_chunks(r, chunks).0 == split_lines(resync(r + chunks.flatten())).0,
        feed_chunks(r, chunks).1 == split_lines(resync(r + chunks.flatten())).1,
    decreases chunks.len(),
{
    if chunks.len() == 0 {
        assert(r + chunks.flatten() =~= r);
        lemma_split_without_end(r);
    } else {
        let x = chunks[0];
        let rest = chunks.drop_first();
        let q = rest.flatten();
        assert(r + chunks.flatten() =~= (r + x) + q);
        lemma_feed_step(r, x, q, noise, body);
        let r2 = feed(r, x).1;
        if r2 + q == noise + body {
            lemma_feed_chunks(r2, rest, noise, body);
        } else {
            assert(Seq::<u8>::empty() + (r2 + q) =~= r2 + q);
            lemma_feed_chunks(r2, rest, Seq::empty(), r2 + q);
        }
    }
}

/// Feeding a stream in chunks of any sizes yields the same sentences, in the same
/// order, and leaves the same bytes buffered, as feeding it whole, when the stream
/// is noise free of start markers and line terminators followed by a well-framed
/// run of sentences (a partial last sentence included).
pub proof fn lemma_chunking_preserves_sentences(
    noise: Seq<u8>,
    body: Seq<u8>,
    chunks: Seq<Seq<u8>>,
)
    requires
        lacks(noise, SENTENCE_START),
        lacks(noise, SENTENCE_END),
        well_framed(body),
        chunks.flatten() == noise + body,
    ensures
        feed_chunks(Seq::empty(), chunks).0 == feed(Seq::empty(), noise + body).0,
        feed_chunks(Seq::empty(), chunks).1 == feed(Seq::empty(), noise + body).1,
{
    lemma_first_index_is(Seq::<u8>::empty(), SENTENCE_START, 0);
    assert(Seq::<u8>::empty() + chunks.flatten() =~= chunks.flatten());
    assert(Seq::<u8>::empty() + (noise + body) =~= noise + body);
    lemma_feed_chunks(Seq::empty(), chunks, noise, body);
}

/// Recovers complete `$`-started, `\n`-terminated sentences from a byte stream
/// that arrives in arbitrary fragments.
pub struct Reassembler {
    buffer: Vec<u8>,
}

impl View for Reassembler {
    type V = Seq<u8>;

    /// The bytes held back for sentences that are not complete yet.
    closed spec fn view(&self) -> Seq<u8> {
        self.buffer@
    }
}

/// Index of the first `b` in `v` at or after `from`, or `v.len()` when there is none.
pub(crate) fn find_byte(v: &Vec<u8>, from: usize, b: u8) -> (k: usize)
    requires
        from <= v.len(),
    ensures
        from <= k <= v.len(),
        forall|j: int| from <= j < k ==> v@[j] != b,
        k < v.len() ==> v@[k as int] == b,
{
    let mut k: usize = from;
    while k < v.len()
        invariant_except_break
            from <= k <= v.len(),
            forall|j: int| from <= j < k ==> v@[j] != b,
        ensures
            from <= k <= v.len(),
            forall|j: int| from <= j < k ==> v@[j] != b,
            k < v.len() ==> v@[k as int] == b,
        decreases v.len() - k,
    {
        if v[k] == b {
            break;
        }
        k = k + 1;
    }
    k
}

/// A copy of `v[lo..hi]`.
pub(crate) fn copy_range(v: &Vec<u8>, lo: usize, hi: usize) -> (r: Vec<u8>)
    requires
        lo <= hi <= v.len(),
    ensures
        r@ == v@.subrange(lo as int, hi as int),
{
    let mut r: Vec<u8> = Vec::new();
    let mut i: usize = lo;
    while i < hi
        invariant
            lo <= i <= hi <= v.len(),
            r@ == v@.subrange(lo as int, i as int),
        decreases hi - i,
    {
        r.push(v[i]);
        i = i + 1;
        proof {
            assert(r@ =~= v@.subrange(lo as int, i as int));
        }
    }
    r
}

impl Reassembler {
    /// A reassembler with nothing buffered.
    pub fn new() -> (r: Reassembler)
        ensures
            r@ == Seq::<u8>::empty(),
    {
        Reassembler { buffer: Vec::new() }
    }

    /// The bytes held back for a sentence that is not complete yet.
    pub fn pending(&self) -> (r: &Vec<u8>)
        ensures
            r@ == self@,
    {
        &self.buffer
    }

    /// Appends `bytes`, drops what precedes the first start marker, and yields each
    /// complete sentence (terminator included) in order; the rest stays buffered.
    pub fn push(&mut self, bytes: &[u8]) -> (sentences: Vec<Vec<u8>>)
        ensures
            byte_views(sentences@) == feed(old(self)@, bytes@).0,
            final(self)@ == feed(old(self)@, bytes@).1,
    {
        let ghost before = self.buffer@;
        let mut joined: Vec<u8> = copy_range(&self.buffer, 0, self.buffer.len());
        let mut i: usize = 0;
        while i < bytes.len()
            invariant
                i <= bytes.len(),
                joined@ == before + bytes@.take(i as int),
            decreases bytes.len() - i,
        {
            joined.push(bytes[i]);
            i = i + 1;
            proof {
                assert(joined@ =~= before + bytes@.take(i as int));
            }
        }
        proof {
            assert(bytes@.take(bytes@.len() as int) =~= bytes@);
            assert(before.subrange(0, before.len() as int) =~= before);
        }
        let ghost y0 = joined@;
        let found = find_byte(&joined, 0, SENTENCE_START);
        proof {
            lemma_first_index_is(y0, SENTENCE_START, found as int);
        }
        let start: usize = if found < joined.len() { found } else { 0 };
        let ghost y = resync(y0);
        proof {
            assert(y =~= y0.skip(start as int));
        }
        let mut out: Vec<Vec<u8>> = Vec::new();
        let mut c: usize = start;
        loop
            invariant_except_break
                start <= c <= joined.len(),
                joined@ == y0,
                y == y0.skip(start as int),
                byte_views(out@) + split_lines(y0.skip(c as int)).0 == split_lines(y).0,
                split_lines(y0.skip(c as int)).1 == split_lines(y).1,
            ensures
                start <= c <= joined.len(),
                joined@ == y0,
                byte_views(out@) == split_lines(y).0,
                y0.skip(c as int) == split_lines(y).1,
            decreases joined.len() - c,
        {
            let k = find_byte(&joined, c, SENTENCE_END);
            let ghost ys = y0.skip(c as int);
            if k >= joined.len() {
                proof {
                    assert forall|j: int| 0 <= j < ys.len() implies ys[j] != SENTENCE_END by {
                        assert(ys[j] == y0[c + j]);
                    }
                    lemma_split_without_end(ys);
                    assert(byte_views(out@) + Seq::<Seq<u8>>::empty() =~= byte_views(out@));
                }
                break;
            }
            let line = copy_range(&joined, c, k + 1);
            proof {
                assert forall|j: int| 0 <= j < k - c implies ys[j] != SENTENCE_END by {
                    assert(ys[j] == y0[c + j]);
                }
                assert(ys[k - c] == y0[k as int]);
                lemma_split_unfold(ys, k - c);
                assert(ys.take(k - c + 1) =~= line@);
                assert(ys.skip(k - c + 1) =~= y0.skip(k + 1));
            }
            let ghost prev = out@;
            out.push(line);
            proof {
                assert(byte_views(out@) =~= byte_views(prev) + seq![line@]);
                let t = split_lines(y0.skip(k + 1));
                assert(byte_views(prev) + (seq![line@] + t.0) =~= (byte_views(prev) + seq![
                    line@
                ]) + t.0);
            }
            c = k + 1;
        }
        let rest = copy_range(&joined, c, joined.len());
        proof {
            assert(rest@ =~= y0.skip(c as int));
        }
        self.buffer = rest;
        out
    }
}

} // verus!
