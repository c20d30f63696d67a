//! Fixed-size on-disk records and reading runs of them.

use vstd::prelude::*;

use crate::error::VolitionError;

verus! {

/// Outcome of reading a part of a buffer from an offset: the value and the offset after
/// it, or the error and the offset at which reading stopped.
pub type Step<T> = Result<(T, int), (VolitionError, int)>;

/// A record with a fixed size on disk.
pub trait Record: Sized {
    /// Its size in bytes.
    spec fn spec_size() -> nat;

    /// What reading exactly `spec_size()` bytes gives.
    spec fn spec_from_bytes(b: Seq<u8>) -> Result<Self, VolitionError>;

    /// The bytes written for the record.
    spec fn spec_bytes(self) -> Seq<u8>;

    /// Appends the record's bytes to `out`.
    fn write_to(&self, out: &mut Vec<u8>)
        ensures
            final(out)@ == old(out)@ + self.spec_bytes(),
    ;

    /// Every record is written as exactly `spec_size()` bytes.
    proof fn lemma_bytes_len(self)
        ensures
            self.spec_bytes().len() == Self::spec_size(),
    ;

    /// The records that reading accepts.
    spec fn accepted(self) -> bool;

    /// Reading back the bytes of an accepted record gives the record.
    proof fn lemma_bytes_read_back(self)
        requires
            self.accepted(),
        ensures
            Self::spec_from_bytes(self.spec_bytes()) == Ok::<Self, VolitionError>(self),
    ;

    /// Writing the record that reading `b` gives gives `b` back.
    proof fn lemma_read_bytes_back(b: Seq<u8>)
        requires
            b.len() == Self::spec_size(),
            Self::spec_from_bytes(b) is Ok,
        ensures
            Self::spec_from_bytes(b).unwrap().spec_bytes() == b,
    ;

    /// Its size in bytes.
    fn size() -> (r: usize)
        ensures
            r == Self::spec_size(),
    ;

    /// Reads the record at `buf[off..]`.
    fn read_at(buf: &[u8], off: usize) -> (r: Result<Self, VolitionError>)
        ensures
            off > buf@.len() ==> r == Err::<Self, VolitionError>(
                VolitionError::OutOfBounds { offset: off, len: buf@.len() as usize },
            ),
            off <= buf@.len() < off + Self::spec_size() ==> r == Err::<Self, VolitionError>(
                VolitionError::BufferTooSmall {
                    needed: Self::spec_size() as usize,
                    got: (buf@.len() - off) as usize,
                },
            ),
            off + Self::spec_size() <= buf@.len() ==> r == Self::spec_from_bytes(
                buf@.subrange(off as int, off + Self::spec_size()),
            ),
    ;
}

/// Reading a record at `off`: an offset past the end is out of bounds, a tail shorter than
/// the record is too small, otherwise the record's bytes are read.
pub open spec fn spec_record_at<R: Record>(buf: Seq<u8>, off: int) -> Result<R, VolitionError> {
    if off > buf.len() {
        Err(VolitionError::OutOfBounds { offset: off as usize, len: buf.len() as usize })
    } else if buf.len() - off < R::spec_size() {
        Err(
            VolitionError::BufferTooSmall {
                needed: R::spec_size() as usize,
                got: (buf.len() - off) as usize,
            },
        )
    } else {
        R::spec_from_bytes(buf.subrange(off, off + R::spec_size()))
    }
}

/// Reading `count` more records back to back from `off`, after the records `acc`.
pub open spec fn spec_read_run<R: Record>(buf: Seq<u8>, off: int, count: nat, acc: Seq<R>) -> Step<
    Seq<R>,
>
    decreases count,
{
    if count == 0 {
        Ok((acc, off))
    } else {
        match spec_record_at::<R>(buf, off) {
            Err(e) => Err((e, off)),
            Ok(r) => spec_read_run(buf, off + R::spec_size(), (count - 1) as nat, acc.push(r)),
        }
    }
}

/// Reads `count` records back to back starting at `*off`, advancing `*off` past each
/// record read; on an error `*off` is the offset of the record that failed.
pub fn read_run<R: Record>(buf: &[u8], off: &mut usize, count: usize) -> (r: Result<
    Vec<R>,
    VolitionError,
>)
    ensures
        match spec_read_run::<R>(buf@, *old(off) as int, count as nat, Seq::empty()) {
            Ok((v, o)) => r is Ok && r->Ok_0@ == v && *final(off) == o,
            Err((e, o)) => r == Err::<Vec<R>, VolitionError>(e) && *final(off) == o,
        },
{
    let mut out: Vec<R> = Vec::new();
    let mut i: usize = 0;
    while i < count
        invariant
            i <= count,
            spec_read_run::<R>(buf@, *old(off) as int, count as nat, Seq::empty())
                == spec_read_run::<R>(buf@, *off as int, (count - i) as nat, out@),
        decreases count - i,
    {
        let rd = R::read_at(buf, *off);
        assert(rd == spec_record_at::<R>(buf@, *off as int));
        match rd {
            Err(e) => {
                return Err(e);
            },
            Ok(rec) => {
                assert(*off + R::spec_size() <= buf@.len());
                assert(buf@.len() == buf.len());
                out.push(rec);
                *off = *off + R::size();
            },
        }
        i = i + 1;
    }
    Ok(out)
}


/// The concatenation of `f` applied to each element of `s`, in order.
pub open spec fn concat_bytes<T>(s: Seq<T>, f: spec_fn(T) -> Seq<u8>) -> Seq<u8>
    decreases s.len(),
{
    if s.len() == 0 {
        Seq::empty()
    } else {
        concat_bytes(s.drop_last(), f) + f(s.last())
    }
}

/// The bytes of the records `s`, back to back.
pub open spec fn records_bytes<R: Record>(s: Seq<R>) -> Seq<u8> {
    concat_bytes(s, |r: R| r.spec_bytes())
}

/// Appending one more element's bytes extends the concatenation.
pub proof fn lemma_concat_bytes_push<T>(s: Seq<T>, f: spec_fn(T) -> Seq<u8>, x: T)
    ensures
        concat_bytes(s.push(x), f) == concat_bytes(s, f) + f(x),
{
    assert(s.push(x).drop_last() =~= s);
}

/// The records `s` take `s.len()` times the record size.
pub proof fn lemma_records_bytes_len<R: Record>(s: Seq<R>)
    ensures
        records_bytes(s).len() == s.len() * R::spec_size(),
    decreases s.len(),
{
    if s.len() > 0 {
        lemma_records_bytes_len(s.drop_last());
        s.last().lemma_bytes_len();
        assert((s.len() - 1) * R::spec_size() + R::spec_size() == s.len() * R::spec_size())
            by (nonlinear_arith);
    }
}

/// Appends the bytes of every record in `items`, in order.
pub fn write_run<R: Record>(out: &mut Vec<u8>, items: &Vec<R>)
    ensures
        final(out)@ == old(out)@ + records_bytes(items@),
{
    let mut i: usize = 0;
    while i < items.len()
        invariant
            i <= items@.len(),
            out@ == old(out)@ + records_bytes(items@.take(i as int)),
        decreases items@.len() - i,
    {
        let ghost before = out@;
        items[i].write_to(out);
        proof {
            lemma_concat_bytes_push(items@.take(i as int), |r: R| r.spec_bytes(), items@[i as int]);
            assert(items@.take(i as int).push(items@[i as int]) =~= items@.take(i + 1));
        }
        assert(out@ =~= old(out)@ + records_bytes(items@.take(i + 1)));
        i = i + 1;
    }
    assert(items@.take(items@.len() as int) =~= items@);
}

/// A run of records that reads without error ends inside the buffer.
pub proof fn lemma_read_run_within<R: Record>(buf: Seq<u8>, off: int, count: nat, acc: Seq<R>)
    requires
        0 <= off,
    ensures
        spec_read_run::<R>(buf, off, count, acc) matches Ok((v, o)) ==> {
            &&& off <= o
            &&& (o <= buf.len() || o == off)
            &&& v.len() == acc.len() + count
        },
    decreases count,
{
    if count > 0 {
        if let Ok(r) = spec_record_at::<R>(buf, off) {
            lemma_read_run_within::<R>(buf, off + R::spec_size(), (count - 1) as nat, acc.push(r));
        }
    }
}


/// `buf` holds the bytes `x` from offset `off` on.
pub open spec fn bytes_at(buf: Seq<u8>, off: int, x: Seq<u8>) -> bool {
    &&& 0 <= off
    &&& off + x.len() <= buf.len()
    &&& buf.subrange(off, off + x.len()) == x
}

/// Holding `x + y` is holding `x` and then `y`.
pub proof fn lemma_bytes_at_split(buf: Seq<u8>, off: int, x: Seq<u8>, y: Seq<u8>)
    requires
        bytes_at(buf, off, x + y),
    ensures
        bytes_at(buf, off, x),
        bytes_at(buf, off + x.len(), y),
{
    let whole = buf.subrange(off, off + x.len() + y.len());
    assert forall|k: int| 0 <= k < x.len() implies buf.subrange(off, off + x.len())[k] == x[k] by {
        assert(whole[k] == (x + y)[k]);
    }
    assert forall|k: int| 0 <= k < y.len() implies buf.subrange(
        off + x.len(),
        off + x.len() + y.len(),
    )[k] == y[k] by {
        assert(whole[x.len() + k] == (x + y)[x.len() + k]);
    }
    assert(buf.subrange(off, off + x.len()) =~= x);
    assert(buf.subrange(off + x.len(), off + x.len() + y.len()) =~= y);
}

/// Holding `x` is holding each of its prefixes.
pub proof fn lemma_bytes_at_take(buf: Seq<u8>, off: int, x: Seq<u8>, j: int)
    requires
        bytes_at(buf, off, x),
        0 <= j <= x.len(),
    ensures
        bytes_at(buf, off, x.take(j)),
{
    assert(x =~= x.take(j) + x.skip(j));
    lemma_bytes_at_split(buf, off, x.take(j), x.skip(j));
}

/// An accepted record whose bytes the buffer holds at `off` is read there.
pub proof fn lemma_record_at_of<R: Record>(buf: Seq<u8>, off: int, r: R)
    requires
        bytes_at(buf, off, r.spec_bytes()),
        r.accepted(),
    ensures
        spec_record_at::<R>(buf, off) == Ok::<R, VolitionError>(r),
{
    r.lemma_bytes_len();
    r.lemma_bytes_read_back();
}

/// Pieces of `size` bytes each, concatenated: the `k`-th one starts `k * size` bytes in.
pub proof fn lemma_concat_bytes_at<T>(
    buf: Seq<u8>,
    off: int,
    s: Seq<T>,
    f: spec_fn(T) -> Seq<u8>,
    size: nat,
    k: int,
)
    requires
        bytes_at(buf, off, concat_bytes(s, f)),
        forall|i: int| 0 <= i < s.len() ==> (#[trigger] f(s[i])).len() == size,
        0 <= k < s.len(),
    ensures
        bytes_at(buf, off + k * size, f(s[k])),
        concat_bytes(s, f).len() == s.len() * size,
    decreases s.len(),
{
    let n = s.len() - 1;
    assert(f(s[n]).len() == size);
    lemma_bytes_at_split(buf, off, concat_bytes(s.drop_last(), f), f(s.last()));
    if k < n {
        assert forall|i: int| 0 <= i < s.drop_last().len() implies (#[trigger] f(
            s.drop_last()[i],
        )).len() == size by {
            assert(s.drop_last()[i] == s[i]);
        }
        lemma_concat_bytes_at(buf, off, s.drop_last(), f, size, k);
    } else if n > 0 {
        assert forall|i: int| 0 <= i < s.drop_last().len() implies (#[trigger] f(
            s.drop_last()[i],
        )).len() == size by {
            assert(s.drop_last()[i] == s[i]);
        }
        lemma_concat_bytes_at(buf, off, s.drop_last(), f, size, 0);
    }
    assert(n * size + size == s.len() * size) by (nonlinear_arith)
        requires
            n == s.len() - 1,
    ;
}

/// The records `s`, all accepted, held at `off`: reading `s.len()` records from the `k`-th
/// on, after the first `k`, gives all of `s` and ends past their bytes.
proof fn lemma_read_run_from<R: Record>(buf: Seq<u8>, off: int, s: Seq<R>, k: int)
    requires
        bytes_at(buf, off, records_bytes(s)),
        forall|i: int| 0 <= i < s.len() ==> (#[trigger] s[i]).accepted(),
        0 <= k <= s.len(),
    ensures
        spec_read_run::<R>(buf, off + k * R::spec_size(), (s.len() - k) as nat, s.take(k))
            == Ok::<(Seq<R>, int), (VolitionError, int)>((s, off + records_bytes(s).len())),
    decreases s.len() - k,
{
    let f = |r: R| r.spec_bytes();
    assert forall|i: int| 0 <= i < s.len() implies (#[trigger] f(s[i])).len() == R::spec_size() by {
        s[i].lemma_bytes_len();
    }
    if s.len() > 0 {
        lemma_concat_bytes_at(buf, off, s, f, R::spec_size(), 0);
    }
    lemma_records_bytes_len(s);
    if k == s.len() {
        assert(s.take(k) =~= s);
    } else {
        lemma_concat_bytes_at(buf, off, s, f, R::spec_size(), k);
        lemma_record_at_of(buf, off + k * R::spec_size(), s[k]);
        lemma_read_run_from(buf, off, s, k + 1);
        assert(s.take(k).push(s[k]) =~= s.take(k + 1));
        assert(off + k * R::spec_size() + R::spec_size() == off + (k + 1) * R::spec_size())
            by (nonlinear_arith);
    }
}

/// Reading back the bytes of accepted records gives the records and ends past their bytes.
pub proof fn lemma_read_run_of<R: Record>(buf: Seq<u8>, off: int, s: Seq<R>)
    requires
        bytes_at(buf, off, records_bytes(s)),
        forall|i: int| 0 <= i < s.len() ==> (#[trigger] s[i]).accepted(),
    ensures
        spec_read_run::<R>(buf, off, s.len(), Seq::empty()) == Ok::<
            (Seq<R>, int),
            (VolitionError, int),
        >((s, off + records_bytes(s).len())),
{
    lemma_read_run_from(buf, off, s, 0);
    assert(s.take(0) =~= Seq::<R>::empty());
}

/// Two sequences whose elements give the same bytes, one for one, give the same bytes.
pub proof fn lemma_concat_bytes_congruent<T, U>(
    s: Seq<T>,
    f: spec_fn(T) -> Seq<u8>,
    t: Seq<U>,
    g: spec_fn(U) -> Seq<u8>,
)
    requires
        s.len() == t.len(),
        forall|i: int| 0 <= i < s.len() ==> #[trigger] f(s[i]) == g(t[i]),
    ensures
        concat_bytes(s, f) == concat_bytes(t, g),
    decreases s.len(),
{
    if s.len() > 0 {
        assert forall|i: int| 0 <= i < s.drop_last().len() implies #[trigger] f(s.drop_last()[i])
            == g(t.drop_last()[i]) by {
            assert(s.drop_last()[i] == s[i]);
            assert(t.drop_last()[i] == t[i]);
            assert(f(s[i]) == g(t[i]));
        }
        lemma_concat_bytes_congruent(s.drop_last(), f, t.drop_last(), g);
        assert(f(s[s.len() - 1]) == g(t[t.len() - 1]));
    }
}


/// The concatenation starts with the bytes of the first element.
pub proof fn lemma_concat_bytes_first<T>(s: Seq<T>, f: spec_fn(T) -> Seq<u8>)
    requires
        s.len() > 0,
    ensures
        concat_bytes(s, f) == f(s[0]) + concat_bytes(s.drop_first(), f),
    decreases s.len(),
{
    if s.len() == 1 {
        assert(s.drop_last() =~= Seq::<T>::empty());
        assert(s.drop_first() =~= Seq::<T>::empty());
        assert(concat_bytes(s, f) =~= f(s[0]) + concat_bytes(s.drop_first(), f));
    } else {
        lemma_concat_bytes_first(s.drop_last(), f);
        assert(s.drop_last().drop_first() =~= s.drop_first().drop_last());
        assert(s.drop_first().last() == s.last());
        assert(s.drop_last()[0] == s[0]);
        assert(concat_bytes(s, f) =~= f(s[0]) + concat_bytes(s.drop_first(), f));
    }
}


/// Holding `x` and then `y` is holding `x + y`.
pub proof fn lemma_bytes_at_concat(buf: Seq<u8>, off: int, x: Seq<u8>, y: Seq<u8>)
    requires
        bytes_at(buf, off, x),
        bytes_at(buf, off + x.len(), y),
    ensures
        bytes_at(buf, off, x + y),
{
    assert forall|k: int| 0 <= k < x.len() + y.len() implies buf.subrange(
        off,
        off + x.len() + y.len(),
    )[k] == (x + y)[k] by {
        if k < x.len() {
            assert(buf.subrange(off, off + x.len())[k] == x[k]);
        } else {
            assert(buf.subrange(off + x.len(), off + x.len() + y.len())[k - x.len()] == y[k
                - x.len()]);
        }
    }
    assert(buf.subrange(off, off + x.len() + y.len()) =~= x + y);
}

/// A record that reading accepts at `off`: the buffer holds its bytes there.
pub proof fn lemma_bytes_of_record_at<R: Record>(buf: Seq<u8>, off: int)
    requires
        0 <= off,
        spec_record_at::<R>(buf, off) is Ok,
    ensures
        bytes_at(buf, off, spec_record_at::<R>(buf, off)->Ok_0.spec_bytes()),
        spec_record_at::<R>(buf, off)->Ok_0.spec_bytes().len() == R::spec_size(),
{
    R::lemma_read_bytes_back(buf.subrange(off, off + R::spec_size()));
}

/// Records that reading accepts back to back after those in `acc`: the result extends `acc`
/// by `count` records, whose bytes the buffer holds from `off` to the offset reading ends at.
pub proof fn lemma_bytes_of_read_run<R: Record>(buf: Seq<u8>, off: int, count: nat, acc: Seq<R>)
    requires
        0 <= off <= buf.len(),
        spec_read_run::<R>(buf, off, count, acc) is Ok,
    ensures
        ({
            let (v, o) = spec_read_run::<R>(buf, off, count, acc)->Ok_0;
            &&& v.len() == acc.len() + count
            &&& v.take(acc.len() as int) == acc
            &&& bytes_at(buf, off, records_bytes(v.skip(acc.len() as int)))
            &&& o == off + records_bytes(v.skip(acc.len() as int)).len()
        }),
    decreases count,
{
    let (v, o) = spec_read_run::<R>(buf, off, count, acc)->Ok_0;
    if count == 0 {
        assert(v.take(acc.len() as int) =~= acc);
        assert(v.skip(acc.len() as int) =~= Seq::<R>::empty());
        assert(buf.subrange(off, off) =~= Seq::<u8>::empty());
    } else {
        let r = spec_record_at::<R>(buf, off)->Ok_0;
        lemma_bytes_of_record_at::<R>(buf, off);
        r.lemma_bytes_len();
        lemma_bytes_of_read_run::<R>(buf, off + R::spec_size(), (count - 1) as nat, acc.push(r));
        let a = acc.len() as int;
        assert(v.take(a) =~= v.take(a + 1).take(a));
        assert(v[a] == v.take(a + 1)[a]);
        let rest = v.skip(a);
        assert(rest.drop_first() =~= v.skip(a + 1));
        assert(rest[0] == v[a]);
        lemma_concat_bytes_first(rest, |x: R| x.spec_bytes());
        lemma_bytes_at_concat(buf, off, r.spec_bytes(), records_bytes(v.skip(a + 1)));
    }
}


/// Each piece held where the pieces before it end: the buffer holds their concatenation.
pub proof fn lemma_concat_bytes_of_pointwise<T>(
    buf: Seq<u8>,
    off: int,
    s: Seq<T>,
    f: spec_fn(T) -> Seq<u8>,
    size: nat,
)
    requires
        0 <= off <= buf.len(),
        forall|i: int|
            0 <= i < s.len() ==> (#[trigger] f(s[i])).len() == size && bytes_at(
                buf,
                off + i * size,
                f(s[i]),
            ),
    ensures
        bytes_at(buf, off, concat_bytes(s, f)),
        concat_bytes(s, f).len() == s.len() * size,
    decreases s.len(),
{
    if s.len() == 0 {
        assert(buf.subrange(off, off) =~= Seq::<u8>::empty());
    } else {
        let n = s.len() - 1;
        let prev = s.drop_last();
        assert forall|i: int| 0 <= i < prev.len() implies (#[trigger] f(prev[i])).len() == size
            && bytes_at(buf, off + i * size, f(prev[i])) by {
            assert(prev[i] == s[i]);
        }
        lemma_concat_bytes_of_pointwise(buf, off, prev, f, size);
        assert(f(s[n]).len() == size);
        assert(n * size + size == s.len() * size) by (nonlinear_arith)
            requires
                n == s.len() - 1,
        ;
        lemma_bytes_at_concat(buf, off, concat_bytes(prev, f), f(s.last()));
    }
}

} // verus!
