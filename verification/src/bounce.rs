//! Bounce-buffer adapter: wraps a byte source or sink so transfers go
//! through a heap-owned staging buffer, split into bounded chunks when
//! the buffer has a fixed capacity.

use vstd::prelude::*;

verus! {

/// Error raised by volatile transfers.
#[derive(Debug, PartialEq, Eq)]
pub enum VolatileMemoryError {
    /// The underlying source or sink failed with the given `errno`.
    IoError(i32),
    /// Fewer bytes than requested could be transferred.
    PartialBuffer {
        /// How many bytes were asked for.
        expected: usize,
        /// How many bytes were transferred.
        completed: usize,
    },
}

/// A source of bytes for volatile transfers into guest memory.  A read
/// hands out a prefix of the bytes the source still holds, possibly
/// shorter than asked for; on an error some prefix may already have
/// been consumed.
pub trait ReadVolatile: Sized {
    /// The bytes the source will produce, in order.
    spec fn spec_remaining(&self) -> Seq<u8>;

    /// Reads up to `count` bytes.
    fn read_volatile(&mut self, count: usize) -> (r: Result<Vec<u8>, VolatileMemoryError>)
        ensures
            match r {
                Ok(v) => {
                    &&& v@.len() <= count
                    &&& v@.len() <= old(self).spec_remaining().len()
                    &&& v@ == old(self).spec_remaining().take(v@.len() as int)
                    &&& final(self).spec_remaining() == old(self).spec_remaining().skip(
                        v@.len() as int,
                    )
                },
                Err(_) => exists|n: int|
                    0 <= n <= old(self).spec_remaining().len() && final(self).spec_remaining()
                        == #[trigger] old(self).spec_remaining().skip(n),
            },
    ;
}

/// A sink of bytes for volatile transfers out of guest memory.  A
/// write consumes a prefix of the supplied bytes, possibly shorter
/// than supplied; on an error some prefix may already have been taken.
pub trait WriteVolatile: Sized {
    /// The bytes the sink has taken so far, in order.
    spec fn spec_sunk(&self) -> Seq<u8>;

    /// Writes a prefix of `buf`.
    fn write_volatile(&mut self, buf: &[u8]) -> (r: Result<usize, VolatileMemoryError>)
        ensures
            match r {
                Ok(n) => n <= buf@.len() && final(self).spec_sunk() == old(self).spec_sunk()
                    + buf@.take(n as int),
                Err(_) => exists|n: int|
                    0 <= n <= buf@.len() && final(self).spec_sunk() == old(self).spec_sunk()
                        + #[trigger] buf@.take(n),
            },
    ;
}

/// Reads exactly `count` bytes, looping over short reads; a source
/// that runs out first fails with `PartialBuffer`.
pub fn read_exact_volatile<R: ReadVolatile>(source: &mut R, count: usize) -> (r: Result<
    Vec<u8>,
    VolatileMemoryError,
>)
    ensures
        match r {
            Ok(v) => {
                &&& v@.len() == count
                &&& count <= old(source).spec_remaining().len()
                &&& v@ == old(source).spec_remaining().take(count as int)
                &&& final(source).spec_remaining() == old(source).spec_remaining().skip(
                    count as int,
                )
            },
            Err(_) => exists|n: int|
                0 <= n <= old(source).spec_remaining().len() && final(source).spec_remaining()
                    == #[trigger] old(source).spec_remaining().skip(n),
        },
{
    let mut acc: Vec<u8> = Vec::new();
    loop
        invariant
            acc@.len() <= count,
            acc@.len() <= old(source).spec_remaining().len(),
            acc@ == old(source).spec_remaining().take(acc@.len() as int),
            source.spec_remaining() == old(source).spec_remaining().skip(acc@.len() as int),
        decreases count - acc@.len(),
    {
        if acc.len() == count {
            return Ok(acc);
        }
        let want: usize = count - acc.len();
        let ghost before = source.spec_remaining();
        let ghost done: int = acc@.len() as int;
        match source.read_volatile(want) {
            Ok(mut chunk) => {
                if chunk.len() == 0 {
                    proof {
                        assert(source.spec_remaining() == old(source).spec_remaining().skip(
                            acc@.len() as int,
                        ));
                    }
                    return Err(
                        VolatileMemoryError::PartialBuffer { expected: count, completed: acc.len() },
                    );
                }
                let ghost got: int = chunk@.len() as int;
                acc.append(&mut chunk);
                proof {
                    let orig = old(source).spec_remaining();
                    assert(acc@ =~= orig.take(done + got));
                    assert(source.spec_remaining() =~= orig.skip(done + got));
                }
            },
            Err(e) => {
                proof {
                    let orig = old(source).spec_remaining();
                    let n = choose|n: int|
                        0 <= n <= before.len() && source.spec_remaining() == #[trigger] before.skip(
                            n,
                        );
                    assert(source.spec_remaining() =~= orig.skip(done + n));
                }
                return Err(e);
            },
        }
    }
}

/// Wraps a byte source or sink; once activated, transfers are staged
/// through a heap-owned bounce buffer, and with a fixed capacity `N`
/// larger transfers are split into chained chunks of at most `N`
/// bytes.  With `N == 0` the staging buffer is sized per request.
pub struct MaybeBounce<T, const N: usize> {
    target: T,
    persistent_buffer: Option<Vec<u8>>,
}

impl<T, const N: usize> MaybeBounce<T, N> {
    /// The wrapped source or sink.
    pub closed spec fn spec_target(&self) -> T {
        self.target
    }

    /// The staging buffer, when present, has the declared capacity.
    pub closed spec fn wf(&self) -> bool {
        match self.persistent_buffer {
            Some(b) => b@.len() == N,
            None => true,
        }
    }

    /// Whether transfers go through the staging buffer.
    pub closed spec fn spec_bouncing(&self) -> bool {
        self.persistent_buffer is Some
    }

    /// Creates a `MaybeBounce` with a persistent staging buffer of
    /// capacity `N`, allocated only when `should_bounce` asks for it.
    pub fn new_persistent(target: T, should_bounce: bool) -> (r: MaybeBounce<T, N>)
        ensures
            r.wf(),
            r.spec_target() == target,
            r.spec_bouncing() == should_bounce,
    {
        let mut bounce: MaybeBounce<T, N> = MaybeBounce { target, persistent_buffer: None };
        if should_bounce {
            bounce.activate();
        }
        bounce
    }

    /// Hands back the wrapped source or sink.
    pub fn into_target(self) -> (r: T)
        ensures
            r == self.spec_target(),
    {
        let MaybeBounce { target, persistent_buffer } = self;
        target
    }

    /// Starts staging transfers through a bounce buffer, allocating it
    /// here; before the first call no buffer exists.
    pub fn activate(&mut self)
        ensures
            final(self).wf(),
            final(self).spec_bouncing(),
            final(self).spec_target() == old(self).spec_target(),
    {
        let mut buffer: Vec<u8> = Vec::new();
        let mut i: usize = 0;
        while i < N
            invariant
                i <= N,
                buffer@.len() == i,
            decreases N - i,
        {
            buffer.push(0u8);
            i = i + 1;
        }
        self.persistent_buffer = Some(buffer);
    }
}

impl<T> MaybeBounce<T, 0> {
    /// Creates a `MaybeBounce` whose staging buffer, when bouncing, is
    /// sized per request.
    pub fn new(target: T, should_bounce: bool) -> (r: MaybeBounce<T, 0>)
        ensures
            r.wf(),
            r.spec_target() == target,
            r.spec_bouncing() == should_bounce,
    {
        MaybeBounce::new_persistent(target, should_bounce)
    }
}

impl<T: ReadVolatile, const N: usize> ReadVolatile for MaybeBounce<T, N> {
    /// The adapter produces exactly what its target still holds.
    open spec fn spec_remaining(&self) -> Seq<u8> {
        self.spec_target().spec_remaining()
    }

    /// Reads up to `count` bytes: straight from the target when not
    /// bouncing, otherwise staged in chunks bounded by the buffer
    /// capacity; a short chunk ends the transfer.
    fn read_volatile(&mut self, count: usize) -> (r: Result<Vec<u8>, VolatileMemoryError>) {
        if self.persistent_buffer.is_none() {
            let r = self.target.read_volatile(count);
            proof {
                let t0 = old(self).spec_target();
                if r is Err {
                    let n = choose|n: int|
                        0 <= n <= t0.spec_remaining().len() && self.spec_target().spec_remaining()
                            == #[trigger] t0.spec_remaining().skip(n);
                    assert(self.spec_remaining() == old(self).spec_remaining().skip(n));
                }
            }
            return r;
        }
        let cap: usize = if N == 0 {
            count
        } else {
            N
        };
        if cap == 0 {
            let v: Vec<u8> = Vec::new();
            proof {
                assert(v@ =~= old(self).spec_remaining().take(0));
                assert(self.spec_remaining() =~= old(self).spec_remaining().skip(0));
            }
            return Ok(v);
        }
        let mut acc: Vec<u8> = Vec::new();
        loop
            invariant
                cap > 0,
                acc@.len() <= count,
                acc@.len() <= old(self).spec_remaining().len(),
                acc@ == old(self).spec_remaining().take(acc@.len() as int),
                self.spec_remaining() == old(self).spec_remaining().skip(acc@.len() as int),
            decreases count - acc@.len(),
        {
            if acc.len() == count {
                return Ok(acc);
            }
            let left: usize = count - acc.len();
            let how_much: usize = if left < cap {
                left
            } else {
                cap
            };
            let ghost done: int = acc@.len() as int;
            match self.target.read_volatile(how_much) {
                Ok(mut chunk) => {
                    let short: bool = chunk.len() < how_much;
                    let ghost got: int = chunk@.len() as int;
                    acc.append(&mut chunk);
                    proof {
                        let orig = old(self).spec_remaining();
                        assert(acc@ =~= orig.take(done + got));
                        assert(self.spec_remaining() =~= orig.skip(done + got));
                    }
                    if short {
                        return Ok(acc);
                    }
                },
                Err(e) => {
                    proof {
                        let orig = old(self).spec_remaining();
                        let before = orig.skip(done);
                        let n = choose|n: int|
                            0 <= n <= before.len() && self.spec_remaining()
                                == #[trigger] before.skip(n);
                        assert(self.spec_remaining() =~= orig.skip(done + n));
                    }
                    return Err(e);
                },
            }
        }
    }
}

impl<T: WriteVolatile, const N: usize> WriteVolatile for MaybeBounce<T, N> {
    /// The adapter sinks exactly what its target takes.
    open spec fn spec_sunk(&self) -> Seq<u8> {
        self.spec_target().spec_sunk()
    }

    /// Writes a prefix of `buf`: straight to the target when not
    /// bouncing, otherwise staged in chunks bounded by the buffer
    /// capacity; a short chunk ends the transfer.
    fn write_volatile(&mut self, buf: &[u8]) -> (r: Result<usize, VolatileMemoryError>) {
        if self.persistent_buffer.is_none() {
            return self.target.write_volatile(buf);
        }
        let total: usize = buf.len();
        let cap: usize = if N == 0 {
            total
        } else {
            N
        };
        if cap == 0 {
            proof {
                assert(self.spec_sunk() =~= old(self).spec_sunk() + buf@.take(0));
            }
            return Ok(0);
        }
        let mut done: usize = 0;
        loop
            invariant
                cap > 0,
                total == buf@.len(),
                done <= total,
                self.spec_sunk() == old(self).spec_sunk() + buf@.take(done as int),
            decreases total - done,
        {
            if done == total {
                return Ok(done);
            }
            let left: usize = total - done;
            let how_much: usize = if left < cap {
                left
            } else {
                cap
            };
            let mut staged: Vec<u8> = Vec::new();
            let mut k: usize = 0;
            while k < how_much
                invariant
                    k <= how_much,
                    done + how_much <= total,
                    total == buf@.len(),
                    staged@.len() == k,
                    forall|q: int| 0 <= q < k ==> #[trigger] staged@[q] == buf@[done + q],
                decreases how_much - k,
            {
                staged.push(buf[done + k]);
                k = k + 1;
            }
            let ghost sunk_before = self.spec_sunk();
            match self.target.write_volatile(staged.as_slice()) {
                Ok(n) => {
                    proof {
                        assert(staged@.take(n as int) =~= buf@.subrange(
                            done as int,
                            done + n,
                        ));
                        assert(old(self).spec_sunk() + buf@.take(done + n) =~= sunk_before
                            + staged@.take(n as int));
                    }
                    let new_done: usize = done + n;
                    if n < how_much {
                        return Ok(new_done);
                    }
                    done = new_done;
                },
                Err(e) => {
                    proof {
                        let n = choose|n: int|
                            0 <= n <= staged@.len() && self.spec_sunk() == sunk_before
                                + #[trigger] staged@.take(n);
                        assert(staged@.take(n) =~= buf@.subrange(done as int, done + n));
                        assert(self.spec_sunk() =~= old(self).spec_sunk() + buf@.take(done + n));
                    }
                    return Err(e);
                },
            }
        }
    }
}

/// A byte source over an owned buffer; used to feed volatile
/// transfers from plain bytes.
pub struct VecReader {
    data: Vec<u8>,
    pos: usize,
}

impl VecReader {
    /// A source that will produce all of `data`.
    pub fn new(data: Vec<u8>) -> (r: VecReader)
        ensures
            r.spec_remaining() == data@,
    {
        VecReader { data, pos: 0 }
    }
}

impl ReadVolatile for VecReader {
    /// The bytes not yet read.
    closed spec fn spec_remaining(&self) -> Seq<u8> {
        if self.pos <= self.data@.len() {
            self.data@.skip(self.pos as int)
        } else {
            Seq::empty()
        }
    }

    /// Reads up to `count` bytes; never fails, and delivers the full
    /// request or whatever remains, whichever is shorter.
    fn read_volatile(&mut self, count: usize) -> (r: Result<Vec<u8>, VolatileMemoryError>)
        ensures
            match r {
                Ok(v) => v@.len() == vstd::math::min(
                    count as int,
                    old(self).spec_remaining().len() as int,
                ),
                Err(_) => false,
            },
    {
        let len: usize = self.data.len();
        let left: usize = if self.pos > len {
            0
        } else {
            len - self.pos
        };
        let take: usize = if count < left {
            count
        } else {
            left
        };
        let mut v: Vec<u8> = Vec::new();
        let mut k: usize = 0;
        while k < take
            invariant
                k <= take,
                len == self.data@.len(),
                take == 0 || self.pos + take <= len,
                v@.len() == k,
                forall|q: int| 0 <= q < k ==> #[trigger] v@[q] == self.data@[self.pos + q],
            decreases take - k,
        {
            v.push(self.data[self.pos + k]);
            k = k + 1;
        }
        let ghost before = self.spec_remaining();
        self.pos = self.pos + take;
        proof {
            assert(v@ =~= before.take(take as int));
            assert(self.spec_remaining() =~= before.skip(take as int));
        }
        Ok(v)
    }
}

/// A byte sink over an owned buffer; used to collect volatile
/// transfers as plain bytes.
pub struct VecWriter {
    data: Vec<u8>,
}

impl VecWriter {
    /// An empty sink.
    pub fn new() -> (r: VecWriter)
        ensures
            r.spec_sunk() == Seq::<u8>::empty(),
    {
        VecWriter { data: Vec::new() }
    }

    /// The bytes taken so far.
    pub fn into_data(self) -> (r: Vec<u8>)
        ensures
            r@ == self.spec_sunk(),
    {
        self.data
    }
}

impl WriteVolatile for VecWriter {
    /// Everything written lands in the buffer.
    closed spec fn spec_sunk(&self) -> Seq<u8> {
        self.data@
    }

    /// Takes all of `buf`; never fails and never writes short.
    fn write_volatile(&mut self, buf: &[u8]) -> (r: Result<usize, VolatileMemoryError>)
        ensures
            match r {
                Ok(n) => n == buf@.len(),
                Err(_) => false,
            },
    {
        let n: usize = buf.len();
        let mut k: usize = 0;
        while k < n
            invariant
                k <= n,
                n == buf@.len(),
                self.data@ == old(self).data@ + buf@.take(k as int),
            decreases n - k,
        {
            self.data.push(buf[k]);
            proof {
                assert(self.data@ =~= old(self).data@ + buf@.take(k + 1));
            }
            k = k + 1;
        }
        proof {
            assert(self.data@ =~= old(self).data@ + buf@.take(n as int));
        }
        Ok(n)
    }
}

/// A byte source that delivers at most a fixed number of bytes per
/// read, exercising the chunked paths of the adapter.
pub struct ThrottledReader {
    data: Vec<u8>,
    pos: usize,
    max_chunk: usize,
}

impl ThrottledReader {
    /// The largest number of bytes one read hands out.
    pub closed spec fn spec_max_chunk(&self) -> int {
        self.max_chunk as int
    }

    /// A source over `data` that hands out at most `max_chunk` bytes
    /// per read.
    pub fn new(data: Vec<u8>, max_chunk: usize) -> (r: ThrottledReader)
        ensures
            r.spec_remaining() == data@,
            r.spec_max_chunk() == max_chunk,
    {
        ThrottledReader { data, pos: 0, max_chunk }
    }
}

impl ReadVolatile for ThrottledReader {
    /// The bytes not yet read.
    closed spec fn spec_remaining(&self) -> Seq<u8> {
        if self.pos <= self.data@.len() {
            self.data@.skip(self.pos as int)
        } else {
            Seq::empty()
        }
    }

    /// Reads up to `count` bytes, but never more than the configured
    /// chunk limit; never fails, and delivers that cap in full while
    /// at least as many bytes remain.
    fn read_volatile(&mut self, count: usize) -> (r: Result<Vec<u8>, VolatileMemoryError>)
        ensures
            final(self).spec_max_chunk() == old(self).spec_max_chunk(),
            match r {
                Ok(v) => v@.len() == vstd::math::min(
                    vstd::math::min(count as int, old(self).spec_max_chunk()),
                    old(self).spec_remaining().len() as int,
                ),
                Err(_) => false,
            },
    {
        let len: usize = self.data.len();
        let left: usize = if self.pos > len {
            0
        } else {
            len - self.pos
        };
        let capped: usize = if count < self.max_chunk {
            count
        } else {
            self.max_chunk
        };
        let take: usize = if capped < left {
            capped
        } else {
            left
        };
        let mut v: Vec<u8> = Vec::new();
        let mut k: usize = 0;
        while k < take
            invariant
                k <= take,
                len == self.data@.len(),
                take == 0 || self.pos + take <= len,
                v@.len() == k,
                forall|q: int| 0 <= q < k ==> #[trigger] v@[q] == self.data@[self.pos + q],
            decreases take - k,
        {
            v.push(self.data[self.pos + k]);
            k = k + 1;
        }
        let ghost before = self.spec_remaining();
        self.pos = self.pos + take;
        proof {
            assert(v@ =~= before.take(take as int));
            assert(self.spec_remaining() =~= before.skip(take as int));
        }
        Ok(v)
    }
}

} // verus!
