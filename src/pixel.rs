use vstd::prelude::*;

use crate::bytes::Bounded;
use crate::error::DecodeError;

verus! {

/// One pixel unit: a fixed number of bytes read as a whole.
pub trait Format: Sized {
    /// How many bytes one unit takes on disk.
    spec fn unit() -> nat;

    /// The bytes this unit was read from.
    spec fn bytes(&self) -> Seq<u8>;

    /// Reads one unit, consuming exactly its width; fails where fewer bytes
    /// remain.
    fn read(data: &[u8], from: &mut Bounded) -> (r: Result<Self, DecodeError>)
        requires
            old(from).wf(data@),
        ensures
            final(from).end == old(from).end,
            final(from).wf(data@),
            old(from).pos + Self::unit() <= old(from).end ==> (r matches Ok(p) && p.bytes()
                == data@.subrange(old(from).pos as int, old(from).pos + Self::unit())
                && final(from).pos == old(from).pos + Self::unit()),
            old(from).pos + Self::unit() > old(from).end ==> r == Err::<Self, DecodeError>(
                DecodeError::Truncated,
            ),
    ;
}

/// Red, green, blue and alpha.
impl Format for [u8; 4] {
    open spec fn unit() -> nat {
        4
    }

    open spec fn bytes(&self) -> Seq<u8> {
        self@
    }

    fn read(data: &[u8], from: &mut Bounded) -> (r: Result<Self, DecodeError>) {
        if from.remaining() < 4 {
            from.drain();
            return Err(DecodeError::Truncated);
        }
        let p = from.pos;
        let px = [data[p], data[p + 1], data[p + 2], data[p + 3]];
        from.pos = p + 4;
        assert(px@ =~= data@.subrange(p as int, p + 4));
        Ok(px)
    }
}

/// Gray and alpha.
impl Format for [u8; 2] {
    open spec fn unit() -> nat {
        2
    }

    open spec fn bytes(&self) -> Seq<u8> {
        self@
    }

    fn read(data: &[u8], from: &mut Bounded) -> (r: Result<Self, DecodeError>) {
        if from.remaining() < 2 {
            from.drain();
            return Err(DecodeError::Truncated);
        }
        let p = from.pos;
        let px = [data[p], data[p + 1]];
        from.pos = p + 2;
        assert(px@ =~= data@.subrange(p as int, p + 2));
        Ok(px)
    }
}

/// An index into the palette.
impl Format for u8 {
    open spec fn unit() -> nat {
        1
    }

    open spec fn bytes(&self) -> Seq<u8> {
        seq![*self]
    }

    fn read(data: &[u8], from: &mut Bounded) -> (r: Result<Self, DecodeError>) {
        let b = from.read_u8(data)?;
        assert(seq![b] =~= data@.subrange(old(from).pos as int, old(from).pos + 1));
        Ok(b)
    }
}

/// The bytes of each unit of a sequence, in order.
pub open spec fn units_bytes<T: Format>(s: Seq<T>) -> Seq<Seq<u8>> {
    s.map_values(|p: T| p.bytes())
}

/// `count` units of `unit` bytes each from `pos`, within `end`, with the
/// position after them.
pub open spec fn spec_pixels(d: Seq<u8>, pos: int, end: int, count: nat, unit: nat) -> Result<
    (Seq<Seq<u8>>, int),
    DecodeError,
> {
    if pos + count * unit > end {
        Err(DecodeError::Truncated)
    } else {
        Ok(
            (
                Seq::new(count, |i: int| d.subrange(pos + i * unit, pos + (i + 1) * unit)),
                pos + count * unit,
            ),
        )
    }
}

/// Reads `length` pixel units in order.
pub fn read_pixels<T: Format>(data: &[u8], from: &mut Bounded, length: usize) -> (r: Result<
    Vec<T>,
    DecodeError,
>)
    requires
        old(from).wf(data@),
    ensures
        final(from).end == old(from).end,
        final(from).wf(data@),
        match spec_pixels(data@, old(from).pos as int, old(from).end as int, length as nat, T::unit()) {
            Ok((s, q)) => r matches Ok(v) && units_bytes(v@) == s && final(from).pos == q,
            Err(e) => r == Err::<Vec<T>, DecodeError>(e),
        },
{
    let ghost start = from.pos as int;
    let ghost u = T::unit();
    let mut pixels: Vec<T> = Vec::new();
    let mut i: usize = 0;
    while i < length
        invariant
            from.wf(data@),
            from.end == old(from).end,
            start == old(from).pos,
            u == T::unit(),
            i <= length,
            from.pos == start + i * u,
            pixels@.len() == i,
            forall|k: int|
                0 <= k < i ==> (#[trigger] pixels@[k]).bytes() == data@.subrange(
                    start + k * u,
                    start + (k + 1) * u,
                ),
        decreases length - i,
    {
        let ghost before = from.pos as int;
        match T::read(data, from) {
            Ok(p) => {
                pixels.push(p);
            },
            Err(e) => {
                assert(start + length * u > from.end) by (nonlinear_arith)
                    requires
                        before == start + i * u,
                        before + u > from.end,
                        i < length,
                ;
                return Err(e);
            },
        }
        assert((i + 1) * u == i * u + u) by (nonlinear_arith);
        i = i + 1;
    }
    proof {
        let s = Seq::new(length as nat, |k: int| data@.subrange(start + k * u, start + (k + 1) * u));
        assert(units_bytes(pixels@) =~= s);
    }
    Ok(pixels)
}

} // verus!
