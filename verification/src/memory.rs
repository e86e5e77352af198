//! The remote-memory capability: a `read` primitive that fills a buffer from
//! another address space, and typed copy helpers built on it.
//!
//! A remote read is a snapshot of memory that can change between calls, so
//! `read` promises only the shape of its result, never which bytes came back.
//! Everything after the read is exact: [`PlainData`] pins how bytes decode
//! into values, and the copy helpers are verified compositions of the two.

use vstd::prelude::*;
use vstd::bytes::{
    spec_u16_from_le_bytes, spec_u16_to_le_bytes, u16_from_le_bytes,
    lemma_auto_spec_u16_to_from_le_bytes, spec_u32_from_le_bytes, spec_u32_to_le_bytes,
    u32_from_le_bytes, lemma_auto_spec_u32_to_from_le_bytes, spec_u64_from_le_bytes,
    spec_u64_to_le_bytes, u64_from_le_bytes, lemma_auto_spec_u64_to_from_le_bytes,
};

use crate::error::Error;

verus! {

/// A fixed-size plain-data type that may be reconstructed from raw bytes
/// copied out of a foreign address space: no handles, no references, no
/// fields with restricted valid values. Byte order is little-endian.
pub trait PlainData: Sized + Copy {
    /// How many bytes encode one value.
    spec fn size_spec() -> nat;

    /// The value that `bytes` encode.
    spec fn decode_spec(bytes: Seq<u8>) -> Self;

    /// The encoding of `self`.
    spec fn encode_spec(self) -> Seq<u8>;

    /// How many bytes encode one value.
    fn size() -> (n: usize)
        ensures
            n == Self::size_spec(),
    ;

    /// Decode one value from exactly its bytes.
    fn from_bytes(bytes: &[u8]) -> (r: Self)
        requires
            bytes@.len() == Self::size_spec(),
        ensures
            r == Self::decode_spec(bytes@),
    ;

    /// Decoding inverts encoding: a value whose encoding sits in memory is
    /// copied out unchanged.
    proof fn lemma_round_trip(self)
        ensures
            self.encode_spec().len() == Self::size_spec(),
            Self::decode_spec(self.encode_spec()) == self,
    ;
}

impl PlainData for u8 {
    open spec fn size_spec() -> nat {
        1
    }

    open spec fn decode_spec(bytes: Seq<u8>) -> Self {
        bytes[0]
    }

    open spec fn encode_spec(self) -> Seq<u8> {
        seq![self]
    }

    fn size() -> (n: usize) {
        1
    }

    fn from_bytes(bytes: &[u8]) -> (r: Self) {
        bytes[0]
    }

    proof fn lemma_round_trip(self) {
    }
}

impl PlainData for u16 {
    open spec fn size_spec() -> nat {
        2
    }

    open spec fn decode_spec(bytes: Seq<u8>) -> Self {
        spec_u16_from_le_bytes(bytes)
    }

    open spec fn encode_spec(self) -> Seq<u8> {
        spec_u16_to_le_bytes(self)
    }

    fn size() -> (n: usize) {
        2
    }

    fn from_bytes(bytes: &[u8]) -> (r: Self) {
        u16_from_le_bytes(bytes)
    }

    proof fn lemma_round_trip(self) {
        lemma_auto_spec_u16_to_from_le_bytes();
        assert(spec_u16_to_le_bytes(self).len() == 2);
        assert(spec_u16_from_le_bytes(spec_u16_to_le_bytes(self)) == self);
    }
}

impl PlainData for u32 {
    open spec fn size_spec() -> nat {
        4
    }

    open spec fn decode_spec(bytes: Seq<u8>) -> Self {
        spec_u32_from_le_bytes(bytes)
    }

    open spec fn encode_spec(self) -> Seq<u8> {
        spec_u32_to_le_bytes(self)
    }

    fn size() -> (n: usize) {
        4
    }

    fn from_bytes(bytes: &[u8]) -> (r: Self) {
        u32_from_le_bytes(bytes)
    }

    proof fn lemma_round_trip(self) {
        lemma_auto_spec_u32_to_from_le_bytes();
        assert(spec_u32_to_le_bytes(self).len() == 4);
        assert(spec_u32_from_le_bytes(spec_u32_to_le_bytes(self)) == self);
    }
}

impl PlainData for u64 {
    open spec fn size_spec() -> nat {
        8
    }

    open spec fn decode_spec(bytes: Seq<u8>) -> Self {
        spec_u64_from_le_bytes(bytes)
    }

    open spec fn encode_spec(self) -> Seq<u8> {
        spec_u64_to_le_bytes(self)
    }

    fn size() -> (n: usize) {
        8
    }

    fn from_bytes(bytes: &[u8]) -> (r: Self) {
        u64_from_le_bytes(bytes)
    }

    proof fn lemma_round_trip(self) {
        lemma_auto_spec_u64_to_from_le_bytes();
        assert(spec_u64_to_le_bytes(self).len() == 8);
        assert(spec_u64_from_le_bytes(spec_u64_to_le_bytes(self)) == self);
    }
}

/// The signed value whose two's-complement bit pattern is `u`.
pub open spec fn signed32_of(u: u32) -> i32 {
    if u < 0x8000_0000 {
        u as i32
    } else {
        (u - 0x1_0000_0000) as i32
    }
}

/// The two's-complement bit pattern of `v`, as an unsigned value.
pub open spec fn unsigned32_of(v: i32) -> u32 {
    if v >= 0 {
        v as u32
    } else {
        (v + 0x1_0000_0000) as u32
    }
}

impl PlainData for i32 {
    open spec fn size_spec() -> nat {
        4
    }

    open spec fn decode_spec(bytes: Seq<u8>) -> Self {
        signed32_of(spec_u32_from_le_bytes(bytes))
    }

    open spec fn encode_spec(self) -> Seq<u8> {
        spec_u32_to_le_bytes(unsigned32_of(self))
    }

    fn size() -> (n: usize) {
        4
    }

    fn from_bytes(bytes: &[u8]) -> (r: Self) {
        let u = u32_from_le_bytes(bytes);
        if u < 0x8000_0000 {
            u as i32
        } else {
            let m = 0xFFFF_FFFFu32 - u;
            -(m as i32) - 1
        }
    }

    proof fn lemma_round_trip(self) {
        lemma_auto_spec_u32_to_from_le_bytes();
        assert(spec_u32_to_le_bytes(unsigned32_of(self)).len() == 4);
        assert(spec_u32_from_le_bytes(spec_u32_to_le_bytes(unsigned32_of(self)))
            == unsigned32_of(self));
    }
}

/// The signed value whose two's-complement bit pattern is `u`.
pub open spec fn signed64_of(u: u64) -> i64 {
    if u < 0x8000_0000_0000_0000 {
        u as i64
    } else {
        (u - 0x1_0000_0000_0000_0000) as i64
    }
}

/// The two's-complement bit pattern of `v`, as an unsigned value.
pub open spec fn unsigned64_of(v: i64) -> u64 {
    if v >= 0 {
        v as u64
    } else {
        (v + 0x1_0000_0000_0000_0000) as u64
    }
}

impl PlainData for i64 {
    open spec fn size_spec() -> nat {
        8
    }

    open spec fn decode_spec(bytes: Seq<u8>) -> Self {
        signed64_of(spec_u64_from_le_bytes(bytes))
    }

    open spec fn encode_spec(self) -> Seq<u8> {
        spec_u64_to_le_bytes(unsigned64_of(self))
    }

    fn size() -> (n: usize) {
        8
    }

    fn from_bytes(bytes: &[u8]) -> (r: Self) {
        let u = u64_from_le_bytes(bytes);
        if u < 0x8000_0000_0000_0000 {
            u as i64
        } else {
            let m = 0xFFFF_FFFF_FFFF_FFFFu64 - u;
            -(m as i64) - 1
        }
    }

    proof fn lemma_round_trip(self) {
        lemma_auto_spec_u64_to_from_le_bytes();
        assert(spec_u64_to_le_bytes(unsigned64_of(self)).len() == 8);
        assert(spec_u64_from_le_bytes(spec_u64_to_le_bytes(unsigned64_of(self)))
            == unsigned64_of(self));
    }
}

/// The sequence of values decoded from `bytes` taken as `count` back-to-back
/// encodings of `T`.
pub open spec fn decode_each<T: PlainData>(bytes: Seq<u8>, count: nat) -> Seq<T> {
    Seq::new(count, |i: int| T::decode_spec(bytes.subrange(i * T::size_spec(), (i + 1) * T::size_spec())))
}

/// Element `i` of a block decoded as `count` back-to-back values is the
/// decoding of the block's `i`-th chunk: a block copy decoded element-wise
/// and a per-element copy of the same bytes agree, element for element.
pub proof fn lemma_decode_each_index<T: PlainData>(bytes: Seq<u8>, count: nat, i: int)
    requires
        0 <= i < count,
    ensures
        decode_each::<T>(bytes, count)[i] == T::decode_spec(
            bytes.subrange(i * T::size_spec(), (i + 1) * T::size_spec()),
        ),
{
}

/// Reading memory of another process, with typed copy helpers built on the
/// one `read` primitive. What bytes a read returns depends on the state of
/// the target at that instant, so no contract here names them; everything
/// after the read is pinned down exactly.
pub trait ProcessMemory: Sized {
    /// Fill the whole of `buf` with the bytes at `addr` of the target's
    /// address space. Either every byte was copied, or an error comes back
    /// and the buffer's contents mean nothing; no partial success is
    /// observable.
    fn read(&self, addr: usize, buf: &mut Vec<u8>) -> (r: Result<(), Error>)
        ensures
            final(buf)@.len() == old(buf)@.len(),
    ;

    /// Copy `length` bytes starting at `addr` into a fresh buffer of exactly
    /// that length.
    fn copy(&self, addr: usize, length: usize) -> (r: Result<Vec<u8>, Error>)
        ensures
            r matches Ok(data) ==> data@.len() == length,
    {
        let mut data: Vec<u8> = vec![0u8; length];
        match self.read(addr, &mut data) {
            Ok(()) => Ok(data),
            Err(e) => Err(e),
        }
    }

    /// Copy `T::size()` bytes at `addr` and decode them as one `T`: the
    /// result is [`PlainData::decode_spec`] of some bytes of that length
    /// read from the target.
    fn copy_struct<T: PlainData>(&self, addr: usize) -> (r: Result<T, Error>)
        ensures
            r matches Ok(v) ==> exists|bytes: Seq<u8>|
                bytes.len() == T::size_spec() && v == T::decode_spec(bytes),
    {
        let data = match self.copy(addr, T::size()) {
            Ok(d) => d,
            Err(e) => { return Err(e); },
        };
        let v = T::from_bytes(data.as_slice());
        proof {
            assert(data@.len() == T::size_spec() && v == T::decode_spec(data@));
        }
        Ok(v)
    }

    /// Treat `ptr` as the address of a `T` in the target's address space and
    /// copy the `T` it points at; the same operation as [`Self::copy_struct`],
    /// named so that call sites read like pointer dereferences.
    fn copy_pointer<T: PlainData>(&self, ptr: usize) -> (r: Result<T, Error>)
        ensures
            r matches Ok(v) ==> exists|bytes: Seq<u8>|
                bytes.len() == T::size_spec() && v == T::decode_spec(bytes),
    {
        self.copy_struct(ptr)
    }

    /// Copy `length * T::size()` bytes at `addr` and decode them as `length`
    /// contiguous values: exactly `length` elements come back, and element
    /// `i` is the decoding of bytes `i * T::size() ..= (i + 1) * T::size()`
    /// of the copied block, as [`decode_each`] says.
    fn copy_vec<T: PlainData>(&self, addr: usize, length: usize) -> (r: Result<Vec<T>, Error>)
        requires
            length * T::size_spec() <= usize::MAX,
        ensures
            r matches Ok(values) ==> {
                &&& values@.len() == length
                &&& exists|bytes: Seq<u8>|
                    bytes.len() == length * T::size_spec() && values@ == decode_each::<T>(
                        bytes,
                        length as nat,
                    )
            },
    {
        let elem = T::size();
        let total = length * elem;
        let data = match self.copy(addr, total) {
            Ok(d) => d,
            Err(e) => { return Err(e); },
        };
        let mut values: Vec<T> = Vec::new();
        let mut i: usize = 0;
        while i < length
            invariant
                i <= length,
                elem == T::size_spec(),
                length * elem <= usize::MAX,
                data@.len() == length * elem,
                values@.len() == i,
                forall|j: int| 0 <= j < i ==> values@[j] == T::decode_spec(
                    data@.subrange(j * elem, (j + 1) * elem),
                ),
            decreases length - i,
        {
            proof {
                assert(i * elem + elem <= length * elem) by (nonlinear_arith)
                    requires i < length, elem >= 0,
                ;
                assert(i * elem >= 0) by (nonlinear_arith)
                    requires i >= 0, elem >= 0,
                ;
                assert((i + 1) * elem == i * elem + elem) by (nonlinear_arith);
            }
            let start = i * elem;
            let chunk = slice_range(data.as_slice(), start, start + elem);
            let v = T::from_bytes(chunk);
            values.push(v);
            i = i + 1;
        }
        proof {
            assert(values@ =~= decode_each::<T>(data@, length as nat));
        }
        Ok(values)
    }
}

/// The subslice `s[from..to]`.
fn slice_range<'a>(s: &'a [u8], from: usize, to: usize) -> (r: &'a [u8])
    requires
        from <= to <= s@.len(),
    ensures
        r@ == s@.subrange(from as int, to as int),
{
    &s[from..to]
}

/// A same-process implementation of [`ProcessMemory`], for exercising the
/// copy helpers: its reads come out of this process's own address space.
pub struct LocalProcess;

impl ProcessMemory for LocalProcess {
    fn read(&self, addr: usize, buf: &mut Vec<u8>) -> (r: Result<(), Error>) {
        let pid = current_pid();
        vm_read(pid, addr, buf)
    }
}

/// Relies on `nix::unistd::Pid::this` (`getpid`), which cannot fail and
/// returns this process's positive id.
#[verifier::external_body]
pub(crate) fn current_pid() -> (pid: i32)
    ensures
        pid > 0,
{
    nix::unistd::Pid::this().as_raw()
}

/// Relies on `nix::sys::uio::process_vm_readv`: on success it copied the
/// returned count of bytes from the target's address space into the front of
/// the buffer. A short read is turned into an error here, so either the whole
/// buffer was filled or an error comes back; no partial success is
/// observable.
#[verifier::external_body]
pub(crate) fn vm_read(pid: i32, addr: usize, buf: &mut Vec<u8>) -> (r: Result<(), Error>)
    ensures
        final(buf)@.len() == old(buf)@.len(),
{
    let len = buf.len();
    let mut local = [std::io::IoSliceMut::new(&mut buf[..])];
    let remote = [nix::sys::uio::RemoteIoVec { base: addr, len }];
    match nix::sys::uio::process_vm_readv(nix::unistd::Pid::from_raw(pid), &mut local, &remote) {
        Ok(n) if n == len => Ok(()),
        Ok(_) => Err(Error::Other(String::from("short read from process memory"))),
        Err(e) => Err(Error::NixError(e)),
    }
}

} // verus!
