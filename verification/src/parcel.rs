//! The parcel: a growable, position-addressable byte buffer with typed
//! read/write of primitives, arrays, strings and embedded status values.
//!
//! Every value is encoded at the data position, overwriting bytes in place
//! and extending the buffer as needed; reads decode at the data position and
//! advance it.  Absent arrays and strings are marked by a length prefix of
//! minus one, distinct from present-but-empty ones.

use vstd::prelude::*;
use vstd::bytes::*;
use vstd::utf8::{decode_utf8, encode_utf8, valid_utf8};
use crate::status::{Code, Exception, Status, StatusView, spec_status_of_code, spec_exception_raw, spec_exception_from_raw, lemma_exception_raw_round_trip};

verus! {

/// Largest byte size a parcel may hold, so every length fits the signed
/// 32-bit length fields of the wire format.
pub const MAX_DATA_SIZE: usize = 0x7fff_ffff;

/// Abstract value of a `Parcel`: its bytes and its data position.
pub ghost struct ParcelView {
    pub bytes: Seq<u8>,
    pub pos: int,
}

/// Bytes `b` written into `s` at `pos`: the write overwrites in place and
/// extends the sequence where it runs past the end.
pub open spec fn splice(s: Seq<u8>, pos: int, b: Seq<u8>) -> Seq<u8> {
    if pos + b.len() <= s.len() {
        s.take(pos) + b + s.skip(pos + b.len())
    } else {
        s.take(pos) + b
    }
}

/// Pointwise description of a splice.
pub proof fn lemma_splice_parts(s: Seq<u8>, pos: int, b: Seq<u8>)
    requires
        0 <= pos <= s.len(),
    ensures
        splice(s, pos, b).len() == if pos + b.len() <= s.len() {
            s.len() as int
        } else {
            pos + b.len()
        },
        forall|i: int| 0 <= i < pos ==> splice(s, pos, b)[i] == s[i],
        forall|i: int| 0 <= i < b.len() ==> splice(s, pos, b)[pos + i] == b[i],
        pos + b.len() <= s.len() ==> forall|i: int|
            pos + b.len() <= i < s.len() ==> splice(s, pos, b)[i] == s[i],
{
}

/// A splice is read back exactly from where it was written.
pub proof fn lemma_splice_subrange(s: Seq<u8>, pos: int, b: Seq<u8>)
    requires
        0 <= pos <= s.len(),
    ensures
        splice(s, pos, b).subrange(pos, pos + b.len()) == b,
{
    lemma_splice_parts(s, pos, b);
    assert(splice(s, pos, b).subrange(pos, pos + b.len()) =~= b);
}

/// Splicing in bytes that are already there changes nothing.
pub proof fn lemma_splice_identity(s: Seq<u8>, pos: int, b: Seq<u8>)
    requires
        0 <= pos,
        pos + b.len() <= s.len(),
        s.subrange(pos, pos + b.len()) == b,
    ensures
        splice(s, pos, b) == s,
{
    lemma_splice_parts(s, pos, b);
    assert forall|i: int| 0 <= i < b.len() implies #[trigger] b[i] == s[pos + i] by {
        assert(s.subrange(pos, pos + b.len())[i] == s[pos + i]);
    }
    assert(splice(s, pos, b) =~= s);
}

/// One step of performing a splice byte by byte.
proof fn lemma_splice_step(s: Seq<u8>, pos: int, b: Seq<u8>, i: int)
    requires
        0 <= pos <= s.len(),
        0 <= i < b.len(),
    ensures
        pos + i < s.len() ==> splice(s, pos, b.take(i + 1)) == splice(s, pos, b.take(i)).update(
            pos + i,
            b[i],
        ),
        pos + i >= s.len() ==> splice(s, pos, b.take(i + 1)) == splice(s, pos, b.take(i)).push(
            b[i],
        ),
{
    lemma_splice_parts(s, pos, b.take(i));
    lemma_splice_parts(s, pos, b.take(i + 1));
    if pos + i < s.len() {
        assert(splice(s, pos, b.take(i + 1)) =~= splice(s, pos, b.take(i)).update(pos + i, b[i]));
    } else {
        assert(splice(s, pos, b.take(i + 1)) =~= splice(s, pos, b.take(i)).push(b[i]));
    }
}

/// The byte buffer used to marshal transaction arguments and replies.
///
/// An owned parcel manages its own storage; the views handed to transaction
/// handlers are plain mutable borrows, which cannot outlive the call.
pub struct Parcel {
    data: Vec<u8>,
    pos: usize,
}

impl View for Parcel {
    type V = ParcelView;

    closed spec fn view(&self) -> ParcelView {
        ParcelView { bytes: self.data@, pos: self.pos as int }
    }
}

impl Parcel {
    #[verifier::type_invariant]
    spec fn inv(self) -> bool {
        self.pos <= self.data@.len() <= MAX_DATA_SIZE
    }

    /// A fresh, empty parcel with the data position at the start.
    pub fn new() -> (r: Parcel)
        ensures
            r@.bytes == Seq::<u8>::empty(),
            r@.pos == 0,
    {
        Parcel { data: Vec::new(), pos: 0 }
    }

    /// Discard all data and rewind the data position.
    pub fn reset(&mut self)
        ensures
            final(self)@.bytes == Seq::<u8>::empty(),
            final(self)@.pos == 0,
    {
        proof {
            use_type_invariant(&*self);
        }
        self.pos = 0;
        self.data = Vec::new();
    }

    /// Number of bytes the parcel holds.
    pub fn get_data_size(&self) -> (r: u32)
        ensures
            r as int == self@.bytes.len(),
    {
        proof {
            use_type_invariant(&*self);
        }
        self.data.len() as u32
    }

    /// Current data position.
    pub fn get_data_position(&self) -> (r: u32)
        ensures
            r as int == self@.pos,
            r as int <= self@.bytes.len(),
    {
        proof {
            use_type_invariant(&*self);
        }
        self.pos as u32
    }

    /// Move the data position; fails with `BadValue` if the position lies
    /// outside the buffer.
    pub fn set_data_position(&mut self, pos: u32) -> (r: Result<(), Status>)
        ensures
            final(self)@.bytes == old(self)@.bytes,
            if pos as int <= old(self)@.bytes.len() {
                r is Ok && final(self)@.pos == pos as int
            } else {
                ({
                    &&& (r matches Err(st) && st@ == spec_status_of_code(Code::BadValue))
                    &&& final(self)@.pos == old(self)@.pos
                })
            },
    {
        proof {
            use_type_invariant(&*self);
        }
        let p = pos as usize;
        if p <= self.data.len() {
            self.pos = p;
            Ok(())
        } else {
            Err(Status::with_code(Code::BadValue))
        }
    }

    /// Replace the parcel's contents with raw bytes and rewind the data
    /// position; fails with `NoMemory` if the bytes exceed the size limit.
    pub fn unmarshal(&mut self, buffer: &[u8]) -> (r: Result<(), Status>)
        ensures
            if buffer@.len() <= MAX_DATA_SIZE as int {
                ({
                    &&& r is Ok
                    &&& final(self)@.bytes == buffer@
                    &&& final(self)@.pos == 0
                })
            } else {
                ({
                    &&& (r matches Err(st) && st@ == spec_status_of_code(Code::NoMemory))
                    &&& final(self)@ == old(self)@
                })
            },
    {
        proof {
            use_type_invariant(&*self);
        }
        if buffer.len() > MAX_DATA_SIZE {
            return Err(Status::with_code(Code::NoMemory));
        }
        let mut v: Vec<u8> = Vec::new();
        let n = buffer.len();
        let mut i: usize = 0;
        while i < n
            invariant
                n == buffer@.len(),
                0 <= i <= n,
                v@ == buffer@.take(i as int),
            decreases n - i,
        {
            v.push(buffer[i]);
            assert(v@ =~= buffer@.take(i + 1));
            i += 1;
        }
        assert(v@ =~= buffer@);
        self.pos = 0;
        self.data = v;
        Ok(())
    }

    /// Copy the parcel's bytes into `buffer` starting at `offset`; fails with
    /// `BadValue` if the copy would run past the end of `buffer`.
    pub fn marshal(&self, buffer: &mut Vec<u8>, offset: usize) -> (r: Result<(), Status>)
        ensures
            if offset + self@.bytes.len() <= old(buffer)@.len() {
                ({
                    &&& r is Ok
                    &&& final(buffer)@ == splice(old(buffer)@, offset as int, self@.bytes)
                })
            } else {
                ({
                    &&& (r matches Err(st) && st@ == spec_status_of_code(Code::BadValue))
                    &&& final(buffer)@ == old(buffer)@
                })
            },
    {
        proof {
            use_type_invariant(&*self);
        }
        let n = self.data.len();
        let blen = buffer.len();
        if offset > blen || n > blen - offset {
            return Err(Status::with_code(Code::BadValue));
        }
        proof {
            lemma_splice_parts(buffer@, offset as int, self.data@);
        }
        let mut i: usize = 0;
        while i < n
            invariant
                n == self@.bytes.len(),
                0 <= i <= n,
                offset + n <= blen,
                buffer@.len() == blen as int,
                buffer@.len() == old(buffer)@.len(),
                forall|j: int| 0 <= j < i ==> buffer@[offset + j] == self@.bytes[j],
                forall|j: int|
                    0 <= j < buffer@.len() && !(offset <= j < offset + i) ==> buffer@[j] == old(
                        buffer,
                    )@[j],
            decreases n - i,
        {
            let b = self.data[i];
            buffer[offset + i] = b;
            i += 1;
        }
        proof {
            assert(buffer@ =~= splice(old(buffer)@, offset as int, self@.bytes));
        }
        Ok(())
    }

    /// Append `length` bytes of `other`, starting at `offset` in `other`, at
    /// this parcel's data position.  Fails with `BadValue` if the range lies
    /// outside `other`, and with `NoMemory` if the write would exceed the
    /// size limit.
    pub fn append_from(&mut self, other: &Parcel, offset: u32, length: u32) -> (r: Result<
        (),
        Status,
    >)
        ensures
            ({
                let src = other@.bytes;
                let a = offset as int;
                let n = length as int;
                if !(a + n <= src.len()) {
                    ({
                        &&& (r matches Err(st) && st@ == spec_status_of_code(Code::BadValue))
                        &&& final(self)@ == old(self)@
                    })
                } else if old(self)@.pos + n <= MAX_DATA_SIZE as int {
                    ({
                        &&& r is Ok
                        &&& final(self)@.bytes == splice(
                            old(self)@.bytes,
                            old(self)@.pos,
                            src.subrange(a, a + n),
                        )
                        &&& final(self)@.pos == old(self)@.pos + n
                    })
                } else {
                    ({
                        &&& (r matches Err(st) && st@ == spec_status_of_code(Code::NoMemory))
                        &&& final(self)@ == old(self)@
                    })
                }
            }),
    {
        proof {
            use_type_invariant(&*other);
        }
        let a = offset as usize;
        let n = length as usize;
        let olen = other.data.len();
        if a > olen || n > olen - a {
            return Err(Status::with_code(Code::BadValue));
        }
        let mut chunk: Vec<u8> = Vec::new();
        let mut i: usize = 0;
        while i < n
            invariant
                a + n <= olen,
                olen as int == other@.bytes.len(),
                0 <= i <= n,
                chunk@ == other@.bytes.subrange(a as int, a + i),
            decreases n - i,
        {
            chunk.push(other.data[a + i]);
            assert(chunk@ =~= other@.bytes.subrange(a as int, a + i + 1));
            i += 1;
        }
        self.write_bytes(chunk.as_slice())
    }

    /// Write raw bytes at the data position, growing the buffer as needed;
    /// fails with `NoMemory` if the result would exceed the size limit.
    pub(crate) fn write_bytes(&mut self, b: &[u8]) -> (r: Result<(), Status>)
        ensures
            if old(self)@.pos + b@.len() <= MAX_DATA_SIZE as int {
                ({
                    &&& r is Ok
                    &&& final(self)@.bytes == splice(old(self)@.bytes, old(self)@.pos, b@)
                    &&& final(self)@.pos == old(self)@.pos + b@.len()
                })
            } else {
                ({
                    &&& (r matches Err(st) && st@ == spec_status_of_code(Code::NoMemory))
                    &&& final(self)@ == old(self)@
                })
            },
    {
        proof {
            use_type_invariant(&*self);
        }
        let n = b.len();
        if n > MAX_DATA_SIZE - self.pos {
            return Err(Status::with_code(Code::NoMemory));
        }
        let ghost s0 = self.data@;
        let pos0 = self.pos;
        let mut data: Vec<u8> = Vec::new();
        self.pos = 0;
        core::mem::swap(&mut data, &mut self.data);
        assert(splice(s0, pos0 as int, b@.take(0)) =~= s0);
        let mut i: usize = 0;
        while i < n
            invariant
                n == b@.len(),
                0 <= i <= n,
                pos0 + n <= MAX_DATA_SIZE,
                pos0 <= s0.len() <= MAX_DATA_SIZE,
                data@ == splice(s0, pos0 as int, b@.take(i as int)),
            decreases n - i,
        {
            proof {
                lemma_splice_parts(s0, pos0 as int, b@.take(i as int));
                lemma_splice_step(s0, pos0 as int, b@, i as int);
            }
            if pos0 + i < data.len() {
                let bv = b[i];
                data[pos0 + i] = bv;
            } else {
                data.push(b[i]);
            }
            i += 1;
        }
        proof {
            assert(b@.take(n as int) =~= b@);
            lemma_splice_parts(s0, pos0 as int, b@);
        }
        core::mem::swap(&mut data, &mut self.data);
        self.pos = pos0 + n;
        Ok(())
    }

    /// Read `n` raw bytes at the data position and advance it; fails with
    /// `NotEnoughData` if fewer remain.
    pub(crate) fn read_bytes(&mut self, n: usize) -> (r: Result<Vec<u8>, Status>)
        ensures
            final(self)@.bytes == old(self)@.bytes,
            if old(self)@.pos + n <= old(self)@.bytes.len() {
                ({
                    &&& (r matches Ok(v) && v@ == old(self)@.bytes.subrange(
                        old(self)@.pos,
                        old(self)@.pos + n,
                    ))
                    &&& final(self)@.pos == old(self)@.pos + n
                })
            } else {
                ({
                    &&& (r matches Err(st) && st@ == spec_status_of_code(Code::NotEnoughData))
                    &&& final(self)@.pos == old(self)@.pos
                })
            },
    {
        proof {
            use_type_invariant(&*self);
        }
        if n > self.data.len() - self.pos {
            return Err(Status::with_code(Code::NotEnoughData));
        }
        let p = self.pos;
        let mut v: Vec<u8> = Vec::new();
        let mut i: usize = 0;
        while i < n
            invariant
                p + n <= self@.bytes.len(),
                self@.bytes.len() <= MAX_DATA_SIZE,
                0 <= i <= n,
                v@ == self@.bytes.subrange(p as int, p + i),
            decreases n - i,
        {
            v.push(self.data[p + i]);
            assert(v@ =~= self@.bytes.subrange(p as int, p + i + 1));
            i += 1;
        }
        self.pos = p + n;
        Ok(v)
    }

    /// Decode a value of type `T` at the data position.
    pub fn read<T: Read>(&mut self) -> (r: Result<T, Status>)
        ensures
            final(self)@.bytes == old(self)@.bytes,
            match T::read_spec(old(self)@.bytes, old(self)@.pos) {
                Ok(d) => {
                    &&& (r matches Ok(x) && x.deep_view() == d.0)
                    &&& final(self)@.pos == d.1
                },
                Err(c) => {
                    &&& (r matches Err(st) && st@ == spec_status_of_code(c))
                    &&& final(self)@.pos == old(self)@.pos
                },
            },
    {
        T::read(self)
    }

    /// Encode a value of type `T` at the data position.
    pub fn write<T: Write>(&mut self, value: &T) -> (r: Result<(), Status>)
        ensures
            match value.write_spec() {
                Ok(b) => {
                    if old(self)@.pos + b.len() <= MAX_DATA_SIZE as int {
                        ({
                            &&& r is Ok
                            &&& final(self)@.bytes == splice(old(self)@.bytes, old(self)@.pos, b)
                            &&& final(self)@.pos == old(self)@.pos + b.len()
                        })
                    } else {
                        ({
                            &&& (r matches Err(st) && st@ == spec_status_of_code(Code::NoMemory))
                            &&& final(self)@ == old(self)@
                        })
                    }
                },
                Err(c) => {
                    &&& (r matches Err(st) && st@ == spec_status_of_code(c))
                    &&& final(self)@ == old(self)@
                },
            },
    {
        value.write(self)
    }
}

/// Typed decoding out of a parcel.
pub trait Read: Sized + DeepView {
    /// Decode at a position in a byte sequence: the abstract value and the
    /// position after it, or the code with which reading fails.
    spec fn read_spec(bytes: Seq<u8>, pos: int) -> Result<(Self::V, int), Code>;

    /// Decode a value at the parcel's data position and advance it; on
    /// failure the position is unchanged.
    fn read(parcel: &mut Parcel) -> (r: Result<Self, Status>)
        ensures
            final(parcel)@.bytes == old(parcel)@.bytes,
            match Self::read_spec(old(parcel)@.bytes, old(parcel)@.pos) {
                Ok(d) => {
                    &&& (r matches Ok(x) && x.deep_view() == d.0)
                    &&& final(parcel)@.pos == d.1
                },
                Err(c) => {
                    &&& (r matches Err(st) && st@ == spec_status_of_code(c))
                    &&& final(parcel)@.pos == old(parcel)@.pos
                },
            },
    ;
}

/// Typed encoding into a parcel.
pub trait Write {
    /// Wire encoding of this value, or the code with which writing it is
    /// refused.
    spec fn write_spec(&self) -> Result<Seq<u8>, Code>;

    /// Encode the value at the parcel's data position and advance it; on
    /// failure the parcel is unchanged.
    fn write(&self, parcel: &mut Parcel) -> (r: Result<(), Status>)
        ensures
            match self.write_spec() {
                Ok(b) => {
                    if old(parcel)@.pos + b.len() <= MAX_DATA_SIZE as int {
                        ({
                            &&& r is Ok
                            &&& final(parcel)@.bytes == splice(
                                old(parcel)@.bytes,
                                old(parcel)@.pos,
                                b,
                            )
                            &&& final(parcel)@.pos == old(parcel)@.pos + b.len()
                        })
                    } else {
                        ({
                            &&& (r matches Err(st) && st@ == spec_status_of_code(Code::NoMemory))
                            &&& final(parcel)@ == old(parcel)@
                        })
                    }
                },
                Err(c) => {
                    &&& (r matches Err(st) && st@ == spec_status_of_code(c))
                    &&& final(parcel)@ == old(parcel)@
                },
            },
    ;
}

/// A type whose encoding and decoding invert each other.
pub trait Parcelable: Read + Write {
    /// Values for which the round trip is claimed; every value, for most
    /// types.
    spec fn round_trip_wf(&self) -> bool;

    /// Law: decoding at the position where a value was written yields the
    /// value again, whatever lies around it in the buffer.
    proof fn lemma_round_trip(&self, bytes: Seq<u8>, pos: int)
        requires
            self.round_trip_wf(),
            0 <= pos <= bytes.len(),
            self.write_spec() is Ok,
        ensures
            ({
                let b = self.write_spec()->Ok_0;
                Self::read_spec(splice(bytes, pos, b), pos) == Ok::<(Self::V, int), Code>(
                    (self.deep_view(), pos + b.len()),
                )
            }),
    ;
}

impl Write for u32 {
    open spec fn write_spec(&self) -> Result<Seq<u8>, Code> {
        Ok(spec_u32_to_le_bytes(*self))
    }

    fn write(&self, parcel: &mut Parcel) -> (r: Result<(), Status>) {
        proof {
            lemma_auto_spec_u32_to_from_le_bytes();
        }
        let v = u32_to_le_bytes(*self);
        parcel.write_bytes(v.as_slice())
    }
}

impl Read for u32 {
    open spec fn read_spec(bytes: Seq<u8>, pos: int) -> Result<(u32, int), Code> {
        if pos + 4 <= bytes.len() {
            Ok((spec_u32_from_le_bytes(bytes.subrange(pos, pos + 4)), pos + 4))
        } else {
            Err(Code::NotEnoughData)
        }
    }

    fn read(parcel: &mut Parcel) -> (r: Result<u32, Status>) {
        match parcel.read_bytes(4) {
            Ok(v) => Ok(u32_from_le_bytes(v.as_slice())),
            Err(st) => Err(st),
        }
    }
}

impl Parcelable for u32 {
    open spec fn round_trip_wf(&self) -> bool {
        true
    }

    proof fn lemma_round_trip(&self, bytes: Seq<u8>, pos: int) {
        lemma_auto_spec_u32_to_from_le_bytes();
        lemma_splice_parts(bytes, pos, spec_u32_to_le_bytes(*self));
        lemma_splice_subrange(bytes, pos, spec_u32_to_le_bytes(*self));
    }
}

impl Write for i32 {
    open spec fn write_spec(&self) -> Result<Seq<u8>, Code> {
        Ok(spec_u32_to_le_bytes(*self as u32))
    }

    fn write(&self, parcel: &mut Parcel) -> (r: Result<(), Status>) {
        proof {
            lemma_auto_spec_u32_to_from_le_bytes();
        }
        let v = u32_to_le_bytes(*self as u32);
        parcel.write_bytes(v.as_slice())
    }
}

impl Read for i32 {
    open spec fn read_spec(bytes: Seq<u8>, pos: int) -> Result<(i32, int), Code> {
        if pos + 4 <= bytes.len() {
            Ok((spec_u32_from_le_bytes(bytes.subrange(pos, pos + 4)) as i32, pos + 4))
        } else {
            Err(Code::NotEnoughData)
        }
    }

    fn read(parcel: &mut Parcel) -> (r: Result<i32, Status>) {
        match parcel.read_bytes(4) {
            Ok(v) => Ok(u32_from_le_bytes(v.as_slice()) as i32),
            Err(st) => Err(st),
        }
    }
}

impl Parcelable for i32 {
    open spec fn round_trip_wf(&self) -> bool {
        true
    }

    proof fn lemma_round_trip(&self, bytes: Seq<u8>, pos: int) {
        lemma_auto_spec_u32_to_from_le_bytes();
        lemma_splice_parts(bytes, pos, spec_u32_to_le_bytes(*self as u32));
        lemma_splice_subrange(bytes, pos, spec_u32_to_le_bytes(*self as u32));
        let x = *self;
        assert(((x as u32) as i32) == x) by (bit_vector);
    }
}

impl Write for u64 {
    open spec fn write_spec(&self) -> Result<Seq<u8>, Code> {
        Ok(spec_u64_to_le_bytes(*self))
    }

    fn write(&self, parcel: &mut Parcel) -> (r: Result<(), Status>) {
        proof {
            lemma_auto_spec_u64_to_from_le_bytes();
        }
        let v = u64_to_le_bytes(*self);
        parcel.write_bytes(v.as_slice())
    }
}

impl Read for u64 {
    open spec fn read_spec(bytes: Seq<u8>, pos: int) -> Result<(u64, int), Code> {
        if pos + 8 <= bytes.len() {
            Ok((spec_u64_from_le_bytes(bytes.subrange(pos, pos + 8)), pos + 8))
        } else {
            Err(Code::NotEnoughData)
        }
    }

    fn read(parcel: &mut Parcel) -> (r: Result<u64, Status>) {
        match parcel.read_bytes(8) {
            Ok(v) => Ok(u64_from_le_bytes(v.as_slice())),
            Err(st) => Err(st),
        }
    }
}

impl Parcelable for u64 {
    open spec fn round_trip_wf(&self) -> bool {
        true
    }

    proof fn lemma_round_trip(&self, bytes: Seq<u8>, pos: int) {
        lemma_auto_spec_u64_to_from_le_bytes();
        lemma_splice_parts(bytes, pos, spec_u64_to_le_bytes(*self));
        lemma_splice_subrange(bytes, pos, spec_u64_to_le_bytes(*self));
    }
}

impl Write for i64 {
    open spec fn write_spec(&self) -> Result<Seq<u8>, Code> {
        Ok(spec_u64_to_le_bytes(*self as u64))
    }

    fn write(&self, parcel: &mut Parcel) -> (r: Result<(), Status>) {
        proof {
            lemma_auto_spec_u64_to_from_le_bytes();
        }
        let v = u64_to_le_bytes(*self as u64);
        parcel.write_bytes(v.as_slice())
    }
}

impl Read for i64 {
    open spec fn read_spec(bytes: Seq<u8>, pos: int) -> Result<(i64, int), Code> {
        if pos + 8 <= bytes.len() {
            Ok((spec_u64_from_le_bytes(bytes.subrange(pos, pos + 8)) as i64, pos + 8))
        } else {
            Err(Code::NotEnoughData)
        }
    }

    fn read(parcel: &mut Parcel) -> (r: Result<i64, Status>) {
        match parcel.read_bytes(8) {
            Ok(v) => Ok(u64_from_le_bytes(v.as_slice()) as i64),
            Err(st) => Err(st),
        }
    }
}

impl Parcelable for i64 {
    open spec fn round_trip_wf(&self) -> bool {
        true
    }

    proof fn lemma_round_trip(&self, bytes: Seq<u8>, pos: int) {
        lemma_auto_spec_u64_to_from_le_bytes();
        lemma_splice_parts(bytes, pos, spec_u64_to_le_bytes(*self as u64));
        lemma_splice_subrange(bytes, pos, spec_u64_to_le_bytes(*self as u64));
        let x = *self;
        assert(((x as u64) as i64) == x) by (bit_vector);
    }
}

impl Write for u16 {
    open spec fn write_spec(&self) -> Result<Seq<u8>, Code> {
        Ok(spec_u16_to_le_bytes(*self))
    }

    fn write(&self, parcel: &mut Parcel) -> (r: Result<(), Status>) {
        proof {
            lemma_auto_spec_u16_to_from_le_bytes();
        }
        let v = u16_to_le_bytes(*self);
        parcel.write_bytes(v.as_slice())
    }
}

impl Read for u16 {
    open spec fn read_spec(bytes: Seq<u8>, pos: int) -> Result<(u16, int), Code> {
        if pos + 2 <= bytes.len() {
            Ok((spec_u16_from_le_bytes(bytes.subrange(pos, pos + 2)), pos + 2))
        } else {
            Err(Code::NotEnoughData)
        }
    }

    fn read(parcel: &mut Parcel) -> (r: Result<u16, Status>) {
        match parcel.read_bytes(2) {
            Ok(v) => Ok(u16_from_le_bytes(v.as_slice())),
            Err(st) => Err(st),
        }
    }
}

impl Parcelable for u16 {
    open spec fn round_trip_wf(&self) -> bool {
        true
    }

    proof fn lemma_round_trip(&self, bytes: Seq<u8>, pos: int) {
        lemma_auto_spec_u16_to_from_le_bytes();
        lemma_splice_parts(bytes, pos, spec_u16_to_le_bytes(*self));
        lemma_splice_subrange(bytes, pos, spec_u16_to_le_bytes(*self));
    }
}

impl Write for i8 {
    open spec fn write_spec(&self) -> Result<Seq<u8>, Code> {
        Ok(seq![*self as u8])
    }

    fn write(&self, parcel: &mut Parcel) -> (r: Result<(), Status>) {
        let mut v: Vec<u8> = Vec::new();
        v.push(*self as u8);
        assert(v@ =~= seq![*self as u8]);
        parcel.write_bytes(v.as_slice())
    }
}

impl Read for i8 {
    open spec fn read_spec(bytes: Seq<u8>, pos: int) -> Result<(i8, int), Code> {
        if pos + 1 <= bytes.len() {
            Ok((bytes[pos] as i8, pos + 1))
        } else {
            Err(Code::NotEnoughData)
        }
    }

    fn read(parcel: &mut Parcel) -> (r: Result<i8, Status>) {
        match parcel.read_bytes(1) {
            Ok(v) => Ok(v[0] as i8),
            Err(st) => Err(st),
        }
    }
}

impl Parcelable for i8 {
    open spec fn round_trip_wf(&self) -> bool {
        true
    }

    proof fn lemma_round_trip(&self, bytes: Seq<u8>, pos: int) {
        lemma_splice_parts(bytes, pos, seq![*self as u8]);
        lemma_splice_subrange(bytes, pos, seq![*self as u8]);
        let x = *self;
        assert(((x as u8) as i8) == x) by (bit_vector);
    }
}

impl Write for bool {
    open spec fn write_spec(&self) -> Result<Seq<u8>, Code> {
        Ok(seq![if *self { 1u8 } else { 0u8 }])
    }

    fn write(&self, parcel: &mut Parcel) -> (r: Result<(), Status>) {
        let mut v: Vec<u8> = Vec::new();
        v.push(if *self { 1u8 } else { 0u8 });
        assert(v@ =~= seq![if *self { 1u8 } else { 0u8 }]);
        parcel.write_bytes(v.as_slice())
    }
}

impl Read for bool {
    open spec fn read_spec(bytes: Seq<u8>, pos: int) -> Result<(bool, int), Code> {
        if pos + 1 <= bytes.len() {
            Ok((bytes[pos] != 0, pos + 1))
        } else {
            Err(Code::NotEnoughData)
        }
    }

    fn read(parcel: &mut Parcel) -> (r: Result<bool, Status>) {
        match parcel.read_bytes(1) {
            Ok(v) => Ok(v[0] != 0),
            Err(st) => Err(st),
        }
    }
}

impl Parcelable for bool {
    open spec fn round_trip_wf(&self) -> bool {
        true
    }

    proof fn lemma_round_trip(&self, bytes: Seq<u8>, pos: int) {
        let b = if *self { seq![1u8] } else { seq![0u8] };
        lemma_splice_parts(bytes, pos, b);
        lemma_splice_subrange(bytes, pos, b);
    }
}

/// Little-endian encoding of a signed 32-bit length prefix.
pub open spec fn spec_len_prefix(n: int) -> Seq<u8> {
    spec_u32_to_le_bytes(((n as i32) as u32))
}

/// Relies on `String::from_utf8`: it succeeds exactly on valid UTF-8 input
/// and yields the string those bytes encode.
#[verifier::external_body]
fn string_from_utf8(v: Vec<u8>) -> (r: Option<String>)
    ensures
        r is Some <==> valid_utf8(v@),
        r matches Some(s) ==> s@ == decode_utf8(v@),
{
    String::from_utf8(v).ok()
}

impl Write for Option<String> {
    open spec fn write_spec(&self) -> Result<Seq<u8>, Code> {
        spec_string_opt_enc(self.deep_view())
    }

    fn write(&self, parcel: &mut Parcel) -> (r: Result<(), Status>) {
        proof {
            lemma_auto_spec_u32_to_from_le_bytes();
        }
        match self {
            Option::None => {
                let neg: i32 = -1i32;
                let v = u32_to_le_bytes(neg as u32);
                parcel.write_bytes(v.as_slice())
            },
            Option::Some(s) => {
                let bs = s.as_str().as_bytes();
                if bs.len() > i32::MAX as usize {
                    return Err(Status::with_code(Code::BadValue));
                }
                let n: i32 = bs.len() as i32;
                let mut v = u32_to_le_bytes(n as u32);
                v.extend_from_slice(bs);
                assert(v@ == spec_len_prefix(bs@.len() as int) + bs@);
                parcel.write_bytes(v.as_slice())
            },
        }
    }
}

impl Read for Option<String> {
    open spec fn read_spec(bytes: Seq<u8>, pos: int) -> Result<(Option<Seq<char>>, int), Code> {
        match <i32 as Read>::read_spec(bytes, pos) {
            Err(c) => Err(c),
            Ok(d) => {
                let n = d.0;
                let q = d.1;
                if n < 0 {
                    Ok((None, q))
                } else if q + n <= bytes.len() {
                    if valid_utf8(bytes.subrange(q, q + n)) {
                        Ok((Some(decode_utf8(bytes.subrange(q, q + n))), q + n))
                    } else {
                        Err(Code::BadValue)
                    }
                } else {
                    Err(Code::NotEnoughData)
                }
            },
        }
    }

    fn read(parcel: &mut Parcel) -> (r: Result<Option<String>, Status>) {
        let p0 = parcel.get_data_position();
        let n: i32 = match <i32 as Read>::read(parcel) {
            Ok(v) => v,
            Err(st) => {
                return Err(st);
            },
        };
        if n < 0 {
            return Ok(None);
        }
        match parcel.read_bytes(n as usize) {
            Ok(v) => {
                match string_from_utf8(v) {
                    Option::Some(s) => Ok(Some(s)),
                    Option::None => {
                        let res = parcel.set_data_position(p0);
                        assert(res is Ok);
                        Err(Status::with_code(Code::BadValue))
                    },
                }
            },
            Err(_) => {
                let res = parcel.set_data_position(p0);
                assert(res is Ok);
                Err(Status::with_code(Code::NotEnoughData))
            },
        }
    }
}

/// Encoding of an optional string: a signed 32-bit byte length (minus one for
/// an absent string) followed by the UTF-8 bytes.
pub open spec fn spec_string_opt_enc(m: Option<Seq<char>>) -> Result<Seq<u8>, Code> {
    match m {
        Option::None => Ok(spec_len_prefix(-1)),
        Option::Some(cs) => {
            let b = encode_utf8(cs);
            if b.len() > i32::MAX as int {
                Err(Code::BadValue)
            } else {
                Ok(spec_len_prefix(b.len() as int) + b)
            }
        },
    }
}

/// Byte-level round trip of an optional string at any position.
pub proof fn lemma_string_opt_round_trip(m: Option<Seq<char>>, bytes: Seq<u8>, pos: int)
    requires
        0 <= pos <= bytes.len(),
        spec_string_opt_enc(m) is Ok,
    ensures
        ({
            let b = spec_string_opt_enc(m)->Ok_0;
            <Option<String> as Read>::read_spec(splice(bytes, pos, b), pos) == Ok::<
                (Option<Seq<char>>, int),
                Code,
            >((m, pos + b.len()))
        }),
{
    lemma_auto_spec_u32_to_from_le_bytes();
    let b = spec_string_opt_enc(m)->Ok_0;
    let s2 = splice(bytes, pos, b);
    lemma_splice_parts(bytes, pos, b);
    match m {
        Option::None => {
            assert(s2.subrange(pos, pos + 4) =~= spec_len_prefix(-1));
            let neg: i32 = -1i32;
            assert(spec_u32_from_le_bytes(spec_len_prefix(-1)) == neg as u32);
            assert((neg as u32) as i32 == neg) by (bit_vector);
        },
        Option::Some(cs) => {
            let data = encode_utf8(cs);
            let len = data.len() as int;
            let prefix = spec_len_prefix(len);
            assert(s2.subrange(pos, pos + 4) =~= prefix);
            let n32 = spec_u32_from_le_bytes(prefix) as i32;
            assert({
                let l32 = len as i32;
                spec_u32_from_le_bytes(spec_u32_to_le_bytes(l32 as u32)) as i32 == l32
            }) by {
                lemma_auto_spec_u32_to_from_le_bytes();
                let l32 = len as i32;
                assert((l32 as u32) as i32 == l32) by (bit_vector);
            }
            assert(0 <= len <= i32::MAX as int);
            assert(len as i32 as int == len);
            assert(n32 as int == len);
            assert(s2.subrange(pos + 4, pos + 4 + len) =~= data);
            vstd::utf8::encode_utf8_valid_utf8(cs);
            vstd::utf8::encode_utf8_decode_utf8(cs);
        },
    }
}

impl Parcelable for Option<String> {
    open spec fn round_trip_wf(&self) -> bool {
        true
    }

    proof fn lemma_round_trip(&self, bytes: Seq<u8>, pos: int) {
        lemma_string_opt_round_trip(self.deep_view(), bytes, pos);
    }
}

/// Writing at the end of a buffer appends.
pub proof fn lemma_splice_at_end(s: Seq<u8>, b: Seq<u8>)
    ensures
        splice(s, s.len() as int, b) == s + b,
{
    assert(splice(s, s.len() as int, b) =~= s + b);
}

/// Abstract values of a sequence of values.
pub open spec fn deep_view_seq<T: DeepView>(s: Seq<T>) -> Seq<T::V> {
    Seq::new(s.len(), |i: int| s[i].deep_view())
}

/// Concatenated encodings of the elements of an array, given how many bytes
/// of the size budget are already used; fails with the first element's
/// failure, or with `NoMemory` where the budget runs out.
pub open spec fn write_elems_spec<T: Write>(s: Seq<T>, used: int) -> Result<Seq<u8>, Code>
    decreases s.len(),
{
    if s.len() == 0 {
        Ok(Seq::<u8>::empty())
    } else {
        match s[0].write_spec() {
            Err(c) => Err(c),
            Ok(b) => {
                if used + b.len() > MAX_DATA_SIZE as int {
                    Err(Code::NoMemory)
                } else {
                    match write_elems_spec(s.drop_first(), used + b.len()) {
                        Err(c) => Err(c),
                        Ok(rest) => Ok(b + rest),
                    }
                }
            },
        }
    }
}

/// Encoding of an optional array: a signed 32-bit element count (minus one
/// for an absent array) followed by the element encodings.
pub open spec fn write_array_spec<T: Write>(v: Option<Seq<T>>) -> Result<Seq<u8>, Code> {
    match v {
        Option::None => Ok(spec_len_prefix(-1)),
        Option::Some(s) => {
            if s.len() > i32::MAX as int {
                Err(Code::BadValue)
            } else {
                match write_elems_spec(s, 0) {
                    Err(c) => Err(c),
                    Ok(b) => Ok(spec_len_prefix(s.len() as int) + b),
                }
            }
        },
    }
}

/// Decode of `n` consecutive elements.
pub open spec fn read_elems_spec<T: Read>(bytes: Seq<u8>, pos: int, n: nat) -> Result<
    (Seq<T::V>, int),
    Code,
>
    decreases n,
{
    if n == 0 {
        Ok((Seq::<T::V>::empty(), pos))
    } else {
        match T::read_spec(bytes, pos) {
            Err(c) => Err(c),
            Ok(d) => {
                match read_elems_spec::<T>(bytes, d.1, (n - 1) as nat) {
                    Err(c) => Err(c),
                    Ok(e) => Ok((seq![d.0] + e.0, e.1)),
                }
            },
        }
    }
}

/// Decode of an optional array: any negative element count means absent.
pub open spec fn read_array_spec<T: Read>(bytes: Seq<u8>, pos: int) -> Result<
    (Option<Seq<T::V>>, int),
    Code,
> {
    match <i32 as Read>::read_spec(bytes, pos) {
        Err(c) => Err(c),
        Ok(d) => {
            if d.0 < 0 {
                Ok((Option::None, d.1))
            } else {
                match read_elems_spec::<T>(bytes, d.1, d.0 as nat) {
                    Err(c) => Err(c),
                    Ok(e) => Ok((Option::Some(e.0), e.1)),
                }
            }
        },
    }
}

impl Parcel {
    /// Encode an optional array at the data position: the element count (or
    /// minus one for an absent array), then each element in order.
    #[verifier::loop_isolation(false)]
    pub fn write_array<T: Write>(&mut self, value: Option<&[T]>) -> (r: Result<(), Status>)
        ensures
            match write_array_spec::<T>(
                match value {
                    Option::Some(sl) => Option::Some(sl@),
                    Option::None => Option::None,
                },
            ) {
                Ok(b) => {
                    if old(self)@.pos + b.len() <= MAX_DATA_SIZE as int {
                        ({
                            &&& r is Ok
                            &&& final(self)@.bytes == splice(old(self)@.bytes, old(self)@.pos, b)
                            &&& final(self)@.pos == old(self)@.pos + b.len()
                        })
                    } else {
                        ({
                            &&& (r matches Err(st) && st@ == spec_status_of_code(Code::NoMemory))
                            &&& final(self)@ == old(self)@
                        })
                    }
                },
                Err(c) => {
                    &&& (r matches Err(st) && st@ == spec_status_of_code(c))
                    &&& final(self)@ == old(self)@
                },
            },
    {
        proof {
            lemma_auto_spec_u32_to_from_le_bytes();
        }
        let sl = match value {
            Option::None => {
                let neg: i32 = -1;
                return neg.write(self);
            },
            Option::Some(sl) => sl,
        };
        if sl.len() > i32::MAX as usize {
            return Err(Status::with_code(Code::BadValue));
        }
        let count = sl.len();
        let mut tmp = Parcel::new();
        let mut i: usize = 0;
        proof {
            assert(sl@.skip(0) =~= sl@);
            assert(Seq::<u8>::empty() + write_elems_spec(sl@, 0)->Ok_0 =~= write_elems_spec(
                sl@,
                0,
            )->Ok_0);
        }
        while i < count
            invariant
                count == sl@.len() <= i32::MAX as int,
                0 <= i <= count,
                tmp@.pos == tmp@.bytes.len() <= MAX_DATA_SIZE,
                match write_elems_spec(sl@.skip(i as int), tmp@.bytes.len() as int) {
                    Ok(rest) => write_elems_spec(sl@, 0) == Ok::<Seq<u8>, Code>(
                        tmp@.bytes + rest,
                    ),
                    Err(c) => write_elems_spec(sl@, 0) == Err::<Seq<u8>, Code>(c),
                },
            decreases count - i,
        {
            proof {
                assert(sl@.skip(i as int).drop_first() =~= sl@.skip(i + 1));
                assert(sl@.skip(i as int)[0] == sl@[i as int]);
            }
            let ghost pre_bytes = tmp@.bytes;
            let elem = vstd::slice::slice_index_get(sl, i);
            match elem.write(&mut tmp) {
                Ok(u) => {
                    proof {
                        lemma_splice_at_end(pre_bytes, elem.write_spec()->Ok_0);
                        if write_elems_spec(sl@.skip(i + 1), tmp@.bytes.len() as int) is Ok {
                            let rest = write_elems_spec(
                                sl@.skip(i + 1),
                                tmp@.bytes.len() as int,
                            )->Ok_0;
                            assert(pre_bytes + (elem.write_spec()->Ok_0 + rest) =~= tmp@.bytes
                                + rest);
                        }
                    }
                },
                Err(st) => {
                    proof {
                        let used = tmp@.bytes.len() as int;
                        let rem = sl@.skip(i as int);
                        assert(rem.len() == count - i);
                        assert(rem[0] == sl@[i as int]);
                        assert(*elem == sl@[i as int]);
                        if sl@[i as int].write_spec() is Ok {
                            let bi = sl@[i as int].write_spec()->Ok_0;
                            assert(st@ == spec_status_of_code(Code::NoMemory));
                            assert(used + bi.len() > MAX_DATA_SIZE as int);
                            assert(write_elems_spec(rem, used) == Err::<Seq<u8>, Code>(
                                Code::NoMemory,
                            ));
                        } else {
                            let c = sl@[i as int].write_spec()->Err_0;
                            assert(st@ == spec_status_of_code(c));
                            assert(write_elems_spec(rem, used) == Err::<Seq<u8>, Code>(c));
                        }
                        assert(write_elems_spec(sl@, 0) is Err);
                    }
                    return Err(st);
                },
            }
            i += 1;
        }
        proof {
            assert(sl@.skip(count as int) =~= Seq::<T>::empty());
            assert(write_elems_spec(sl@, 0) == Ok::<Seq<u8>, Code>(tmp@.bytes)) by {
                assert(tmp@.bytes + Seq::<u8>::empty() =~= tmp@.bytes);
            }
        }
        let n32: i32 = count as i32;
        let mut v = u32_to_le_bytes(n32 as u32);
        proof {
            use_type_invariant(&tmp);
        }
        let mut td: Vec<u8> = Vec::new();
        tmp.pos = 0;
        core::mem::swap(&mut td, &mut tmp.data);
        v.append(&mut td);
        assert(v@ == spec_len_prefix(count as int) + write_elems_spec(sl@, 0)->Ok_0);
        self.write_bytes(v.as_slice())
    }

    /// Decode an optional array at the data position: the element count (any
    /// negative count means absent), then each element in order.  On failure
    /// the data position is unchanged.
    #[verifier::loop_isolation(false)]
    pub fn read_array<T: Read>(&mut self) -> (r: Result<Option<Vec<T>>, Status>)
        ensures
            final(self)@.bytes == old(self)@.bytes,
            match read_array_spec::<T>(old(self)@.bytes, old(self)@.pos) {
                Ok(d) => {
                    &&& (r matches Ok(x) && x.deep_view() == d.0)
                    &&& final(self)@.pos == d.1
                },
                Err(c) => {
                    &&& (r matches Err(st) && st@ == spec_status_of_code(c))
                    &&& final(self)@.pos == old(self)@.pos
                },
            },
    {
        let ghost bytes0 = self@.bytes;
        let ghost p_start = self@.pos;
        let p0 = self.get_data_position();
        let n: i32 = match self.read::<i32>() {
            Ok(v) => v,
            Err(st) => {
                return Err(st);
            },
        };
        if n < 0 {
            return Ok(None);
        }
        let count = n as usize;
        let ghost q0 = self@.pos;
        let mut out: Vec<T> = Vec::new();
        let mut i: usize = 0;
        proof {
            assert(out.deep_view() =~= Seq::<T::V>::empty());
        }
        while i < count
            invariant
                self@.bytes == bytes0,
                0 <= i <= count,
                out@.len() == i,
                p_start == p0 as int,
                0 <= p_start <= bytes0.len(),
                match read_elems_spec::<T>(bytes0, self@.pos, (count - i) as nat) {
                    Ok(e) => read_elems_spec::<T>(bytes0, q0, count as nat) == Ok::<
                        (Seq<T::V>, int),
                        Code,
                    >((out.deep_view() + e.0, e.1)),
                    Err(c) => read_elems_spec::<T>(bytes0, q0, count as nat) == Err::<
                        (Seq<T::V>, int),
                        Code,
                    >(c),
                },
            decreases count - i,
        {
            let ghost pre_out = out.deep_view();
            match T::read(self) {
                Ok(x) => {
                    out.push(x);
                    proof {
                        assert(out.deep_view() =~= pre_out.push(x.deep_view()));
                        if read_elems_spec::<T>(bytes0, self@.pos, (count - i - 1) as nat) is Ok {
                            let e = read_elems_spec::<T>(
                                bytes0,
                                self@.pos,
                                (count - i - 1) as nat,
                            )->Ok_0;
                            assert(pre_out + (seq![x.deep_view()] + e.0) =~= out.deep_view()
                                + e.0);
                        }
                    }
                },
                Err(st) => {
                    proof {
                        assert(read_elems_spec::<T>(bytes0, self@.pos, (count - i) as nat)
                            is Err);
                    }
                    let res = self.set_data_position(p0);
                    assert(res is Ok);
                    return Err(st);
                },
            }
            i += 1;
        }
        proof {
            assert(out.deep_view() + Seq::<T::V>::empty() =~= out.deep_view());
        }
        Ok(Some(out))
    }
}

impl<T: Write> Write for Option<Vec<T>> {
    open spec fn write_spec(&self) -> Result<Seq<u8>, Code> {
        write_array_spec::<T>(
            match self {
                Option::Some(v) => Option::Some(v@),
                Option::None => Option::None,
            },
        )
    }

    fn write(&self, parcel: &mut Parcel) -> (r: Result<(), Status>) {
        match self {
            Option::None => parcel.write_array::<T>(None),
            Option::Some(v) => parcel.write_array(Some(v.as_slice())),
        }
    }
}

impl<T: Read> Read for Option<Vec<T>> {
    open spec fn read_spec(bytes: Seq<u8>, pos: int) -> Result<(Option<Seq<T::V>>, int), Code> {
        read_array_spec::<T>(bytes, pos)
    }

    fn read(parcel: &mut Parcel) -> (r: Result<Option<Vec<T>>, Status>) {
        parcel.read_array::<T>()
    }
}

/// Consecutive elements written one after another are decoded back in order:
/// the inductive heart of the array round trip.
proof fn lemma_read_elems_of_concat<T: Parcelable>(s: Seq<T>, used: int, full: Seq<u8>, pos: int)
    requires
        forall|k: int| 0 <= k < s.len() ==> s[k].round_trip_wf(),
        write_elems_spec(s, used) is Ok,
        0 <= pos,
        pos + write_elems_spec(s, used)->Ok_0.len() <= full.len(),
        full.subrange(pos, pos + write_elems_spec(s, used)->Ok_0.len()) == write_elems_spec(
            s,
            used,
        )->Ok_0,
    ensures
        read_elems_spec::<T>(full, pos, s.len()) == Ok::<(Seq<T::V>, int), Code>(
            (deep_view_seq(s), pos + write_elems_spec(s, used)->Ok_0.len()),
        ),
    decreases s.len(),
{
    let b = write_elems_spec(s, used)->Ok_0;
    if s.len() == 0 {
        assert(deep_view_seq(s) =~= Seq::<T::V>::empty());
    } else {
        let e0 = s[0];
        let b0 = e0.write_spec()->Ok_0;
        let rest = write_elems_spec(s.drop_first(), used + b0.len())->Ok_0;
        assert(b == b0 + rest);
        assert(full.subrange(pos, pos + b0.len()) =~= b0) by {
            assert forall|k: int| 0 <= k < b0.len() implies full[pos + k] == b0[k] by {
                assert(full.subrange(pos, pos + b.len())[k] == full[pos + k]);
                assert(b[k] == (b0 + rest)[k]);
            }
        }
        e0.lemma_round_trip(full, pos);
        lemma_splice_identity(full, pos, b0);
        assert(full.subrange(pos + b0.len(), pos + b0.len() + rest.len()) =~= rest) by {
            assert forall|k: int| 0 <= k < rest.len() implies full[pos + b0.len() + k]
                == rest[k] by {
                assert(full.subrange(pos, pos + b.len())[b0.len() + k] == full[pos + b0.len()
                    + k]);
                assert(b[b0.len() + k] == (b0 + rest)[b0.len() + k]);
            }
        }
        lemma_read_elems_of_concat::<T>(s.drop_first(), used + b0.len(), full, pos + b0.len());
        assert(deep_view_seq(s) =~= seq![e0.deep_view()] + deep_view_seq(s.drop_first()));
    }
}

impl<T: Parcelable> Parcelable for Option<Vec<T>> {
    open spec fn round_trip_wf(&self) -> bool {
        match self {
            Option::None => true,
            Option::Some(v) => forall|k: int| 0 <= k < v@.len() ==> v@[k].round_trip_wf(),
        }
    }

    proof fn lemma_round_trip(&self, bytes: Seq<u8>, pos: int) {
        lemma_auto_spec_u32_to_from_le_bytes();
        let b = self.write_spec()->Ok_0;
        let s2 = splice(bytes, pos, b);
        lemma_splice_parts(bytes, pos, b);
        match self {
            Option::None => {
                assert(s2.subrange(pos, pos + 4) =~= spec_len_prefix(-1));
                let neg: i32 = -1i32;
                assert(spec_u32_from_le_bytes(spec_len_prefix(-1)) == neg as u32);
                assert((neg as u32) as i32 == neg) by (bit_vector);
            },
            Option::Some(v) => {
                let elems = write_elems_spec(v@, 0)->Ok_0;
                let len = v@.len() as int;
                let prefix = spec_len_prefix(len);
                assert(s2.subrange(pos, pos + 4) =~= prefix);
                let l32 = len as i32;
                assert((l32 as u32) as i32 == l32) by (bit_vector);
                assert(len as i32 as int == len);
                assert(spec_u32_from_le_bytes(prefix) as i32 as int == len);
                assert(s2.subrange(pos + 4, pos + 4 + elems.len()) =~= elems) by {
                    assert forall|k: int| 0 <= k < elems.len() implies s2[pos + 4 + k]
                        == elems[k] by {
                        assert(b[4 + k] == (prefix + elems)[4 + k]);
                    }
                }
                lemma_read_elems_of_concat::<T>(v@, 0, s2, pos + 4);
                assert(v.deep_view() =~= deep_view_seq(v@));
            },
        }
    }
}

/// Little-endian encoding of a signed 32-bit value.
pub open spec fn spec_i32_enc(v: i32) -> Seq<u8> {
    spec_u32_to_le_bytes(v as u32)
}

/// Byte-level round trip of a signed 32-bit value at any position.
pub proof fn lemma_i32_round_trip(v: i32, bytes: Seq<u8>, pos: int)
    requires
        0 <= pos <= bytes.len(),
    ensures
        <i32 as Read>::read_spec(splice(bytes, pos, spec_i32_enc(v)), pos) == Ok::<
            (i32, int),
            Code,
        >((v, pos + 4)),
{
    lemma_auto_spec_u32_to_from_le_bytes();
    lemma_splice_parts(bytes, pos, spec_i32_enc(v));
    lemma_splice_subrange(bytes, pos, spec_i32_enc(v));
    assert(((v as u32) as i32) == v) by (bit_vector);
}

impl Write for Status {
    open spec fn write_spec(&self) -> Result<Seq<u8>, Code> {
        let v = self@;
        if v.exception == Exception::TransactionFailed {
            Err(v.code)
        } else {
            let head = spec_i32_enc(spec_exception_raw(v.exception) as i32);
            if v.exception == Exception::NoException {
                Ok(head)
            } else {
                match spec_string_opt_enc(v.message) {
                    Err(c) => Err(c),
                    Ok(mb) => {
                        if v.exception == Exception::ServiceSpecific {
                            Ok(head + mb + spec_i32_enc(v.service_specific_error))
                        } else {
                            Ok(head + mb)
                        }
                    },
                }
            }
        }
    }

    fn write(&self, parcel: &mut Parcel) -> (r: Result<(), Status>) {
        let ex = self.get_exception();
        if ex == Exception::TransactionFailed {
            return Err(Status::with_code(self.get_code()));
        }
        let ghost head = spec_i32_enc(spec_exception_raw(self@.exception) as i32);
        let mut tmp = Parcel::new();
        let exc_raw: i32 = ex.as_raw_exception();
        match exc_raw.write(&mut tmp) {
            Ok(u) => {},
            Err(st) => {
                proof {
                    lemma_auto_spec_u32_to_from_le_bytes();
                }
                return Err(st);
            },
        }
        proof {
            assert(tmp@.bytes =~= head);
        }
        if ex == Exception::NoException {
            proof {
                use_type_invariant(&tmp);
            }
            let mut td: Vec<u8> = Vec::new();
            tmp.pos = 0;
            core::mem::swap(&mut td, &mut tmp.data);
            return parcel.write_bytes(td.as_slice());
        }
        let msg = self.get_message();
        proof {
            assert(msg.deep_view() == self@.message);
        }
        match msg.write(&mut tmp) {
            Ok(u) => {
                proof {
                    lemma_splice_at_end(head, spec_string_opt_enc(self@.message)->Ok_0);
                }
            },
            Err(st) => {
                proof {
                    lemma_auto_spec_u32_to_from_le_bytes();
                    if spec_string_opt_enc(self@.message) is Ok {
                        let mb = spec_string_opt_enc(self@.message)->Ok_0;
                        assert(tmp@.pos + mb.len() > MAX_DATA_SIZE as int);
                        assert(self.write_spec()->Ok_0.len() >= 4 + mb.len());
                    }
                }
                return Err(st);
            },
        }
        if ex == Exception::ServiceSpecific {
            let e: i32 = self.get_service_specific_error();
            let ghost mb = spec_string_opt_enc(self@.message)->Ok_0;
            match e.write(&mut tmp) {
                Ok(u) => {
                    proof {
                        lemma_splice_at_end(head + mb, spec_i32_enc(e));
                        assert((head + mb) + spec_i32_enc(e) =~= head + mb + spec_i32_enc(e));
                    }
                },
                Err(st) => {
                    proof {
                        lemma_auto_spec_u32_to_from_le_bytes();
                        let mb = spec_string_opt_enc(self@.message)->Ok_0;
                        assert(tmp@.pos + 4 > MAX_DATA_SIZE as int);
                        assert(self.write_spec()->Ok_0.len() == 4 + mb.len() + 4);
                    }
                    return Err(st);
                },
            }
        }
        proof {
            use_type_invariant(&tmp);
        }
        let mut td: Vec<u8> = Vec::new();
        tmp.pos = 0;
        core::mem::swap(&mut td, &mut tmp.data);
        parcel.write_bytes(td.as_slice())
    }
}

impl Read for Status {
    open spec fn read_spec(bytes: Seq<u8>, pos: int) -> Result<(StatusView, int), Code> {
        match <i32 as Read>::read_spec(bytes, pos) {
            Err(c) => Err(c),
            Ok(d) => {
                let ex = spec_exception_from_raw(d.0 as int);
                if ex == Exception::NoException {
                    Ok((spec_status_of_code(Code::Success), d.1))
                } else {
                    match <Option<String> as Read>::read_spec(bytes, d.1) {
                        Err(c) => Err(c),
                        Ok(m) => {
                            if ex == Exception::ServiceSpecific {
                                match <i32 as Read>::read_spec(bytes, m.1) {
                                    Err(c) => Err(c),
                                    Ok(e) => Ok(
                                        (
                                            StatusView {
                                                code: Code::Success,
                                                exception: ex,
                                                message: m.0,
                                                service_specific_error: e.0,
                                            },
                                            e.1,
                                        ),
                                    ),
                                }
                            } else {
                                Ok(
                                    (
                                        StatusView {
                                            code: if ex == Exception::TransactionFailed {
                                                Code::FailedTransaction
                                            } else {
                                                Code::Success
                                            },
                                            exception: ex,
                                            message: m.0,
                                            service_specific_error: 0,
                                        },
                                        m.1,
                                    ),
                                )
                            }
                        },
                    }
                }
            },
        }
    }

    fn read(parcel: &mut Parcel) -> (r: Result<Status, Status>) {
        let p0 = parcel.get_data_position();
        let exc_raw: i32 = match parcel.read::<i32>() {
            Ok(v) => v,
            Err(st) => {
                return Err(st);
            },
        };
        let ex = Exception::from_raw_exception(exc_raw);
        if ex == Exception::NoException {
            return Ok(Status::with_code(Code::Success));
        }
        let msg: Option<String> = match parcel.read::<Option<String>>() {
            Ok(m) => m,
            Err(st) => {
                let res = parcel.set_data_position(p0);
                assert(res is Ok);
                return Err(st);
            },
        };
        if ex == Exception::ServiceSpecific {
            let e: i32 = match parcel.read::<i32>() {
                Ok(v) => v,
                Err(st) => {
                    let res = parcel.set_data_position(p0);
                    assert(res is Ok);
                    return Err(st);
                },
            };
            Ok(Status::from_parts(ex, msg, e))
        } else {
            Ok(Status::from_parts(ex, msg, 0))
        }
    }
}

impl Parcelable for Status {
    open spec fn round_trip_wf(&self) -> bool {
        self@.wf()
    }

    proof fn lemma_round_trip(&self, bytes: Seq<u8>, pos: int) {
        lemma_auto_spec_u32_to_from_le_bytes();
        let v = self@;
        let b = self.write_spec()->Ok_0;
        let s2 = splice(bytes, pos, b);
        lemma_splice_parts(bytes, pos, b);
        let exr = spec_exception_raw(v.exception) as i32;
        let head = spec_i32_enc(exr);
        lemma_exception_raw_round_trip(v.exception);
        assert(v.exception != Exception::TransactionFailed);
        assert(head.len() == 4);
        if v.exception == Exception::NoException {
            assert(b == head);
        } else if v.exception == Exception::ServiceSpecific {
            assert(b == head + spec_string_opt_enc(v.message)->Ok_0 + spec_i32_enc(
                v.service_specific_error,
            ));
        } else {
            assert(b == head + spec_string_opt_enc(v.message)->Ok_0);
        }
        assert(s2.subrange(pos, pos + 4) =~= head);
        lemma_i32_round_trip(exr, s2, pos);
        lemma_splice_identity(s2, pos, head);
        if v.exception == Exception::NoException {
            assert(v == spec_status_of_code(Code::Success));
        } else {
            let mb = spec_string_opt_enc(v.message)->Ok_0;
            assert(s2.subrange(pos + 4, pos + 4 + mb.len()) =~= mb) by {
                assert forall|k: int| 0 <= k < mb.len() implies s2[pos + 4 + k] == mb[k] by {
                    assert(b[4 + k] == mb[k]);
                }
            }
            lemma_string_opt_round_trip(v.message, s2, pos + 4);
            lemma_splice_identity(s2, pos + 4, mb);
            if v.exception == Exception::ServiceSpecific {
                let se = spec_i32_enc(v.service_specific_error);
                assert(s2.subrange(pos + 4 + mb.len(), pos + 4 + mb.len() + 4) =~= se) by {
                    assert forall|k: int| 0 <= k < 4 implies s2[pos + 4 + mb.len() + k]
                        == se[k] by {
                        assert(b[4 + mb.len() + k] == (head + mb + se)[4 + mb.len() + k]);
                    }
                }
                lemma_i32_round_trip(v.service_specific_error, s2, pos + 4 + mb.len());
                lemma_splice_identity(s2, pos + 4 + mb.len(), se);
            }
        }
    }
}

/// Encoding of an optional file descriptor: its number, or minus one for an
/// absent descriptor.  Real descriptor transfer is the transport's duty; the
/// parcel carries the number.
pub open spec fn spec_fd_enc(fd: Option<i32>) -> Seq<u8> {
    match fd {
        Option::None => spec_i32_enc(-1i32),
        Option::Some(n) => spec_i32_enc(n),
    }
}

impl Parcel {
    /// Encode an optional file descriptor number at the data position; an
    /// absent descriptor is written as minus one.
    pub fn write_file_descriptor(&mut self, fd: Option<i32>) -> (r: Result<(), Status>)
        ensures
            if old(self)@.pos + 4 <= MAX_DATA_SIZE as int {
                ({
                    &&& r is Ok
                    &&& final(self)@.bytes == splice(
                        old(self)@.bytes,
                        old(self)@.pos,
                        spec_fd_enc(fd),
                    )
                    &&& final(self)@.pos == old(self)@.pos + 4
                })
            } else {
                ({
                    &&& (r matches Err(st) && st@ == spec_status_of_code(Code::NoMemory))
                    &&& final(self)@ == old(self)@
                })
            },
    {
        proof {
            lemma_auto_spec_u32_to_from_le_bytes();
        }
        let n: i32 = match fd {
            Option::None => -1,
            Option::Some(n) => n,
        };
        n.write(self)
    }

    /// Decode an optional file descriptor number at the data position; any
    /// negative number means absent.
    pub fn read_file_descriptor(&mut self) -> (r: Result<Option<i32>, Status>)
        ensures
            final(self)@.bytes == old(self)@.bytes,
            match <i32 as Read>::read_spec(old(self)@.bytes, old(self)@.pos) {
                Ok(d) => {
                    &&& (r matches Ok(x) && x == (if d.0 >= 0 {
                        Some(d.0)
                    } else {
                        None
                    }))
                    &&& final(self)@.pos == d.1
                },
                Err(c) => {
                    &&& (r matches Err(st) && st@ == spec_status_of_code(c))
                    &&& final(self)@.pos == old(self)@.pos
                },
            },
    {
        match self.read::<i32>() {
            Ok(n) => {
                if n >= 0 {
                    Ok(Some(n))
                } else {
                    Ok(None)
                }
            },
            Err(st) => Err(st),
        }
    }
}

/// Law: a value written into a parcel is reproduced exactly by a read at the
/// position where it was written, whatever lies around it — including the
/// distinction between absent and present-but-empty arrays and strings.
pub proof fn lemma_parcel_round_trip<T: Parcelable>(v: &T, bytes: Seq<u8>, pos: int)
    requires
        v.round_trip_wf(),
        0 <= pos <= bytes.len(),
        v.write_spec() is Ok,
    ensures
        ({
            let b = v.write_spec()->Ok_0;
            T::read_spec(splice(bytes, pos, b), pos) == Ok::<(T::V, int), Code>(
                (v.deep_view(), pos + b.len()),
            )
        }),
{
    v.lemma_round_trip(bytes, pos);
}

/// Law: a status built from an exception and a message, written and read
/// back, carries the same exception and the same message.
pub proof fn lemma_status_exception_message_round_trip(
    st: &Status,
    ex: Exception,
    msg: Seq<char>,
    bytes: Seq<u8>,
    pos: int,
)
    requires
        st@ == crate::status::spec_status_of_exception(ex, Some(msg)),
        ex != Exception::NoException,
        ex != Exception::TransactionFailed,
        encode_utf8(msg).len() <= i32::MAX as int,
        0 <= pos <= bytes.len(),
    ensures
        ({
            let b = st.write_spec()->Ok_0;
            let d = <Status as Read>::read_spec(splice(bytes, pos, b), pos);
            d matches Ok(p) && p.0.exception == ex && p.0.message == Some(msg)
        }),
{
    st.lemma_round_trip(bytes, pos);
}

/// Law: a status built from a service-specific error and a message, written
/// and read back, carries the same error number and the same message.
pub proof fn lemma_status_service_error_round_trip(
    st: &Status,
    error: i32,
    msg: Seq<char>,
    bytes: Seq<u8>,
    pos: int,
)
    requires
        st@ == crate::status::spec_status_of_service_error(error, Some(msg)),
        encode_utf8(msg).len() <= i32::MAX as int,
        0 <= pos <= bytes.len(),
    ensures
        ({
            let b = st.write_spec()->Ok_0;
            let d = <Status as Read>::read_spec(splice(bytes, pos, b), pos);
            d matches Ok(p) && p.0.service_specific_error == error && p.0.message == Some(msg)
        }),
{
    st.lemma_round_trip(bytes, pos);
}

/// Law: an absent string or array is encoded differently from a present but
/// empty one, so the two are never confused on the wire.
pub proof fn lemma_absent_differs_from_empty<T: Write>()
    ensures
        spec_string_opt_enc(None) != spec_string_opt_enc(Some(Seq::<char>::empty())),
        write_array_spec::<T>(None) != write_array_spec::<T>(Some(Seq::<T>::empty())),
{
    lemma_auto_spec_u32_to_from_le_bytes();
    let absent = spec_len_prefix(-1);
    let empty = spec_len_prefix(0);
    assert(absent != empty) by {
        assert(((-1i32) as u32) != ((0i32) as u32)) by (bit_vector);
        if absent == empty {
            assert(spec_u32_from_le_bytes(absent) == spec_u32_from_le_bytes(empty));
        }
    }
    assert(encode_utf8(Seq::<char>::empty()) =~= Seq::<u8>::empty());
    assert(empty + encode_utf8(Seq::<char>::empty()) =~= empty);
    assert(write_elems_spec::<T>(Seq::<T>::empty(), 0) == Ok::<Seq<u8>, Code>(
        Seq::<u8>::empty(),
    ));
    assert(empty + Seq::<u8>::empty() =~= empty);
}

} // verus!
