//! The scalar type system and the binary value decoders.
//!
//! Binary data in a DODS response is big-endian. Floating-point values are
//! decoded to their IEEE-754 bit patterns (`u32` for `Float32`, `u64` for
//! `Float64`): the byte-to-bits step is exact and fully specified here, and
//! the bits carry every piece of information of the wire value.

use vstd::prelude::*;

use crate::errors::Error;
use crate::text::match_at;

verus! {

/// The nine DAP scalar kinds.
#[derive(Clone, Copy, Debug, PartialEq, Eq, Structural)]
pub enum DataType {
    Byte,
    Int16,
    UInt16,
    Int32,
    UInt32,
    Float32,
    Float64,
    String,
    URL,
}

impl DataType {
    /// The fixed width in bytes of one element on the wire; the two text
    /// kinds have no fixed width and report 0.
    pub open spec fn width(self) -> nat {
        match self {
            DataType::Byte => 1,
            DataType::Int16 => 2,
            DataType::UInt16 => 2,
            DataType::Int32 => 4,
            DataType::UInt32 => 4,
            DataType::Float32 => 4,
            DataType::Float64 => 8,
            DataType::String => 0,
            DataType::URL => 0,
        }
    }

    /// The seven fixed-width kinds.
    pub open spec fn is_numeric(self) -> bool {
        !(self is String || self is URL)
    }

    /// The fixed byte width of the kind (0 for the text kinds).
    pub fn byte_count(&self) -> (r: usize)
        ensures
            r == self.width(),
    {
        match self {
            DataType::Byte => 1,
            DataType::Int16 => 2,
            DataType::UInt16 => 2,
            DataType::Int32 => 4,
            DataType::UInt32 => 4,
            DataType::Float32 => 4,
            DataType::Float64 => 8,
            DataType::String => 0,
            DataType::URL => 0,
        }
    }

    /// The result of reading one scalar-kind token at position `i` of `s`:
    /// the position after the token and the kind, or `None` when no token
    /// starts there.
    pub open spec fn spec_parse(s: Seq<char>, i: int) -> Option<(int, DataType)> {
        if match_at(s, i, "Byte"@) {
            Some((i + "Byte"@.len(), DataType::Byte))
        } else if match_at(s, i, "Int16"@) {
            Some((i + "Int16"@.len(), DataType::Int16))
        } else if match_at(s, i, "UInt16"@) {
            Some((i + "UInt16"@.len(), DataType::UInt16))
        } else if match_at(s, i, "Int32"@) {
            Some((i + "Int32"@.len(), DataType::Int32))
        } else if match_at(s, i, "UInt32"@) {
            Some((i + "UInt32"@.len(), DataType::UInt32))
        } else if match_at(s, i, "Float32"@) {
            Some((i + "Float32"@.len(), DataType::Float32))
        } else if match_at(s, i, "Float64"@) {
            Some((i + "Float64"@.len(), DataType::Float64))
        } else if match_at(s, i, "String"@) {
            Some((i + "String"@.len(), DataType::String))
        } else if match_at(s, i, "URL"@) {
            Some((i + "URL"@.len(), DataType::URL))
        } else {
            None
        }
    }

    /// Reads one scalar-kind token at position `from` of `s`.
    pub fn parse(s: &str, from: usize) -> (r: Option<(usize, DataType)>)
        ensures
            r is Some <==> Self::spec_parse(s@, from as int) is Some,
            r matches Some(p) ==> Self::spec_parse(s@, from as int) == Some(
                (p.0 as int, p.1),
            ) && from < p.0 <= s@.len(),
    {
        let _sn = s.unicode_len();
        proof {
            reveal_strlit("Byte");
            reveal_strlit("Int16");
            reveal_strlit("UInt16");
            reveal_strlit("Int32");
            reveal_strlit("UInt32");
            reveal_strlit("Float32");
            reveal_strlit("Float64");
            reveal_strlit("String");
            reveal_strlit("URL");
        }
        if crate::text::match_lit(s, from, "Byte") {
            Some((from + 4, DataType::Byte))
        } else if crate::text::match_lit(s, from, "Int16") {
            Some((from + 5, DataType::Int16))
        } else if crate::text::match_lit(s, from, "UInt16") {
            Some((from + 6, DataType::UInt16))
        } else if crate::text::match_lit(s, from, "Int32") {
            Some((from + 5, DataType::Int32))
        } else if crate::text::match_lit(s, from, "UInt32") {
            Some((from + 6, DataType::UInt32))
        } else if crate::text::match_lit(s, from, "Float32") {
            Some((from + 7, DataType::Float32))
        } else if crate::text::match_lit(s, from, "Float64") {
            Some((from + 7, DataType::Float64))
        } else if crate::text::match_lit(s, from, "String") {
            Some((from + 6, DataType::String))
        } else if crate::text::match_lit(s, from, "URL") {
            Some((from + 3, DataType::URL))
        } else {
            None
        }
    }
}

/// One scalar value. Float kinds hold IEEE-754 bit patterns.
#[derive(Clone, Debug)]
pub enum DataValue {
    Byte(i8),
    Int16(i16),
    UInt16(u16),
    Int32(i32),
    UInt32(u32),
    Float32(u32),
    Float64(u64),
    String(String),
    URL(String),
}

/// One typed array of decoded values. Float kinds hold IEEE-754 bit
/// patterns.
#[derive(Clone, Debug)]
pub enum DataArray {
    Byte(Vec<i8>),
    Int16(Vec<i16>),
    UInt16(Vec<u16>),
    Int32(Vec<i32>),
    UInt32(Vec<u32>),
    Float32(Vec<u32>),
    Float64(Vec<u64>),
    String(Vec<String>),
    URL(Vec<String>),
}

/// The mathematical contents of a `DataArray`.
pub enum DataArrayView {
    Byte(Seq<i8>),
    Int16(Seq<i16>),
    UInt16(Seq<u16>),
    Int32(Seq<i32>),
    UInt32(Seq<u32>),
    Float32(Seq<u32>),
    Float64(Seq<u64>),
    String(Seq<Seq<char>>),
    URL(Seq<Seq<char>>),
}

impl View for DataArray {
    type V = DataArrayView;

    open spec fn view(&self) -> DataArrayView {
        match self {
            DataArray::Byte(v) => DataArrayView::Byte(v@),
            DataArray::Int16(v) => DataArrayView::Int16(v@),
            DataArray::UInt16(v) => DataArrayView::UInt16(v@),
            DataArray::Int32(v) => DataArrayView::Int32(v@),
            DataArray::UInt32(v) => DataArrayView::UInt32(v@),
            DataArray::Float32(v) => DataArrayView::Float32(v@),
            DataArray::Float64(v) => DataArrayView::Float64(v@),
            DataArray::String(v) => DataArrayView::String(
                v@.map_values(|s: String| s@),
            ),
            DataArray::URL(v) => DataArrayView::URL(v@.map_values(|s: String| s@)),
        }
    }
}

/// The big-endian 16-bit value at offset `i`.
pub open spec fn be16(b: Seq<u8>, i: int) -> int {
    b[i] * 0x100 + b[i + 1]
}

/// The big-endian 32-bit value at offset `i`.
pub open spec fn be32(b: Seq<u8>, i: int) -> int {
    b[i] * 0x1000000 + b[i + 1] * 0x10000 + b[i + 2] * 0x100 + b[i + 3]
}

/// The big-endian 64-bit value at offset `i`.
pub open spec fn be64(b: Seq<u8>, i: int) -> int {
    be32(b, i) * 0x100000000 + be32(b, i + 4)
}

/// Reads a big-endian `u16`.
pub fn read_be_u16(b: &[u8], i: usize) -> (r: u16)
    requires
        i + 2 <= b@.len(),
    ensures
        r == be16(b@, i as int),
{
    (b[i] as u16) * 0x100 + (b[i + 1] as u16)
}

/// Reads a big-endian `u32`.
pub fn read_be_u32(b: &[u8], i: usize) -> (r: u32)
    requires
        i + 4 <= b@.len(),
    ensures
        r == be32(b@, i as int),
{
    (b[i] as u32) * 0x1000000 + (b[i + 1] as u32) * 0x10000 + (b[i + 2] as u32) * 0x100
        + (b[i + 3] as u32)
}

/// Reads a big-endian `u64`.
pub fn read_be_u64(b: &[u8], i: usize) -> (r: u64)
    requires
        i + 8 <= b@.len(),
    ensures
        r == be64(b@, i as int),
{
    let _n = b.len();
    (read_be_u32(b, i) as u64) * 0x100000000 + (read_be_u32(b, i + 4) as u64)
}

/// The `n` signed bytes decoded from `b` starting at `off`.
pub open spec fn dec_i8(b: Seq<u8>, off: int, n: nat) -> Seq<i8> {
    Seq::new(n, |j: int| b[off + j] as i8)
}

/// The `n` big-endian `i16` values starting at `off`.
pub open spec fn dec_i16(b: Seq<u8>, off: int, n: nat) -> Seq<i16> {
    Seq::new(n, |j: int| be16(b, off + 2 * j) as i16)
}

/// The `n` big-endian `u16` values starting at `off`.
pub open spec fn dec_u16(b: Seq<u8>, off: int, n: nat) -> Seq<u16> {
    Seq::new(n, |j: int| be16(b, off + 2 * j) as u16)
}

/// The `n` big-endian `i32` values starting at `off`.
pub open spec fn dec_i32(b: Seq<u8>, off: int, n: nat) -> Seq<i32> {
    Seq::new(n, |j: int| be32(b, off + 4 * j) as i32)
}

/// The `n` big-endian `u32` values starting at `off`.
pub open spec fn dec_u32(b: Seq<u8>, off: int, n: nat) -> Seq<u32> {
    Seq::new(n, |j: int| be32(b, off + 4 * j) as u32)
}

/// The `n` big-endian `u64` values starting at `off`.
pub open spec fn dec_u64(b: Seq<u8>, off: int, n: nat) -> Seq<u64> {
    Seq::new(n, |j: int| be64(b, off + 8 * j) as u64)
}

fn decode_i8s(b: &[u8], off: usize, n: usize) -> (r: Vec<i8>)
    requires
        off + n <= b@.len(),
    ensures
        r@ == dec_i8(b@, off as int, n as nat),
{
    let _bn = b.len();
    let mut v: Vec<i8> = Vec::new();
    let mut j: usize = 0;
    while j < n
        invariant
            off + n <= b@.len() <= usize::MAX,
            j <= n,
            v@.len() == j,
            forall|k: int| 0 <= k < j ==> v@[k] == b@[off + k] as i8,
        decreases n - j,
    {
        v.push(b[off + j] as i8);
        j += 1;
    }
    proof {
        assert(v@ =~= dec_i8(b@, off as int, n as nat));
    }
    v
}

fn decode_i16s(b: &[u8], off: usize, n: usize) -> (r: Vec<i16>)
    requires
        off + n * 2 <= b@.len(),
    ensures
        r@ == dec_i16(b@, off as int, n as nat),
{
    let _bn = b.len();
    let mut v: Vec<i16> = Vec::new();
    let mut j: usize = 0;
    while j < n
        invariant
            off + n * 2 <= b@.len() <= usize::MAX,
            j <= n,
            v@.len() == j,
            forall|k: int| 0 <= k < j ==> v@[k] == be16(b@, off + 2 * k) as i16,
        decreases n - j,
    {
        v.push(read_be_u16(b, off + j * 2) as i16);
        j += 1;
    }
    proof {
        assert(v@ =~= dec_i16(b@, off as int, n as nat));
    }
    v
}

fn decode_u16s(b: &[u8], off: usize, n: usize) -> (r: Vec<u16>)
    requires
        off + n * 2 <= b@.len(),
    ensures
        r@ == dec_u16(b@, off as int, n as nat),
{
    let _bn = b.len();
    let mut v: Vec<u16> = Vec::new();
    let mut j: usize = 0;
    while j < n
        invariant
            off + n * 2 <= b@.len() <= usize::MAX,
            j <= n,
            v@.len() == j,
            forall|k: int| 0 <= k < j ==> v@[k] == be16(b@, off + 2 * k) as u16,
        decreases n - j,
    {
        v.push(read_be_u16(b, off + j * 2));
        j += 1;
    }
    proof {
        assert(v@ =~= dec_u16(b@, off as int, n as nat));
    }
    v
}

fn decode_i32s(b: &[u8], off: usize, n: usize) -> (r: Vec<i32>)
    requires
        off + n * 4 <= b@.len(),
    ensures
        r@ == dec_i32(b@, off as int, n as nat),
{
    let _bn = b.len();
    let mut v: Vec<i32> = Vec::new();
    let mut j: usize = 0;
    while j < n
        invariant
            off + n * 4 <= b@.len() <= usize::MAX,
            j <= n,
            v@.len() == j,
            forall|k: int| 0 <= k < j ==> v@[k] == be32(b@, off + 4 * k) as i32,
        decreases n - j,
    {
        v.push(read_be_u32(b, off + j * 4) as i32);
        j += 1;
    }
    proof {
        assert(v@ =~= dec_i32(b@, off as int, n as nat));
    }
    v
}

fn decode_u32s(b: &[u8], off: usize, n: usize) -> (r: Vec<u32>)
    requires
        off + n * 4 <= b@.len(),
    ensures
        r@ == dec_u32(b@, off as int, n as nat),
{
    let _bn = b.len();
    let mut v: Vec<u32> = Vec::new();
    let mut j: usize = 0;
    while j < n
        invariant
            off + n * 4 <= b@.len() <= usize::MAX,
            j <= n,
            v@.len() == j,
            forall|k: int| 0 <= k < j ==> v@[k] == be32(b@, off + 4 * k) as u32,
        decreases n - j,
    {
        v.push(read_be_u32(b, off + j * 4));
        j += 1;
    }
    proof {
        assert(v@ =~= dec_u32(b@, off as int, n as nat));
    }
    v
}

fn decode_u64s(b: &[u8], off: usize, n: usize) -> (r: Vec<u64>)
    requires
        off + n * 8 <= b@.len(),
    ensures
        r@ == dec_u64(b@, off as int, n as nat),
{
    let _bn = b.len();
    let mut v: Vec<u64> = Vec::new();
    let mut j: usize = 0;
    while j < n
        invariant
            off + n * 8 <= b@.len() <= usize::MAX,
            j <= n,
            v@.len() == j,
            forall|k: int| 0 <= k < j ==> v@[k] == be64(b@, off + 8 * k) as u64,
        decreases n - j,
    {
        v.push(read_be_u64(b, off + j * 8));
        j += 1;
    }
    proof {
        assert(v@ =~= dec_u64(b@, off as int, n as nat));
    }
    v
}

/// An array slot of `b` decodes cleanly: the slot holds the 8-byte double
/// length header, the two lengths agree, the kind is numeric, and the
/// declared payload fits.
pub open spec fn spec_decode_ok(b: Seq<u8>, dt: DataType) -> bool {
    &&& b.len() >= 8
    &&& be32(b, 0) == be32(b, 4)
    &&& dt.is_numeric()
    &&& 8 + be32(b, 0) * dt.width() <= b.len()
}

/// The decoded contents of an array slot of kind `dt` at the start of `b`
/// (meaningful when `spec_decode_ok` holds).
pub open spec fn spec_decoded(b: Seq<u8>, dt: DataType) -> DataArrayView {
    let n = be32(b, 0) as nat;
    match dt {
        DataType::Byte => DataArrayView::Byte(dec_i8(b, 8, n)),
        DataType::Int16 => DataArrayView::Int16(dec_i16(b, 8, n)),
        DataType::UInt16 => DataArrayView::UInt16(dec_u16(b, 8, n)),
        DataType::Int32 => DataArrayView::Int32(dec_i32(b, 8, n)),
        DataType::UInt32 => DataArrayView::UInt32(dec_u32(b, 8, n)),
        DataType::Float32 => DataArrayView::Float32(dec_u32(b, 8, n)),
        DataType::Float64 => DataArrayView::Float64(dec_u64(b, 8, n)),
        DataType::String => arbitrary(),
        DataType::URL => arbitrary(),
    }
}

impl DataArray {
    /// Decodes one array slot from the start of `input`: the two big-endian
    /// length headers (which must agree), then that many values of kind
    /// `data_type`. Text kinds are not decodable.
    pub fn parse(input: &[u8], data_type: DataType) -> (r: Result<DataArray, Error>)
        ensures
            r is Ok <==> spec_decode_ok(input@, data_type),
            r matches Ok(a) ==> a@ == spec_decoded(input@, data_type),
            input@.len() < 8 ==> (r matches Err(e) && e is ParseError),
            input@.len() >= 8 && be32(input@, 0) != be32(input@, 4) ==> (r matches Err(e)
                && e is InvalidData),
            input@.len() >= 8 && be32(input@, 0) == be32(input@, 4)
                && !data_type.is_numeric() ==> (r matches Err(e) && e is NotImplemented),
            input@.len() >= 8 && be32(input@, 0) == be32(input@, 4)
                && data_type.is_numeric() && 8 + be32(input@, 0) * data_type.width()
                > input@.len() ==> (r matches Err(e) && e is ParseError),
    {
        let bn = input.len();
        if bn < 8 {
            return Err(Error::ParseError);
        }
        let n1 = read_be_u32(input, 0);
        let n2 = read_be_u32(input, 4);
        if n1 != n2 {
            return Err(Error::InvalidData);
        }
        let n = n1 as usize;
        let w = data_type.byte_count();
        match data_type {
            DataType::String => Err(Error::NotImplemented),
            DataType::URL => Err(Error::NotImplemented),
            _ => {
                proof {
                    crate::lemmas::lemma_div_vs_mul(bn as int - 8, n as int, w as int);
                }
                if (bn - 8) / w < n {
                    return Err(Error::ParseError);
                }
                match data_type {
                    DataType::Byte => Ok(DataArray::Byte(decode_i8s(input, 8, n))),
                    DataType::Int16 => Ok(DataArray::Int16(decode_i16s(input, 8, n))),
                    DataType::UInt16 => Ok(DataArray::UInt16(decode_u16s(input, 8, n))),
                    DataType::Int32 => Ok(DataArray::Int32(decode_i32s(input, 8, n))),
                    DataType::UInt32 => Ok(DataArray::UInt32(decode_u32s(input, 8, n))),
                    DataType::Float32 => Ok(DataArray::Float32(decode_u32s(input, 8, n))),
                    DataType::Float64 => Ok(DataArray::Float64(decode_u64s(input, 8, n))),
                    DataType::String => Err(Error::NotImplemented),
                    DataType::URL => Err(Error::NotImplemented),
                }
            },
        }
    }
}

/// The scalar value of kind `dt` encoded big-endian at offset `i` of `b`
/// (meaningful for numeric kinds).
pub open spec fn spec_value_at(b: Seq<u8>, dt: DataType, i: int) -> DataValue {
    match dt {
        DataType::Byte => DataValue::Byte(b[i] as i8),
        DataType::Int16 => DataValue::Int16(be16(b, i) as i16),
        DataType::UInt16 => DataValue::UInt16(be16(b, i) as u16),
        DataType::Int32 => DataValue::Int32(be32(b, i) as i32),
        DataType::UInt32 => DataValue::UInt32(be32(b, i) as u32),
        DataType::Float32 => DataValue::Float32(be32(b, i) as u32),
        DataType::Float64 => DataValue::Float64(be64(b, i) as u64),
        DataType::String => arbitrary(),
        DataType::URL => arbitrary(),
    }
}

/// A single-pass cursor over the values of one array slot. It owns a copy
/// of the slot's payload bytes (past the 8-byte header) and yields one
/// decoded value per step.
pub struct DataValueIterator {
    data: Vec<u8>,
    data_type: DataType,
    count: usize,
    pos: usize,
}

impl DataValueIterator {
    /// The cursor is inside its buffer and carries a numeric kind.
    pub closed spec fn wf(self) -> bool {
        self.pos <= self.data@.len() && self.data_type.is_numeric()
            && self.data_type.width() >= 1
    }

    /// The payload bytes the cursor walks.
    pub closed spec fn spec_data(self) -> Seq<u8> {
        self.data@
    }

    /// The kind of the values yielded.
    pub closed spec fn spec_data_type(self) -> DataType {
        self.data_type
    }

    /// The length claimed by the slot's header.
    pub closed spec fn spec_count(self) -> nat {
        self.count as nat
    }

    /// The cursor position, in bytes from the start of the payload.
    pub closed spec fn spec_pos(self) -> nat {
        self.pos as nat
    }

    /// Builds a cursor over one array slot: text kinds are refused, then
    /// the double length header is read and checked.
    pub fn new(data: &[u8], data_type: DataType) -> (r: Result<DataValueIterator, Error>)
        ensures
            r is Ok <==> data_type.is_numeric() && data@.len() >= 8 && be32(data@, 0)
                == be32(data@, 4),
            r matches Ok(it) ==> it.wf() && it.spec_data() == data@.skip(8)
                && it.spec_data_type() == data_type && it.spec_count() == be32(data@, 0)
                && it.spec_pos() == 0,
            !data_type.is_numeric() ==> (r matches Err(e) && e is NotImplemented),
            data_type.is_numeric() && data@.len() < 8 ==> (r matches Err(e)
                && e is ParseError),
            data_type.is_numeric() && data@.len() >= 8 && be32(data@, 0) != be32(
                data@,
                4,
            ) ==> (r matches Err(e) && e is InvalidData),
    {
        match data_type {
            DataType::String => {
                return Err(Error::NotImplemented);
            },
            DataType::URL => {
                return Err(Error::NotImplemented);
            },
            _ => {},
        }
        let bn = data.len();
        if bn < 8 {
            return Err(Error::ParseError);
        }
        let n1 = read_be_u32(data, 0);
        let n2 = read_be_u32(data, 4);
        if n1 != n2 {
            return Err(Error::InvalidData);
        }
        let mut payload: Vec<u8> = Vec::new();
        let mut j: usize = 8;
        while j < bn
            invariant
                8 <= j <= bn,
                bn == data@.len(),
                payload@.len() == j - 8,
                forall|k: int| 0 <= k < j - 8 ==> payload@[k] == data@[8 + k],
            decreases bn - j,
        {
            payload.push(data[j]);
            j += 1;
        }
        proof {
            assert(payload@ =~= data@.skip(8));
        }
        Ok(DataValueIterator { data: payload, data_type, count: n1 as usize, pos: 0 })
    }

    /// The element count the slot's header declared (it does not shrink as
    /// the cursor advances).
    pub fn len(&self) -> (r: usize)
        ensures
            r == self.spec_count(),
    {
        self.count
    }

    /// Whether the slot's header declared zero elements.
    pub fn is_empty(&self) -> (r: bool)
        ensures
            r == (self.spec_count() == 0),
    {
        self.count == 0
    }

    /// Yields the value at the cursor and advances one element; `None`
    /// once fewer than one element's bytes remain.
    pub fn next(&mut self) -> (r: Option<DataValue>)
        requires
            old(self).wf(),
        ensures
            final(self).wf(),
            final(self).spec_data() == old(self).spec_data(),
            final(self).spec_data_type() == old(self).spec_data_type(),
            final(self).spec_count() == old(self).spec_count(),
            old(self).spec_data().len() - old(self).spec_pos() >= old(
                self,
            ).spec_data_type().width() ==> r == Some(
                spec_value_at(
                    old(self).spec_data(),
                    old(self).spec_data_type(),
                    old(self).spec_pos() as int,
                ),
            ) && final(self).spec_pos() == old(self).spec_pos() + old(
                self,
            ).spec_data_type().width(),
            old(self).spec_data().len() - old(self).spec_pos() < old(
                self,
            ).spec_data_type().width() ==> r is None && final(self).spec_pos() == old(
                self,
            ).spec_pos(),
    {
        let w = self.data_type.byte_count();
        if self.data.len() - self.pos < w {
            return None;
        }
        let b = self.data.as_slice();
        let i = self.pos;
        let value = match self.data_type {
            DataType::Byte => DataValue::Byte(b[i] as i8),
            DataType::Int16 => DataValue::Int16(read_be_u16(b, i) as i16),
            DataType::UInt16 => DataValue::UInt16(read_be_u16(b, i)),
            DataType::Int32 => DataValue::Int32(read_be_u32(b, i) as i32),
            DataType::UInt32 => DataValue::UInt32(read_be_u32(b, i)),
            DataType::Float32 => DataValue::Float32(read_be_u32(b, i)),
            DataType::Float64 => DataValue::Float64(read_be_u64(b, i)),
            DataType::String => {
                return None;
            },
            DataType::URL => {
                return None;
            },
        };
        self.pos = i + w;
        Some(value)
    }
}

/// The biased exponent field of an IEEE-754 single.
pub open spec fn f32_exp(bits: u32) -> nat {
    (((bits / 0x80_0000) % 0x100) as nat)
}

/// The fraction field of an IEEE-754 single.
pub open spec fn f32_frac(bits: u32) -> nat {
    ((bits % 0x80_0000) as nat)
}

/// The sign bit of an IEEE-754 single.
pub open spec fn f32_is_neg(bits: u32) -> bool {
    bits >= 0x8000_0000
}

/// Whether the bits encode a NaN.
pub open spec fn f32_is_nan(bits: u32) -> bool {
    f32_exp(bits) == 255 && f32_frac(bits) != 0
}

/// The integer significand: the fraction with the hidden bit for normal
/// numbers (an infinity reads as a huge significand, which saturates).
pub open spec fn f32_sig(bits: u32) -> nat {
    if f32_exp(bits) == 0 {
        f32_frac(bits)
    } else {
        f32_frac(bits) + 0x80_0000
    }
}

/// The binary scale of the significand.
pub open spec fn f32_scale(bits: u32) -> int {
    (if f32_exp(bits) == 0 {
        1int
    } else {
        f32_exp(bits) as int
    }) - 150
}

/// The magnitude of the encoded single, truncated toward zero.
pub open spec fn f32_trunc_mag(bits: u32) -> nat {
    crate::lemmas::trunc_mag(f32_sig(bits), f32_scale(bits))
}

/// The encoded single truncated toward zero and clamped into `i32` (NaN
/// reads as 0), as the standard float-to-integer cast behaves.
pub open spec fn f32_trunc_i32(bits: u32) -> i32 {
    if f32_is_nan(bits) {
        0
    } else if !f32_is_neg(bits) {
        if f32_trunc_mag(bits) > 0x7fff_ffff {
            i32::MAX
        } else {
            f32_trunc_mag(bits) as i32
        }
    } else {
        if f32_trunc_mag(bits) >= 0x8000_0000 {
            i32::MIN
        } else {
            (-(f32_trunc_mag(bits) as int)) as i32
        }
    }
}

/// The encoded single truncated toward zero and clamped into `i64`.
pub open spec fn f32_trunc_i64(bits: u32) -> i64 {
    if f32_is_nan(bits) {
        0
    } else if !f32_is_neg(bits) {
        if f32_trunc_mag(bits) > 0x7fff_ffff_ffff_ffff {
            i64::MAX
        } else {
            f32_trunc_mag(bits) as i64
        }
    } else {
        if f32_trunc_mag(bits) >= 0x8000_0000_0000_0000 {
            i64::MIN
        } else {
            (-(f32_trunc_mag(bits) as int)) as i64
        }
    }
}

/// The biased exponent field of an IEEE-754 double.
pub open spec fn f64_exp(bits: u64) -> nat {
    (((bits / 0x10_0000_0000_0000) % 0x800) as nat)
}

/// The fraction field of an IEEE-754 double.
pub open spec fn f64_frac(bits: u64) -> nat {
    ((bits % 0x10_0000_0000_0000) as nat)
}

/// The sign bit of an IEEE-754 double.
pub open spec fn f64_is_neg(bits: u64) -> bool {
    bits >= 0x8000_0000_0000_0000
}

/// Whether the bits encode a NaN.
pub open spec fn f64_is_nan(bits: u64) -> bool {
    f64_exp(bits) == 2047 && f64_frac(bits) != 0
}

/// The integer significand of the encoded double.
pub open spec fn f64_sig(bits: u64) -> nat {
    if f64_exp(bits) == 0 {
        f64_frac(bits)
    } else {
        f64_frac(bits) + 0x10_0000_0000_0000
    }
}

/// The binary scale of the significand.
pub open spec fn f64_scale(bits: u64) -> int {
    (if f64_exp(bits) == 0 {
        1int
    } else {
        f64_exp(bits) as int
    }) - 1075
}

/// The magnitude of the encoded double, truncated toward zero.
pub open spec fn f64_trunc_mag(bits: u64) -> nat {
    crate::lemmas::trunc_mag(f64_sig(bits), f64_scale(bits))
}

/// The encoded double truncated toward zero and clamped into `i32`.
pub open spec fn f64_trunc_i32(bits: u64) -> i32 {
    if f64_is_nan(bits) {
        0
    } else if !f64_is_neg(bits) {
        if f64_trunc_mag(bits) > 0x7fff_ffff {
            i32::MAX
        } else {
            f64_trunc_mag(bits) as i32
        }
    } else {
        if f64_trunc_mag(bits) >= 0x8000_0000 {
            i32::MIN
        } else {
            (-(f64_trunc_mag(bits) as int)) as i32
        }
    }
}

/// The encoded double truncated toward zero and clamped into `i64`.
pub open spec fn f64_trunc_i64(bits: u64) -> i64 {
    if f64_is_nan(bits) {
        0
    } else if !f64_is_neg(bits) {
        if f64_trunc_mag(bits) > 0x7fff_ffff_ffff_ffff {
            i64::MAX
        } else {
            f64_trunc_mag(bits) as i64
        }
    } else {
        if f64_trunc_mag(bits) >= 0x8000_0000_0000_0000 {
            i64::MIN
        } else {
            (-(f64_trunc_mag(bits) as int)) as i64
        }
    }
}

/// Truncates the encoded single toward zero into `i32`.
pub fn f32_to_i32_trunc(bits: u32) -> (r: i32)
    ensures
        r == f32_trunc_i32(bits),
{
    let e = (bits / 0x80_0000) % 0x100;
    let f = bits % 0x80_0000;
    let neg = bits >= 0x8000_0000;
    if e == 255 && f != 0 {
        return 0;
    }
    let m: u64 = if e == 0 {
        f as u64
    } else {
        (f + 0x80_0000) as u64
    };
    let kk: i64 = (if e == 0 {
        1i64
    } else {
        e as i64
    }) - 150;
    let mag = crate::lemmas::trunc_mag_sat(m, kk, 0x8000_0000);
    if !neg {
        if mag > 0x7fff_ffff {
            i32::MAX
        } else {
            mag as i32
        }
    } else {
        if mag >= 0x8000_0000 {
            i32::MIN
        } else {
            -(mag as i32)
        }
    }
}

/// Truncates the encoded single toward zero into `i64`.
pub fn f32_to_i64_trunc(bits: u32) -> (r: i64)
    ensures
        r == f32_trunc_i64(bits),
{
    let e = (bits / 0x80_0000) % 0x100;
    let f = bits % 0x80_0000;
    let neg = bits >= 0x8000_0000;
    if e == 255 && f != 0 {
        return 0;
    }
    let m: u64 = if e == 0 {
        f as u64
    } else {
        (f + 0x80_0000) as u64
    };
    let kk: i64 = (if e == 0 {
        1i64
    } else {
        e as i64
    }) - 150;
    let mag = crate::lemmas::trunc_mag_sat(m, kk, 0x8000_0000_0000_0000);
    if !neg {
        if mag > 0x7fff_ffff_ffff_ffff {
            i64::MAX
        } else {
            mag as i64
        }
    } else {
        if mag >= 0x8000_0000_0000_0000 {
            i64::MIN
        } else {
            -(mag as i64)
        }
    }
}

/// Truncates the encoded double toward zero into `i32`.
pub fn f64_to_i32_trunc(bits: u64) -> (r: i32)
    ensures
        r == f64_trunc_i32(bits),
{
    let e = (bits / 0x10_0000_0000_0000) % 0x800;
    let f = bits % 0x10_0000_0000_0000;
    let neg = bits >= 0x8000_0000_0000_0000;
    if e == 2047 && f != 0 {
        return 0;
    }
    let m: u64 = if e == 0 {
        f
    } else {
        f + 0x10_0000_0000_0000
    };
    let kk: i64 = (if e == 0 {
        1i64
    } else {
        e as i64
    }) - 1075;
    let mag = crate::lemmas::trunc_mag_sat(m, kk, 0x8000_0000);
    if !neg {
        if mag > 0x7fff_ffff {
            i32::MAX
        } else {
            mag as i32
        }
    } else {
        if mag >= 0x8000_0000 {
            i32::MIN
        } else {
            -(mag as i32)
        }
    }
}

/// Truncates the encoded double toward zero into `i64`.
pub fn f64_to_i64_trunc(bits: u64) -> (r: i64)
    ensures
        r == f64_trunc_i64(bits),
{
    let e = (bits / 0x10_0000_0000_0000) % 0x800;
    let f = bits % 0x10_0000_0000_0000;
    let neg = bits >= 0x8000_0000_0000_0000;
    if e == 2047 && f != 0 {
        return 0;
    }
    let m: u64 = if e == 0 {
        f
    } else {
        f + 0x10_0000_0000_0000
    };
    let kk: i64 = (if e == 0 {
        1i64
    } else {
        e as i64
    }) - 1075;
    let mag = crate::lemmas::trunc_mag_sat(m, kk, 0x8000_0000_0000_0000);
    if !neg {
        if mag > 0x7fff_ffff_ffff_ffff {
            i64::MAX
        } else {
            mag as i64
        }
    } else {
        if mag >= 0x8000_0000_0000_0000 {
            i64::MIN
        } else {
            -(mag as i64)
        }
    }
}

impl DataValue {
    /// The text of a `String` or `URL` value; the numeric kinds refuse
    /// with `InvalidTypecast`.
    pub fn try_to_string(&self) -> (r: Result<String, Error>)
        ensures
            self matches DataValue::String(s) ==> (r matches Ok(t) && t@ == s@),
            self matches DataValue::URL(s) ==> (r matches Ok(t) && t@ == s@),
            !(self is String || self is URL) ==> (r matches Err(e) && e is InvalidTypecast),
    {
        match self {
            DataValue::String(s) => Ok(s.clone()),
            DataValue::URL(s) => Ok(s.clone()),
            _ => Err(Error::InvalidTypecast),
        }
    }

    /// The value as an `i32`: integer kinds convert with two's-complement
    /// truncation, float kinds truncate toward zero and clamp; the text
    /// kinds refuse with `InvalidTypecast`.
    pub fn try_to_i32(&self) -> (r: Result<i32, Error>)
        ensures
            self matches DataValue::Byte(b) ==> r == Ok::<i32, Error>(b as i32),
            self matches DataValue::Int16(v) ==> r == Ok::<i32, Error>(v as i32),
            self matches DataValue::UInt16(v) ==> r == Ok::<i32, Error>(v as i32),
            self matches DataValue::Int32(v) ==> r == Ok::<i32, Error>(*v),
            self matches DataValue::UInt32(v) ==> r == Ok::<i32, Error>(v as i32),
            self matches DataValue::Float32(bits) ==> r == Ok::<i32, Error>(
                f32_trunc_i32(*bits),
            ),
            self matches DataValue::Float64(bits) ==> r == Ok::<i32, Error>(
                f64_trunc_i32(*bits),
            ),
            (self is String || self is URL) ==> (r matches Err(e) && e is InvalidTypecast),
    {
        match self {
            DataValue::Byte(b) => Ok(*b as i32),
            DataValue::Int16(v) => Ok(*v as i32),
            DataValue::UInt16(v) => Ok(*v as i32),
            DataValue::Int32(v) => Ok(*v),
            DataValue::UInt32(v) => Ok(*v as i32),
            DataValue::Float32(bits) => Ok(f32_to_i32_trunc(*bits)),
            DataValue::Float64(bits) => Ok(f64_to_i32_trunc(*bits)),
            DataValue::String(_) => Err(Error::InvalidTypecast),
            DataValue::URL(_) => Err(Error::InvalidTypecast),
        }
    }

    /// The value as an `i64`, under the same rules as `try_to_i32`.
    pub fn try_to_i64(&self) -> (r: Result<i64, Error>)
        ensures
            self matches DataValue::Byte(b) ==> r == Ok::<i64, Error>(b as i64),
            self matches DataValue::Int16(v) ==> r == Ok::<i64, Error>(v as i64),
            self matches DataValue::UInt16(v) ==> r == Ok::<i64, Error>(v as i64),
            self matches DataValue::Int32(v) ==> r == Ok::<i64, Error>(v as i64),
            self matches DataValue::UInt32(v) ==> r == Ok::<i64, Error>(v as i64),
            self matches DataValue::Float32(bits) ==> r == Ok::<i64, Error>(
                f32_trunc_i64(*bits),
            ),
            self matches DataValue::Float64(bits) ==> r == Ok::<i64, Error>(
                f64_trunc_i64(*bits),
            ),
            (self is String || self is URL) ==> (r matches Err(e) && e is InvalidTypecast),
    {
        match self {
            DataValue::Byte(b) => Ok(*b as i64),
            DataValue::Int16(v) => Ok(*v as i64),
            DataValue::UInt16(v) => Ok(*v as i64),
            DataValue::Int32(v) => Ok(*v as i64),
            DataValue::UInt32(v) => Ok(*v as i64),
            DataValue::Float32(bits) => Ok(f32_to_i64_trunc(*bits)),
            DataValue::Float64(bits) => Ok(f64_to_i64_trunc(*bits)),
            DataValue::String(_) => Err(Error::InvalidTypecast),
            DataValue::URL(_) => Err(Error::InvalidTypecast),
        }
    }
}

impl DataArray {
    /// The array as `Vec<i32>`, element-wise: integer kinds convert with
    /// two's-complement truncation, float kinds truncate toward zero and
    /// clamp; the text kinds refuse with `InvalidTypecast`.
    pub fn try_to_i32s(&self) -> (r: Result<Vec<i32>, Error>)
        ensures
            self matches DataArray::Byte(v) ==> (r matches Ok(o) && o@ == v@.map_values(
                |x: i8| x as i32,
            )),
            self matches DataArray::Int16(v) ==> (r matches Ok(o) && o@ == v@.map_values(
                |x: i16| x as i32,
            )),
            self matches DataArray::UInt16(v) ==> (r matches Ok(o) && o@ == v@.map_values(
                |x: u16| x as i32,
            )),
            self matches DataArray::Int32(v) ==> (r matches Ok(o) && o@ == v@),
            self matches DataArray::UInt32(v) ==> (r matches Ok(o) && o@ == v@.map_values(
                |x: u32| x as i32,
            )),
            self matches DataArray::Float32(v) ==> (r matches Ok(o) && o@ == v@.map_values(
                |x: u32| f32_trunc_i32(x),
            )),
            self matches DataArray::Float64(v) ==> (r matches Ok(o) && o@ == v@.map_values(
                |x: u64| f64_trunc_i32(x),
            )),
            (self is String || self is URL) ==> (r matches Err(e) && e is InvalidTypecast),
    {
        match self {
            DataArray::Byte(v) => {
                let n = v.len();
                let mut o: Vec<i32> = Vec::new();
                let mut i: usize = 0;
                while i < n
                    invariant
                        i <= n,
                        n == v@.len(),
                        o@.len() == i,
                        forall|k: int| 0 <= k < i ==> o@[k] == v@[k] as i32,
                    decreases n - i,
                {
                    o.push(v[i] as i32);
                    i += 1;
                }
                proof {
                    assert(o@ =~= v@.map_values(|x: i8| x as i32));
                }
                Ok(o)
            },
            DataArray::Int16(v) => {
                let n = v.len();
                let mut o: Vec<i32> = Vec::new();
                let mut i: usize = 0;
                while i < n
                    invariant
                        i <= n,
                        n == v@.len(),
                        o@.len() == i,
                        forall|k: int| 0 <= k < i ==> o@[k] == v@[k] as i32,
                    decreases n - i,
                {
                    o.push(v[i] as i32);
                    i += 1;
                }
                proof {
                    assert(o@ =~= v@.map_values(|x: i16| x as i32));
                }
                Ok(o)
            },
            DataArray::UInt16(v) => {
                let n = v.len();
                let mut o: Vec<i32> = Vec::new();
                let mut i: usize = 0;
                while i < n
                    invariant
                        i <= n,
                        n == v@.len(),
                        o@.len() == i,
                        forall|k: int| 0 <= k < i ==> o@[k] == v@[k] as i32,
                    decreases n - i,
                {
                    o.push(v[i] as i32);
                    i += 1;
                }
                proof {
                    assert(o@ =~= v@.map_values(|x: u16| x as i32));
                }
                Ok(o)
            },
            DataArray::Int32(v) => {
                let n = v.len();
                let mut o: Vec<i32> = Vec::new();
                let mut i: usize = 0;
                while i < n
                    invariant
                        i <= n,
                        n == v@.len(),
                        o@.len() == i,
                        forall|k: int| 0 <= k < i ==> o@[k] == v@[k],
                    decreases n - i,
                {
                    o.push(v[i]);
                    i += 1;
                }
                proof {
                    assert(o@ =~= v@);
                }
                Ok(o)
            },
            DataArray::UInt32(v) => {
                let n = v.len();
                let mut o: Vec<i32> = Vec::new();
                let mut i: usize = 0;
                while i < n
                    invariant
                        i <= n,
                        n == v@.len(),
                        o@.len() == i,
                        forall|k: int| 0 <= k < i ==> o@[k] == v@[k] as i32,
                    decreases n - i,
                {
                    o.push(v[i] as i32);
                    i += 1;
                }
                proof {
                    assert(o@ =~= v@.map_values(|x: u32| x as i32));
                }
                Ok(o)
            },
            DataArray::Float32(v) => {
                let n = v.len();
                let mut o: Vec<i32> = Vec::new();
                let mut i: usize = 0;
                while i < n
                    invariant
                        i <= n,
                        n == v@.len(),
                        o@.len() == i,
                        forall|k: int| 0 <= k < i ==> o@[k] == f32_trunc_i32(v@[k]),
                    decreases n - i,
                {
                    o.push(f32_to_i32_trunc(v[i]));
                    i += 1;
                }
                proof {
                    assert(o@ =~= v@.map_values(|x: u32| f32_trunc_i32(x)));
                }
                Ok(o)
            },
            DataArray::Float64(v) => {
                let n = v.len();
                let mut o: Vec<i32> = Vec::new();
                let mut i: usize = 0;
                while i < n
                    invariant
                        i <= n,
                        n == v@.len(),
                        o@.len() == i,
                        forall|k: int| 0 <= k < i ==> o@[k] == f64_trunc_i32(v@[k]),
                    decreases n - i,
                {
                    o.push(f64_to_i32_trunc(v[i]));
                    i += 1;
                }
                proof {
                    assert(o@ =~= v@.map_values(|x: u64| f64_trunc_i32(x)));
                }
                Ok(o)
            },
            DataArray::String(_) => Err(Error::InvalidTypecast),
            DataArray::URL(_) => Err(Error::InvalidTypecast),
        }
    }

    /// The array as `Vec<i64>`, under the same rules as `try_to_i32s`.
    pub fn try_to_i64s(&self) -> (r: Result<Vec<i64>, Error>)
        ensures
            self matches DataArray::Byte(v) ==> (r matches Ok(o) && o@ == v@.map_values(
                |x: i8| x as i64,
            )),
            self matches DataArray::Int16(v) ==> (r matches Ok(o) && o@ == v@.map_values(
                |x: i16| x as i64,
            )),
            self matches DataArray::UInt16(v) ==> (r matches Ok(o) && o@ == v@.map_values(
                |x: u16| x as i64,
            )),
            self matches DataArray::Int32(v) ==> (r matches Ok(o) && o@ == v@.map_values(
                |x: i32| x as i64,
            )),
            self matches DataArray::UInt32(v) ==> (r matches Ok(o) && o@ == v@.map_values(
                |x: u32| x as i64,
            )),
            self matches DataArray::Float32(v) ==> (r matches Ok(o) && o@ == v@.map_values(
                |x: u32| f32_trunc_i64(x),
            )),
            self matches DataArray::Float64(v) ==> (r matches Ok(o) && o@ == v@.map_values(
                |x: u64| f64_trunc_i64(x),
            )),
            (self is String || self is URL) ==> (r matches Err(e) && e is InvalidTypecast),
    {
        match self {
            DataArray::Byte(v) => {
                let n = v.len();
                let mut o: Vec<i64> = Vec::new();
                let mut i: usize = 0;
                while i < n
                    invariant
                        i <= n,
                        n == v@.len(),
                        o@.len() == i,
                        forall|k: int| 0 <= k < i ==> o@[k] == v@[k] as i64,
                    decreases n - i,
                {
                    o.push(v[i] as i64);
                    i += 1;
                }
                proof {
                    assert(o@ =~= v@.map_values(|x: i8| x as i64));
                }
                Ok(o)
            },
            DataArray::Int16(v) => {
                let n = v.len();
                let mut o: Vec<i64> = Vec::new();
                let mut i: usize = 0;
                while i < n
                    invariant
                        i <= n,
                        n == v@.len(),
                        o@.len() == i,
                        forall|k: int| 0 <= k < i ==> o@[k] == v@[k] as i64,
                    decreases n - i,
                {
                    o.push(v[i] as i64);
                    i += 1;
                }
                proof {
                    assert(o@ =~= v@.map_values(|x: i16| x as i64));
                }
                Ok(o)
            },
            DataArray::UInt16(v) => {
                let n = v.len();
                let mut o: Vec<i64> = Vec::new();
                let mut i: usize = 0;
                while i < n
                    invariant
                        i <= n,
                        n == v@.len(),
                        o@.len() == i,
                        forall|k: int| 0 <= k < i ==> o@[k] == v@[k] as i64,
                    decreases n - i,
                {
                    o.push(v[i] as i64);
                    i += 1;
                }
                proof {
                    assert(o@ =~= v@.map_values(|x: u16| x as i64));
                }
                Ok(o)
            },
            DataArray::Int32(v) => {
                let n = v.len();
                let mut o: Vec<i64> = Vec::new();
                let mut i: usize = 0;
                while i < n
                    invariant
                        i <= n,
                        n == v@.len(),
                        o@.len() == i,
                        forall|k: int| 0 <= k < i ==> o@[k] == v@[k] as i64,
                    decreases n - i,
                {
                    o.push(v[i] as i64);
                    i += 1;
                }
                proof {
                    assert(o@ =~= v@.map_values(|x: i32| x as i64));
                }
                Ok(o)
            },
            DataArray::UInt32(v) => {
                let n = v.len();
                let mut o: Vec<i64> = Vec::new();
                let mut i: usize = 0;
                while i < n
                    invariant
                        i <= n,
                        n == v@.len(),
                        o@.len() == i,
                        forall|k: int| 0 <= k < i ==> o@[k] == v@[k] as i64,
                    decreases n - i,
                {
                    o.push(v[i] as i64);
                    i += 1;
                }
                proof {
                    assert(o@ =~= v@.map_values(|x: u32| x as i64));
                }
                Ok(o)
            },
            DataArray::Float32(v) => {
                let n = v.len();
                let mut o: Vec<i64> = Vec::new();
                let mut i: usize = 0;
                while i < n
                    invariant
                        i <= n,
                        n == v@.len(),
                        o@.len() == i,
                        forall|k: int| 0 <= k < i ==> o@[k] == f32_trunc_i64(v@[k]),
                    decreases n - i,
                {
                    o.push(f32_to_i64_trunc(v[i]));
                    i += 1;
                }
                proof {
                    assert(o@ =~= v@.map_values(|x: u32| f32_trunc_i64(x)));
                }
                Ok(o)
            },
            DataArray::Float64(v) => {
                let n = v.len();
                let mut o: Vec<i64> = Vec::new();
                let mut i: usize = 0;
                while i < n
                    invariant
                        i <= n,
                        n == v@.len(),
                        o@.len() == i,
                        forall|k: int| 0 <= k < i ==> o@[k] == f64_trunc_i64(v@[k]),
                    decreases n - i,
                {
                    o.push(f64_to_i64_trunc(v[i]));
                    i += 1;
                }
                proof {
                    assert(o@ =~= v@.map_values(|x: u64| f64_trunc_i64(x)));
                }
                Ok(o)
            },
            DataArray::String(_) => Err(Error::InvalidTypecast),
            DataArray::URL(_) => Err(Error::InvalidTypecast),
        }
    }
}

} // verus!
