//! The DODS payload decoder.
//!
//! A DODS response is the DDS text, the literal `Data:` separator (its
//! trailing newline tolerated in padded forms such as CR LF), then
//! big-endian binary laid out slot by slot in the order of the dataset's
//! values. Offsets are computed from the DDS alone, so any variable's
//! slot is reached without decoding its predecessors.

use vstd::prelude::*;

use crate::data::be32;
use crate::data::spec_decode_ok;
use crate::data::spec_decoded;
use crate::data::DataArray;
use crate::data::DataValueIterator;
use crate::dds::spec_find_value;
use crate::dds::spec_parse_dataset;
use crate::dds::sum_array_bytes;
use crate::dds::sum_value_bytes;
use crate::dds::value_view;
use crate::dds::DdsDataset;
use crate::dds::ValueView;
use crate::errors::Error;
use crate::text::ascii_view;

verus! {

/// The bytes of the `Data:` separator.
pub open spec fn data_marker() -> Seq<u8> {
    seq![68u8, 97u8, 116u8, 97u8, 58u8]
}

/// Whether a byte is separator padding: carriage return, newline, or
/// space.
pub open spec fn is_pad(c: u8) -> bool {
    c == 10 || c == 13 || c == 32
}

/// The first position at or after `i` whose byte is not separator
/// padding.
pub open spec fn spec_skip_pad(b: Seq<u8>, i: int) -> int
    decreases b.len() - i,
{
    if i < 0 || i >= b.len() {
        i
    } else if is_pad(b[i]) {
        spec_skip_pad(b, i + 1)
    } else {
        i
    }
}

fn skip_pad(b: &[u8], i: usize) -> (r: usize)
    requires
        i <= b@.len(),
    ensures
        r == spec_skip_pad(b@, i as int),
        i <= r <= b@.len(),
    decreases b@.len() - i,
{
    let n = b.len();
    if i == n {
        i
    } else if b[i] == 10 || b[i] == 13 || b[i] == 32 {
        skip_pad(b, i + 1)
    } else {
        i
    }
}

/// The first position at or after `i` where the separator occurs.
pub open spec fn spec_find_marker(b: Seq<u8>, i: int) -> Option<int>
    decreases b.len() - i,
{
    if i < 0 || i + 5 > b.len() {
        None
    } else if b.subrange(i, i + 5) == data_marker() {
        Some(i)
    } else {
        spec_find_marker(b, i + 1)
    }
}

fn marker_at(b: &[u8], i: usize) -> (r: bool)
    requires
        i + 5 <= b@.len(),
    ensures
        r == (b@.subrange(i as int, i + 5) == data_marker()),
{
    let r = b[i] == 68 && b[i + 1] == 97 && b[i + 2] == 116 && b[i + 3] == 97 && b[i + 4] == 58;
    proof {
        if r {
            assert(b@.subrange(i as int, i + 5) =~= data_marker());
        } else {
            if b@.subrange(i as int, i + 5) == data_marker() {
                assert(b@[i as int] == data_marker()[0]);
                assert(b@[i + 1] == data_marker()[1]);
                assert(b@[i + 2] == data_marker()[2]);
                assert(b@[i + 3] == data_marker()[3]);
                assert(b@[i + 4] == data_marker()[4]);
            }
        }
    }
    r
}

fn find_marker(b: &[u8], i: usize) -> (r: Option<usize>)
    requires
        i <= b@.len(),
    ensures
        (r is Some) == (spec_find_marker(b@, i as int) is Some),
        r matches Some(m) ==> spec_find_marker(b@, i as int) == Some(m as int) && i <= m && m
            + 5 <= b@.len(),
    decreases b@.len() - i,
{
    let n = b.len();
    if n < 5 || i > n - 5 {
        return None;
    }
    if marker_at(b, i) {
        Some(i)
    } else {
        find_marker(b, i + 1)
    }
}

/// The whole prefix `b[0..m)` is 7-bit.
pub open spec fn prefix_ascii(b: Seq<u8>, m: int) -> bool {
    forall|k: int| 0 <= k < m ==> b[k] < 128
}

/// A parsed DODS response: the dataset tree and the binary payload that
/// follows the separator.
#[derive(Debug)]
pub struct DodsDataset {
    pub dds: DdsDataset,
    pub data_bytes: Vec<u8>,
}

impl DodsDataset {
    /// Splits a DODS response at the first `Data:` separator, parses the
    /// leading DDS text, and keeps the binary payload. The separator must
    /// be present (`InvalidData` otherwise) and is followed tolerantly:
    /// any run of carriage returns, newlines and spaces after `Data:` is
    /// skipped, so `Data:` + LF, `Data:` + CR LF and padded variants all
    /// split. The leading text must be 7-bit ASCII holding a well-formed
    /// DDS (`ParseError` otherwise).
    pub fn from_bytes(bytes: &[u8]) -> (r: Result<DodsDataset, Error>)
        ensures
            spec_find_marker(bytes@, 0) is None ==> (r matches Err(e) && e is InvalidData),
            spec_find_marker(bytes@, 0) matches Some(m) ==> {
                &&& !prefix_ascii(bytes@, m) ==> (r matches Err(e) && e is ParseError)
                &&& prefix_ascii(bytes@, m) ==> {
                    let text = ascii_view(bytes@.subrange(0, m));
                    &&& (r is Ok) == (spec_parse_dataset(text, 0) is Some)
                    &&& (r matches Ok(d) ==> (spec_parse_dataset(text, 0) matches Some(p)
                        && d.dds@ == p.1 && d.data_bytes@ == bytes@.skip(
                        spec_skip_pad(bytes@, m + 5),
                    )))
                    &&& (spec_parse_dataset(text, 0) is None ==> (r matches Err(e)
                        && e is ParseError))
                }
            },
    {
        let n = bytes.len();
        let m = match find_marker(bytes, 0) {
            Some(m) => m,
            None => {
                return Err(Error::InvalidData);
            },
        };
        let mut prefix: Vec<u8> = Vec::new();
        let mut k: usize = 0;
        while k < m
            invariant
                k <= m,
                m + 5 <= bytes@.len(),
                n == bytes@.len(),
                spec_find_marker(bytes@, 0) == Some(m as int),
                prefix@.len() == k,
                forall|j: int| 0 <= j < k ==> prefix@[j] == bytes@[j] && prefix@[j] < 128,
            decreases m - k,
        {
            let byte = bytes[k];
            if byte >= 128 {
                return Err(Error::ParseError);
            }
            prefix.push(byte);
            k += 1;
        }
        proof {
            assert(prefix@ =~= bytes@.subrange(0, m as int));
        }
        let text = crate::text::ascii_vec_to_string(prefix);
        let dds = match DdsDataset::from_bytes(text.as_str()) {
            Ok(d) => d,
            Err(_) => {
                return Err(Error::ParseError);
            },
        };
        let ghost textv = ascii_view(bytes@.subrange(0, m as int));
        let start = skip_pad(bytes, m + 5);
        let mut payload: Vec<u8> = Vec::new();
        let mut j: usize = start;
        while j < n
            invariant
                start <= j <= n,
                n == bytes@.len(),
                spec_find_marker(bytes@, 0) == Some(m as int),
                start == spec_skip_pad(bytes@, m + 5),
                prefix_ascii(bytes@, m as int),
                textv == ascii_view(bytes@.subrange(0, m as int)),
                spec_parse_dataset(textv, 0) matches Some(pp) && dds@ == pp.1,
                payload@.len() == j - start,
                forall|p: int| 0 <= p < j - start ==> payload@[p] == bytes@[start + p],
            decreases n - j,
        {
            payload.push(bytes[j]);
            j += 1;
        }
        proof {
            assert(payload@ =~= bytes@.skip(start as int));
        }
        Ok(DodsDataset { dds, data_bytes: payload })
    }

    /// The names of the dataset's values, in declaration order.
    pub fn variables(&self) -> (r: Vec<String>)
        ensures
            r@.len() == self.dds@.values.len(),
            forall|i: int| 0 <= i < r@.len() ==> (#[trigger] r@[i])@
                == self.dds@.values[i].spec_name(),
    {
        self.dds.list_variables()
    }

    /// The position of the first value named `key`, if any.
    pub fn variable_index(&self, key: &str) -> (r: Option<usize>)
        ensures
            (r is Some) == (spec_find_value(self.dds@.values, key@, 0) is Some),
            r matches Some(i) ==> spec_find_value(self.dds@.values, key@, 0) == Some(i as int)
                && i < self.dds@.values.len(),
    {
        let ghost vs = self.dds@.values;
        let n = self.dds.values.len();
        let mut i: usize = 0;
        while i < n
            invariant
                i <= n,
                n == self.dds.values@.len(),
                vs == self.dds@.values,
                vs.len() == n,
                forall|k: int| 0 <= k < n ==> vs[k] == value_view(
                    #[trigger] self.dds.values@[k],
                ),
                forall|k: int| 0 <= k < i ==> (#[trigger] vs[k]).spec_name() != key@,
            decreases n - i,
        {
            let vn = self.dds.values[i].name();
            if crate::text::str_eq(vn.as_str(), key) {
                proof {
                    crate::dds::lemma_find_value_skip(vs, key@, 0, i as int);
                }
                return Some(i);
            }
            i += 1;
        }
        proof {
            crate::dds::lemma_find_value_skip(vs, key@, 0, n as int);
        }
        None
    }

    /// The byte offset of the slot of the first value named `key` inside
    /// the payload: the sum of the byte counts of the values before it.
    pub fn variable_byte_offset(&self, key: &str) -> (r: Option<usize>)
        requires
            self.dds@.fits(),
            sum_value_bytes(self.dds@.values) <= usize::MAX,
        ensures
            (r is Some) == (spec_find_value(self.dds@.values, key@, 0) is Some),
            r matches Some(o) ==> (spec_find_value(self.dds@.values, key@, 0) matches Some(i)
                && o == sum_value_bytes(self.dds@.values.subrange(0, i))),
    {
        let ghost vs = self.dds@.values;
        let index = match self.variable_index(key) {
            Some(i) => i,
            None => {
                return None;
            },
        };
        let n = self.dds.values.len();
        let mut acc: usize = 0;
        let mut i: usize = 0;
        while i < index
            invariant
                i <= index < n,
                n == self.dds.values@.len(),
                vs == self.dds@.values,
                vs.len() == n,
                forall|k: int| 0 <= k < n ==> vs[k] == value_view(
                    #[trigger] self.dds.values@[k],
                ),
                forall|k: int| 0 <= k < n ==> (#[trigger] vs[k]).fits(),
                sum_value_bytes(vs) <= usize::MAX,
                acc == sum_value_bytes(vs.subrange(0, i as int)),
            decreases index - i,
        {
            proof {
                assert(vs.subrange(0, i + 1).drop_last() =~= vs.subrange(0, i as int));
                assert(vs.subrange(0, i + 1).last() == vs[i as int]);
                crate::dds::lemma_sum_value_prefix_bound(vs, i + 1);
            }
            acc = acc + self.dds.values[i].byte_count();
            i += 1;
        }
        Some(acc)
    }

    /// A value cursor over the slot of the first value named `key`: the
    /// slot of an array, or of a grid's main array. The slot must lie
    /// inside the payload and start with an agreeing double length header.
    pub fn variable_data_iter(&self, key: &str) -> (r: Result<DataValueIterator, Error>)
        requires
            self.dds@.fits(),
            sum_value_bytes(self.dds@.values) <= usize::MAX,
        ensures
            spec_find_value(self.dds@.values, key@, 0) is None ==> (r matches Err(e)
                && e is ParseError),
            spec_find_value(self.dds@.values, key@, 0) matches Some(i) ==> {
                let off = sum_value_bytes(self.dds@.values.subrange(0, i));
                &&& (self.dds@.values[i] is Structure || self.dds@.values[i] is Sequence) ==> (
                r matches Err(e) && e is NotImplemented)
                &&& (self.dds@.values[i] matches ValueView::Array(a) ==> self.slot_iter_post(
                    r,
                    off,
                    a,
                ))
                &&& (self.dds@.values[i] matches ValueView::Grid(g) ==> self.slot_iter_post(
                    r,
                    off,
                    g.array,
                ))
            },
    {
        let index = match self.variable_index(key) {
            Some(i) => i,
            None => {
                return Err(Error::ParseError);
            },
        };
        let offset = match self.variable_byte_offset(key) {
            Some(o) => o,
            None => {
                return Err(Error::ParseError);
            },
        };
        let (bc, dt) = match &self.dds.values[index] {
            crate::dds::DdsValue::Array(a) => (a.byte_count(), a.data_type),
            crate::dds::DdsValue::Grid(g) => (g.array.byte_count(), g.array.data_type),
            crate::dds::DdsValue::Structure(_) => {
                return Err(Error::NotImplemented);
            },
            crate::dds::DdsValue::Sequence(_) => {
                return Err(Error::NotImplemented);
            },
        };
        let n = self.data_bytes.len();
        if n < bc || offset > n - bc {
            return Err(Error::ParseError);
        }
        let mut slot: Vec<u8> = Vec::new();
        let mut j: usize = offset;
        while j < offset + bc
            invariant
                offset <= j <= offset + bc,
                offset + bc <= n,
                n == self.data_bytes@.len(),
                slot@.len() == j - offset,
                forall|p: int| 0 <= p < j - offset ==> slot@[p] == self.data_bytes@[offset + p],
            decreases offset + bc - j,
        {
            slot.push(self.data_bytes[j]);
            j += 1;
        }
        proof {
            assert(slot@ =~= self.data_bytes@.subrange(offset as int, offset + bc));
        }
        DataValueIterator::new(slot.as_slice(), dt)
    }

    /// What `variable_data_iter` guarantees for the slot of an array with
    /// view `a` at offset `off` of the payload.
    pub open spec fn slot_iter_post(
        self,
        r: Result<DataValueIterator, Error>,
        off: nat,
        a: crate::dds::ArrayView,
    ) -> bool {
        let bc = a.byte_count();
        let slot = self.data_bytes@.subrange(off as int, (off + bc) as int);
        &&& off + bc > self.data_bytes@.len() ==> (r matches Err(e) && e is ParseError)
        &&& off + bc <= self.data_bytes@.len() ==> {
            &&& (r is Ok) == (a.data_type.is_numeric() && be32(slot, 0) == be32(slot, 4))
            &&& (r matches Ok(it) ==> it.wf() && it.spec_data() == slot.skip(8)
                && it.spec_data_type() == a.data_type && it.spec_count() == be32(slot, 0)
                && it.spec_pos() == 0)
            &&& (!a.data_type.is_numeric() ==> (r matches Err(e) && e is NotImplemented))
            &&& (a.data_type.is_numeric() && be32(slot, 0) != be32(slot, 4) ==> (
            r matches Err(e) && e is InvalidData))
        }
    }

    /// The decoded values of the slot of the first value named `key`: an
    /// array's slot, or a grid's main array slot, decoded to the end of
    /// the declared length.
    pub fn variable_data(&self, key: &str) -> (r: Result<DataArray, Error>)
        requires
            self.dds@.fits(),
            sum_value_bytes(self.dds@.values) <= usize::MAX,
        ensures
            spec_find_value(self.dds@.values, key@, 0) is None ==> (r matches Err(e)
                && e is ParseError),
            spec_find_value(self.dds@.values, key@, 0) matches Some(i) ==> {
                let off = sum_value_bytes(self.dds@.values.subrange(0, i));
                let rest = self.data_bytes@.skip(off as int);
                &&& (self.dds@.values[i] is Structure || self.dds@.values[i] is Sequence) ==> (
                r matches Err(e) && e is NotImplemented)
                &&& (self.dds@.values[i] matches ValueView::Array(a) ==> {
                    &&& off > self.data_bytes@.len() ==> (r matches Err(e) && e is ParseError)
                    &&& off <= self.data_bytes@.len() ==> {
                        &&& (r is Ok) == spec_decode_ok(rest, a.data_type)
                        &&& (r matches Ok(da) ==> da@ == spec_decoded(rest, a.data_type))
                    }
                })
                &&& (self.dds@.values[i] matches ValueView::Grid(g) ==> {
                    &&& off > self.data_bytes@.len() ==> (r matches Err(e) && e is ParseError)
                    &&& off <= self.data_bytes@.len() ==> {
                        &&& (r is Ok) == spec_decode_ok(rest, g.array.data_type)
                        &&& (r matches Ok(da) ==> da@ == spec_decoded(rest, g.array.data_type))
                    }
                })
            },
    {
        let index = match self.variable_index(key) {
            Some(i) => i,
            None => {
                return Err(Error::ParseError);
            },
        };
        let offset = match self.variable_byte_offset(key) {
            Some(o) => o,
            None => {
                return Err(Error::ParseError);
            },
        };
        let dt = match &self.dds.values[index] {
            crate::dds::DdsValue::Array(a) => a.data_type,
            crate::dds::DdsValue::Grid(g) => g.array.data_type,
            crate::dds::DdsValue::Structure(_) => {
                return Err(Error::NotImplemented);
            },
            crate::dds::DdsValue::Sequence(_) => {
                return Err(Error::NotImplemented);
            },
        };
        let n = self.data_bytes.len();
        if offset > n {
            return Err(Error::ParseError);
        }
        let mut rest: Vec<u8> = Vec::new();
        let mut j: usize = offset;
        while j < n
            invariant
                offset <= j <= n,
                n == self.data_bytes@.len(),
                rest@.len() == j - offset,
                forall|p: int| 0 <= p < j - offset ==> rest@[p] == self.data_bytes@[offset + p],
            decreases n - j,
        {
            rest.push(self.data_bytes[j]);
            j += 1;
        }
        proof {
            assert(rest@ =~= self.data_bytes@.skip(offset as int));
        }
        DataArray::parse(rest.as_slice(), dt)
    }
}

/// Every map slot in the list decodes cleanly, walking from byte offset
/// `base` of `data`.
pub open spec fn maps_decode_ok(data: Seq<u8>, base: int, maps: Seq<crate::dds::ArrayView>) -> bool
    decreases maps.len(),
{
    if maps.len() == 0 {
        true
    } else {
        &&& 0 <= base <= data.len()
        &&& spec_decode_ok(data.skip(base), maps[0].data_type)
        &&& maps_decode_ok(data, base + maps[0].byte_count(), maps.drop_first())
    }
}

impl DodsDataset {
    /// The coordinate arrays of the first value named `key`, decoded and
    /// paired with their names: an array yields itself under its own name;
    /// a grid yields each of its maps in declaration order.
    pub fn variable_coords(&self, key: &str) -> (r: Result<Vec<(String, DataArray)>, Error>)
        requires
            self.dds@.fits(),
            sum_value_bytes(self.dds@.values) <= usize::MAX,
        ensures
            spec_find_value(self.dds@.values, key@, 0) is None ==> (r matches Err(e)
                && e is ParseError),
            spec_find_value(self.dds@.values, key@, 0) matches Some(i) ==> {
                let off = sum_value_bytes(self.dds@.values.subrange(0, i));
                &&& (self.dds@.values[i] is Structure || self.dds@.values[i] is Sequence) ==> (
                r matches Err(e) && e is NotImplemented)
                &&& (self.dds@.values[i] matches ValueView::Array(a) ==> {
                    &&& off > self.data_bytes@.len() ==> (r matches Err(e) && e is ParseError)
                    &&& off <= self.data_bytes@.len() ==> {
                        &&& (r is Ok) == spec_decode_ok(
                            self.data_bytes@.skip(off as int),
                            a.data_type,
                        )
                        &&& (r matches Ok(v) ==> v@.len() == 1 && v@[0].0@ == a.name
                            && v@[0].1@ == spec_decoded(
                            self.data_bytes@.skip(off as int),
                            a.data_type,
                        ))
                    }
                })
                &&& (self.dds@.values[i] matches ValueView::Grid(g) ==> {
                    &&& (r is Ok) == maps_decode_ok(
                        self.data_bytes@,
                        (off + g.array.byte_count()) as int,
                        g.coords,
                    )
                    &&& (r matches Ok(v) ==> v@.len() == g.coords.len() && (forall|j: int|
                        0 <= j < g.coords.len() ==> (#[trigger] v@[j]).0@ == g.coords[j].name
                            && v@[j].1@ == spec_decoded(
                            self.data_bytes@.skip(
                                (off + g.array.byte_count() + sum_array_bytes(
                                    g.coords.subrange(0, j),
                                )) as int,
                            ),
                            g.coords[j].data_type,
                        )))
                })
            },
    {
        let index = match self.variable_index(key) {
            Some(i) => i,
            None => {
                return Err(Error::ParseError);
            },
        };
        let offset = match self.variable_byte_offset(key) {
            Some(o) => o,
            None => {
                return Err(Error::ParseError);
            },
        };
        let n = self.data_bytes.len();
        match &self.dds.values[index] {
            crate::dds::DdsValue::Array(a) => {
                if offset > n {
                    return Err(Error::ParseError);
                }
                let rest = self.payload_from(offset);
                let arr = match DataArray::parse(rest.as_slice(), a.data_type) {
                    Ok(arr) => arr,
                    Err(e) => {
                        return Err(e);
                    },
                };
                let mut out: Vec<(String, DataArray)> = Vec::new();
                out.push((a.name.clone(), arr));
                Ok(out)
            },
            crate::dds::DdsValue::Grid(g) => {
                let ghost maps = g@.coords;
                let ghost data = self.data_bytes@;
                let ghost vs = self.dds@.values;
                proof {
                    assert(vs[index as int] == value_view(self.dds.values@[index as int]));
                    assert(vs.subrange(0, index + 1).drop_last() =~= vs.subrange(
                        0,
                        index as int,
                    ));
                    assert(vs.subrange(0, index + 1).last() == vs[index as int]);
                    crate::dds::lemma_sum_value_prefix_bound(vs, index + 1);
                    assert(spec_find_value(vs, key@, 0) == Some(index as int));
                    assert(offset == sum_value_bytes(vs.subrange(0, index as int)));
                    assert(sum_value_bytes(vs.subrange(0, index + 1)) == offset
                        + vs[index as int].byte_count());
                    assert(vs[index as int].byte_count() == g@.array.byte_count()
                        + sum_array_bytes(maps));
                    assert(offset + g@.array.byte_count() + sum_array_bytes(maps)
                        <= usize::MAX);
                    assert(maps.skip(0int) =~= maps);
                }
                let mut base: usize = offset + g.array.byte_count();
                let m = g.coords.len();
                let mut out: Vec<(String, DataArray)> = Vec::new();
                let mut j: usize = 0;
                while j < m
                    invariant
                        j <= m,
                        m == g.coords@.len(),
                        maps == g@.coords,
                        maps.len() == m,
                        data == self.data_bytes@,
                        n == data.len(),
                        forall|k: int| 0 <= k < m ==> maps[k] == (#[trigger] g.coords@[k])@,
                        forall|k: int| 0 <= k < m ==> (#[trigger] maps[k]).fits(),
                        base == offset + g@.array.byte_count() + sum_array_bytes(
                            maps.subrange(0, j as int),
                        ),
                        offset + g@.array.byte_count() + sum_array_bytes(maps)
                            <= usize::MAX,
                        spec_find_value(self.dds@.values, key@, 0) == Some(index as int),
                        index < self.dds@.values.len(),
                        self.dds@.values[index as int] == ValueView::Grid(g@),
                        offset == sum_value_bytes(self.dds@.values.subrange(0, index as int)),
                        out@.len() == j,
                        forall|k: int| 0 <= k < j ==> (#[trigger] out@[k]).0@ == maps[k].name
                            && out@[k].1@ == spec_decoded(
                            data.skip(
                                offset + g@.array.byte_count() + sum_array_bytes(
                                    maps.subrange(0, k),
                                ),
                            ),
                            maps[k].data_type,
                        ),
                        forall|k: int| 0 <= k < j ==> 0 <= offset + g@.array.byte_count()
                            + sum_array_bytes(maps.subrange(0, k)) <= data.len()
                            && spec_decode_ok(
                            data.skip(
                                offset + g@.array.byte_count() + sum_array_bytes(
                                    #[trigger] maps.subrange(0, k),
                                ),
                            ),
                            maps[k].data_type,
                        ),
                        maps_decode_ok(data, offset + g@.array.byte_count(), maps)
                            == maps_decode_ok(
                            data,
                            base as int,
                            maps.skip(j as int),
                        ),
                    decreases m - j,
                {
                    proof {
                        assert(maps.skip(j as int)[0] == maps[j as int]);
                        assert(maps.skip(j as int).drop_first() =~= maps.skip(j + 1));
                        assert(maps.subrange(0, j + 1).drop_last() =~= maps.subrange(
                            0,
                            j as int,
                        ));
                        assert(maps.subrange(0, j + 1).last() == maps[j as int]);
                    }
                    if base > n {
                        return Err(Error::ParseError);
                    }
                    let rest = self.payload_from(base);
                    let arr = match DataArray::parse(rest.as_slice(), g.coords[j].data_type) {
                        Ok(arr) => arr,
                        Err(e) => {
                            return Err(e);
                        },
                    };
                    out.push((g.coords[j].name.clone(), arr));
                    let bc = g.coords[j].byte_count();
                    proof {
                        crate::dds::lemma_sum_array_prefix_bound(maps, j + 1);
                    }
                    base = base + bc;
                    j += 1;
                }
                proof {
                    assert(maps.skip(m as int) =~= Seq::<crate::dds::ArrayView>::empty());
                    assert(maps.subrange(0, m as int) =~= maps);
                }
                Ok(out)
            },
            crate::dds::DdsValue::Structure(_) => Err(Error::NotImplemented),
            crate::dds::DdsValue::Sequence(_) => Err(Error::NotImplemented),
        }
    }

    /// A copy of the payload from byte `from` to its end.
    fn payload_from(&self, from: usize) -> (r: Vec<u8>)
        requires
            from <= self.data_bytes@.len(),
        ensures
            r@ == self.data_bytes@.skip(from as int),
    {
        let n = self.data_bytes.len();
        let mut rest: Vec<u8> = Vec::new();
        let mut j: usize = from;
        while j < n
            invariant
                from <= j <= n,
                n == self.data_bytes@.len(),
                rest@.len() == j - from,
                forall|p: int| 0 <= p < j - from ==> rest@[p] == self.data_bytes@[from + p],
            decreases n - j,
        {
            rest.push(self.data_bytes[j]);
            j += 1;
        }
        proof {
            assert(rest@ =~= self.data_bytes@.skip(from as int));
        }
        rest
    }
}

} // verus!
