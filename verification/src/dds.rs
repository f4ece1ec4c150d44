//! The DDS (Dataset Descriptor Structure) tree and its parser.
//!
//! A dataset holds a list of values; a value is one of the four DAP
//! container kinds: `Array`, `Grid`, `Structure`, `Sequence`. The byte
//! layout of a DODS payload follows this tree, so every node has a byte
//! count derived from the declaration alone.

use vstd::prelude::*;

use crate::data::DataType;
use crate::errors::Error;

verus! {

/// A typed array declaration: a scalar kind, a name, and an ordered list
/// of `(dimension name, dimension size)` pairs (empty for a 0-D field).
#[derive(Clone, Debug)]
pub struct DdsArray {
    pub data_type: DataType,
    pub name: String,
    pub coords: Vec<(String, u32)>,
}

/// A grid: a main array plus one 1-D map array per dimension.
#[derive(Clone, Debug)]
pub struct DdsGrid {
    pub name: String,
    pub array: DdsArray,
    pub coords: Vec<DdsArray>,
}

/// A structure: named, with a list of member values.
#[derive(Debug)]
pub struct DdsStructure {
    pub name: String,
    pub fields: Vec<DdsValue>,
}

/// A sequence: named, with a list of member values; its records are not
/// decodable in this library.
#[derive(Debug)]
pub struct DdsSequence {
    pub name: String,
    pub fields: Vec<DdsValue>,
}

/// One top-level or nested DDS value.
#[derive(Debug)]
pub enum DdsValue {
    Array(DdsArray),
    Grid(DdsGrid),
    Structure(DdsStructure),
    Sequence(DdsSequence),
}

/// A parsed dataset: its name and its values in declaration order.
#[derive(Debug)]
pub struct DdsDataset {
    pub name: String,
    pub values: Vec<DdsValue>,
}

/// The mathematical contents of a `DdsArray`.
#[verifier::ext_equal]
pub struct ArrayView {
    pub data_type: DataType,
    pub name: Seq<char>,
    pub coords: Seq<(Seq<char>, u32)>,
}

/// The mathematical contents of a `DdsGrid`.
#[verifier::ext_equal]
pub struct GridView {
    pub name: Seq<char>,
    pub array: ArrayView,
    pub coords: Seq<ArrayView>,
}

/// The mathematical contents of a `DdsStructure`.
#[verifier::ext_equal]
pub struct StructureView {
    pub name: Seq<char>,
    pub fields: Seq<ValueView>,
}

/// The mathematical contents of a `DdsSequence`.
#[verifier::ext_equal]
pub struct SequenceView {
    pub name: Seq<char>,
    pub fields: Seq<ValueView>,
}

/// The mathematical contents of a `DdsValue`.
#[verifier::ext_equal]
pub enum ValueView {
    Array(ArrayView),
    Grid(GridView),
    Structure(StructureView),
    Sequence(SequenceView),
}

/// The mathematical contents of a `DdsDataset`.
#[verifier::ext_equal]
pub struct DatasetView {
    pub name: Seq<char>,
    pub values: Seq<ValueView>,
}

impl View for DdsArray {
    type V = ArrayView;

    open spec fn view(&self) -> ArrayView {
        ArrayView {
            data_type: self.data_type,
            name: self.name@,
            coords: self.coords@.map_values(|p: (String, u32)| (p.0@, p.1)),
        }
    }
}

impl View for DdsGrid {
    type V = GridView;

    open spec fn view(&self) -> GridView {
        GridView {
            name: self.name@,
            array: self.array@,
            coords: self.coords@.map_values(|a: DdsArray| a@),
        }
    }
}

/// The view of one value (recursing through structure and sequence
/// members).
pub open spec fn value_view(v: DdsValue) -> ValueView
    decreases v,
{
    match v {
        DdsValue::Array(a) => ValueView::Array(a@),
        DdsValue::Grid(g) => ValueView::Grid(g@),
        DdsValue::Structure(s) => ValueView::Structure(
            StructureView { name: s.name@, fields: fields_view(s.fields@) },
        ),
        DdsValue::Sequence(s) => ValueView::Sequence(
            SequenceView { name: s.name@, fields: fields_view(s.fields@) },
        ),
    }
}

/// The views of a member list.
pub open spec fn fields_view(fs: Seq<DdsValue>) -> Seq<ValueView>
    decreases fs,
{
    if fs.len() == 0 {
        Seq::empty()
    } else {
        fields_view(fs.drop_last()).push(value_view(fs.last()))
    }
}

impl View for DdsValue {
    type V = ValueView;

    open spec fn view(&self) -> ValueView {
        value_view(*self)
    }
}

impl View for DdsStructure {
    type V = StructureView;

    open spec fn view(&self) -> StructureView {
        StructureView { name: self.name@, fields: fields_view(self.fields@) }
    }
}

impl View for DdsSequence {
    type V = SequenceView;

    open spec fn view(&self) -> SequenceView {
        SequenceView { name: self.name@, fields: fields_view(self.fields@) }
    }
}

impl View for DdsDataset {
    type V = DatasetView;

    open spec fn view(&self) -> DatasetView {
        DatasetView {
            name: self.name@,
            values: self.values@.map_values(|v: DdsValue| value_view(v)),
        }
    }
}

/// The product of the dimension sizes.
pub open spec fn prod_sizes(cs: Seq<(Seq<char>, u32)>) -> nat
    decreases cs.len(),
{
    if cs.len() == 0 {
        1
    } else {
        prod_sizes(cs.drop_last()) * (cs.last().1 as nat)
    }
}

/// The sum of the byte counts of a list of arrays.
pub open spec fn sum_array_bytes(arrays: Seq<ArrayView>) -> nat
    decreases arrays.len(),
{
    if arrays.len() == 0 {
        0
    } else {
        sum_array_bytes(arrays.drop_last()) + arrays.last().byte_count()
    }
}

/// The sum of the byte counts of a member list.
pub open spec fn sum_value_bytes(fs: Seq<ValueView>) -> nat
    decreases fs,
{
    if fs.len() == 0 {
        0
    } else {
        sum_value_bytes(fs.drop_last()) + fs.last().byte_count()
    }
}

impl ArrayView {
    /// Every dimension size is positive (the documented DDS invariant).
    pub open spec fn wf(self) -> bool {
        forall|i: int| 0 <= i < self.coords.len() ==> (#[trigger] self.coords[i]).1 >= 1
    }

    /// The element count: the product of the dimension sizes.
    pub open spec fn array_length(self) -> nat {
        prod_sizes(self.coords)
    }

    /// The wire size of the array slot: the 8-byte double length header
    /// plus one fixed-width element per entry.
    pub open spec fn byte_count(self) -> nat {
        8 + self.array_length() * self.data_type.width()
    }

    /// The array's counts stay within machine bounds.
    pub open spec fn fits(self) -> bool {
        self.wf() && self.array_length() <= u32::MAX && self.byte_count() <= usize::MAX
    }
}

impl GridView {
    /// The wire size of the grid slot: the main array then every map, laid
    /// out contiguously.
    pub open spec fn byte_count(self) -> nat {
        self.array.byte_count() + sum_array_bytes(self.coords)
    }

    /// The grid's counts stay within machine bounds.
    pub open spec fn fits(self) -> bool {
        self.array.fits() && (forall|i: int|
            0 <= i < self.coords.len() ==> (#[trigger] self.coords[i]).fits())
            && self.byte_count() <= usize::MAX
    }
}

impl ValueView {
    /// The declared name of the value.
    pub open spec fn spec_name(self) -> Seq<char> {
        match self {
            ValueView::Array(a) => a.name,
            ValueView::Grid(g) => g.name,
            ValueView::Structure(s) => s.name,
            ValueView::Sequence(s) => s.name,
        }
    }

    /// The wire size of the value's slot. A sequence is not decodable, but
    /// its slot size is defined for offset arithmetic as 8 plus its
    /// members' sizes.
    pub open spec fn byte_count(self) -> nat
        decreases self,
    {
        match self {
            ValueView::Array(a) => a.byte_count(),
            ValueView::Grid(g) => g.byte_count(),
            ValueView::Structure(s) => sum_value_bytes(s.fields),
            ValueView::Sequence(s) => 8 + sum_value_bytes(s.fields),
        }
    }

    /// The value's counts stay within machine bounds, recursively.
    pub open spec fn fits(self) -> bool
        decreases self,
    {
        match self {
            ValueView::Array(a) => a.fits(),
            ValueView::Grid(g) => g.fits(),
            ValueView::Structure(s) => s.fits(),
            ValueView::Sequence(s) => s.fits(),
        }
    }
}

proof fn lemma_prod_split(cs: Seq<(Seq<char>, u32)>, i: int)
    requires
        0 <= i <= cs.len(),
    ensures
        prod_sizes(cs) == prod_sizes(cs.subrange(0, i)) * prod_sizes(cs.subrange(i, cs.len() as int)),
    decreases cs.len() - i,
{
    if i == cs.len() {
        assert(cs.subrange(0, i) =~= cs);
        assert(prod_sizes(cs.subrange(i, cs.len() as int)) == 1);
    } else {
        lemma_prod_split(cs.drop_last(), i);
        assert(cs.drop_last().subrange(0, i) =~= cs.subrange(0, i));
        let tail_all = cs.subrange(i, cs.len() as int);
        let tail_front = cs.drop_last().subrange(i, cs.len() - 1);
        assert(tail_all.drop_last() =~= tail_front);
        assert(tail_all.last() == cs.last());
        assert(prod_sizes(cs) == prod_sizes(cs.drop_last()) * (cs.last().1 as nat));
        assert(prod_sizes(cs.drop_last()) == prod_sizes(cs.subrange(0, i)) * prod_sizes(
            tail_front,
        ));
        assert(prod_sizes(tail_all) == prod_sizes(tail_front) * cs.last().1);
        assert(prod_sizes(cs.subrange(0, i)) * prod_sizes(tail_front) * cs.last().1
            == prod_sizes(cs.subrange(0, i)) * (prod_sizes(tail_front) * cs.last().1))
            by (nonlinear_arith);
    }
}

proof fn lemma_prod_ge_one(cs: Seq<(Seq<char>, u32)>)
    requires
        forall|i: int| 0 <= i < cs.len() ==> (#[trigger] cs[i]).1 >= 1,
    ensures
        prod_sizes(cs) >= 1,
    decreases cs.len(),
{
    if cs.len() > 0 {
        lemma_prod_ge_one(cs.drop_last());
        assert(cs.last() == cs[cs.len() - 1]);
        assert(prod_sizes(cs.drop_last()) * (cs.last().1 as nat) >= 1) by (nonlinear_arith)
            requires
                prod_sizes(cs.drop_last()) >= 1,
                cs.last().1 >= 1,
        ;
    }
}

proof fn lemma_prod_prefix_bound(cs: Seq<(Seq<char>, u32)>, i: int)
    requires
        0 <= i <= cs.len(),
        forall|k: int| 0 <= k < cs.len() ==> (#[trigger] cs[k]).1 >= 1,
    ensures
        prod_sizes(cs.subrange(0, i)) <= prod_sizes(cs),
{
    lemma_prod_split(cs, i);
    let tail = cs.subrange(i, cs.len() as int);
    assert(forall|k: int| 0 <= k < tail.len() ==> (#[trigger] tail[k]).1 >= 1);
    lemma_prod_ge_one(tail);
    assert(prod_sizes(cs.subrange(0, i)) * prod_sizes(tail) >= prod_sizes(cs.subrange(0, i)))
        by (nonlinear_arith)
        requires
            prod_sizes(tail) >= 1,
            prod_sizes(cs.subrange(0, i)) >= 0,
    ;
}

impl DdsArray {
    /// The element count: the product of the dimension sizes.
    pub fn array_length(&self) -> (r: u32)
        requires
            self@.wf(),
            self@.array_length() <= u32::MAX,
        ensures
            r == self@.array_length(),
    {
        let ghost cs = self@.coords;
        let n = self.coords.len();
        let mut acc: u32 = 1;
        let mut i: usize = 0;
        while i < n
            invariant
                i <= n,
                n == cs.len(),
                cs == self@.coords,
                n == self.coords@.len(),
                forall|k: int| 0 <= k < n ==> cs[k].1 == self.coords@[k].1,
                forall|k: int| 0 <= k < cs.len() ==> (#[trigger] cs[k]).1 >= 1,
                prod_sizes(cs) <= u32::MAX,
                acc == prod_sizes(cs.subrange(0, i as int)),
            decreases n - i,
        {
            proof {
                assert(cs.subrange(0, i + 1).drop_last() =~= cs.subrange(0, i as int));
                assert(cs.subrange(0, i + 1).last() == cs[i as int]);
                lemma_prod_prefix_bound(cs, i + 1);
            }
            acc = acc * self.coords[i].1;
            i += 1;
        }
        proof {
            assert(cs.subrange(0, n as int) =~= cs);
        }
        acc
    }

    /// The wire size of the array slot: `8 + array_length * width`.
    pub fn byte_count(&self) -> (r: usize)
        requires
            self@.fits(),
        ensures
            r == self@.byte_count(),
    {
        let len = self.array_length();
        let w = self.data_type.byte_count();
        8 + (len as usize) * w
    }
}

impl DdsGrid {
    /// The wire size of the grid slot: main array plus all maps.
    pub fn byte_count(&self) -> (r: usize)
        requires
            self@.fits(),
        ensures
            r == self@.byte_count(),
    {
        let ghost arrays = self@.coords;
        let mut acc: usize = self.array.byte_count();
        let n = self.coords.len();
        let mut i: usize = 0;
        while i < n
            invariant
                i <= n,
                n == arrays.len(),
                arrays == self@.coords,
                n == self.coords@.len(),
                forall|k: int| 0 <= k < n ==> arrays[k] == self.coords@[k]@,
                forall|k: int| 0 <= k < n ==> (#[trigger] arrays[k]).fits(),
                self@.array.byte_count() + sum_array_bytes(arrays) <= usize::MAX,
                acc == self@.array.byte_count() + sum_array_bytes(arrays.subrange(0, i as int)),
            decreases n - i,
        {
            proof {
                assert(arrays.subrange(0, i + 1).drop_last() =~= arrays.subrange(0, i as int));
                assert(arrays.subrange(0, i + 1).last() == arrays[i as int]);
                lemma_sum_array_prefix_bound(arrays, i + 1);
            }
            acc = acc + self.coords[i].byte_count();
            i += 1;
        }
        proof {
            assert(arrays.subrange(0, n as int) =~= arrays);
        }
        acc
    }

    /// The offset of the first map inside the grid slot: the main array's
    /// byte count.
    pub fn coords_offset(&self) -> (r: usize)
        requires
            self@.array.fits(),
        ensures
            r == self@.array.byte_count(),
    {
        self.array.byte_count()
    }

    /// The offset of each map inside the grid slot, in order. The offsets
    /// start at the main array's byte count and are strictly increasing.
    pub fn coord_offsets(&self) -> (r: Vec<usize>)
        requires
            self@.fits(),
        ensures
            r@.len() == self@.coords.len(),
            forall|i: int| 0 <= i < r@.len() ==> r@[i] == self@.array.byte_count()
                + sum_array_bytes(self@.coords.subrange(0, i)),
            r@.len() > 0 ==> r@[0] == self@.array.byte_count(),
            forall|i: int| 0 <= i < r@.len() - 1 ==> #[trigger] r@[i] < r@[i + 1],
    {
        let ghost arrays = self@.coords;
        let mut r: Vec<usize> = Vec::new();
        let mut acc: usize = self.array.byte_count();
        let n = self.coords.len();
        let mut i: usize = 0;
        while i < n
            invariant
                i <= n,
                n == arrays.len(),
                arrays == self@.coords,
                n == self.coords@.len(),
                forall|k: int| 0 <= k < n ==> arrays[k] == self.coords@[k]@,
                forall|k: int| 0 <= k < n ==> (#[trigger] arrays[k]).fits(),
                self@.array.byte_count() + sum_array_bytes(arrays) <= usize::MAX,
                acc == self@.array.byte_count() + sum_array_bytes(arrays.subrange(0, i as int)),
                r@.len() == i,
                forall|k: int| 0 <= k < i ==> r@[k] == self@.array.byte_count()
                    + sum_array_bytes(arrays.subrange(0, k)),
            decreases n - i,
        {
            proof {
                assert(arrays.subrange(0, i + 1).drop_last() =~= arrays.subrange(0, i as int));
                assert(arrays.subrange(0, i + 1).last() == arrays[i as int]);
                lemma_sum_array_prefix_bound(arrays, i + 1);
            }
            r.push(acc);
            acc = acc + self.coords[i].byte_count();
            i += 1;
        }
        proof {
            assert forall|i2: int| 0 <= i2 < r@.len() - 1 implies #[trigger] r@[i2] < r@[i2 + 1] by {
                assert(arrays.subrange(0, i2 + 1).drop_last() =~= arrays.subrange(0, i2));
                assert(arrays.subrange(0, i2 + 1).last() == arrays[i2]);
                assert(arrays[i2].byte_count() >= 8);
            }
        }
        r
    }
}

pub(crate) proof fn lemma_sum_array_prefix_bound(arrays: Seq<ArrayView>, i: int)
    requires
        0 <= i <= arrays.len(),
    ensures
        sum_array_bytes(arrays.subrange(0, i)) <= sum_array_bytes(arrays),
    decreases arrays.len() - i,
{
    if i == arrays.len() {
        assert(arrays.subrange(0, i) =~= arrays);
    } else {
        lemma_sum_array_prefix_bound(arrays, i + 1);
        assert(arrays.subrange(0, i + 1).drop_last() =~= arrays.subrange(0, i));
        assert(arrays.subrange(0, i + 1).last() == arrays[i]);
    }
}

pub(crate) proof fn lemma_sum_value_prefix_bound(fs: Seq<ValueView>, i: int)
    requires
        0 <= i <= fs.len(),
    ensures
        sum_value_bytes(fs.subrange(0, i)) <= sum_value_bytes(fs),
    decreases fs.len() - i,
{
    if i == fs.len() {
        assert(fs.subrange(0, i) =~= fs);
    } else {
        lemma_sum_value_prefix_bound(fs, i + 1);
        assert(fs.subrange(0, i + 1).drop_last() =~= fs.subrange(0, i));
        assert(fs.subrange(0, i + 1).last() == fs[i]);
    }
}

fn sum_fields_bytes_exec(fields: &Vec<DdsValue>) -> (r: usize)
    requires
        forall|i: int| 0 <= i < fields@.len() ==> (#[trigger] fields_view(fields@)[i]).fits(),
        fields_view(fields@).len() == fields@.len(),
        sum_value_bytes(fields_view(fields@)) <= usize::MAX,
    ensures
        r == sum_value_bytes(fields_view(fields@)),
    decreases fields@,
{
    let ghost fs = fields_view(fields@);
    let n = fields.len();
    let mut acc: usize = 0;
    let mut i: usize = 0;
    while i < n
        invariant
            i <= n,
            n == fields@.len(),
            fs == fields_view(fields@),
            fs.len() == n,
            forall|k: int| 0 <= k < n ==> (#[trigger] fs[k]).fits(),
            sum_value_bytes(fs) <= usize::MAX,
            acc == sum_value_bytes(fs.subrange(0, i as int)),
        decreases n - i,
    {
        proof {
            assert(fs.subrange(0, i + 1).drop_last() =~= fs.subrange(0, i as int));
            assert(fs.subrange(0, i + 1).last() == fs[i as int]);
            lemma_sum_value_prefix_bound(fs, i + 1);
            lemma_fields_view_index(fields@, i as int);
        }
        acc = acc + fields[i].byte_count();
        i += 1;
    }
    proof {
        assert(fs.subrange(0, n as int) =~= fs);
    }
    acc
}

/// The view of member `i` is the view of the `i`th member.
pub proof fn lemma_fields_view_index(fs: Seq<DdsValue>, i: int)
    requires
        0 <= i < fs.len(),
    ensures
        fields_view(fs).len() == fs.len(),
        fields_view(fs)[i] == value_view(fs[i]),
    decreases fs,
{
    lemma_fields_view_len(fs);
    if i + 1 < fs.len() {
        lemma_fields_view_index(fs.drop_last(), i);
    }
}

/// A member list's view has one entry per member.
pub proof fn lemma_fields_view_len(fs: Seq<DdsValue>)
    ensures
        fields_view(fs).len() == fs.len(),
    decreases fs,
{
    if fs.len() > 0 {
        lemma_fields_view_len(fs.drop_last());
    }
}

impl DdsStructure {
    /// The wire size of the structure slot: the sum of its members'.
    pub fn byte_count(&self) -> (r: usize)
        requires
            self@.fits(),
        ensures
            r == self@.spec_byte_count(),
        decreases self.fields@,
    {
        proof {
            lemma_fields_view_len(self.fields@);
        }
        sum_fields_bytes_exec(&self.fields)
    }
}

impl StructureView {
    /// The wire size of the structure slot.
    pub open spec fn spec_byte_count(self) -> nat {
        sum_value_bytes(self.fields)
    }

    /// The structure's counts stay within machine bounds, recursively.
    pub open spec fn fits(self) -> bool
        decreases self,
    {
        (forall|i: int| 0 <= i < self.fields.len() ==> (#[trigger] self.fields[i]).fits())
            && self.spec_byte_count() <= usize::MAX
    }
}

impl SequenceView {
    /// The slot size used for offset arithmetic past a sequence.
    pub open spec fn spec_byte_count(self) -> nat {
        8 + sum_value_bytes(self.fields)
    }

    /// The sequence's counts stay within machine bounds, recursively.
    pub open spec fn fits(self) -> bool
        decreases self,
    {
        (forall|i: int| 0 <= i < self.fields.len() ==> (#[trigger] self.fields[i]).fits())
            && self.spec_byte_count() <= usize::MAX
    }
}

impl DdsSequence {
    /// The slot size used for offset arithmetic: 8 plus the members' sizes
    /// (sequence records themselves are not decodable).
    pub fn byte_count(&self) -> (r: usize)
        requires
            self@.fits(),
        ensures
            r == self@.spec_byte_count(),
        decreases self.fields@,
    {
        proof {
            lemma_fields_view_len(self.fields@);
        }
        8 + sum_fields_bytes_exec(&self.fields)
    }
}

impl DdsValue {
    /// The declared name of the value.
    pub fn name(&self) -> (r: String)
        ensures
            r@ == self@.spec_name(),
    {
        match self {
            DdsValue::Array(a) => a.name.clone(),
            DdsValue::Grid(g) => g.name.clone(),
            DdsValue::Structure(s) => s.name.clone(),
            DdsValue::Sequence(s) => s.name.clone(),
        }
    }

    /// The wire size of the value's slot.
    pub fn byte_count(&self) -> (r: usize)
        requires
            self@.fits(),
        ensures
            r == self@.byte_count(),
        decreases *self,
    {
        match self {
            DdsValue::Array(a) => a.byte_count(),
            DdsValue::Grid(g) => g.byte_count(),
            DdsValue::Structure(s) => {
                proof {
                    lemma_fields_view_len(s.fields@);
                }
                sum_fields_bytes_exec(&s.fields)
            },
            DdsValue::Sequence(s) => {
                proof {
                    lemma_fields_view_len(s.fields@);
                }
                8 + sum_fields_bytes_exec(&s.fields)
            },
        }
    }

    /// The scalar kind of an array, or of a grid's main array. The other
    /// kinds have no single scalar kind and are outside this operation's
    /// domain.
    pub fn array_data_type(&self) -> (r: DataType)
        requires
            self@ is Array || self@ is Grid,
        ensures
            self@ matches ValueView::Array(a) ==> r == a.data_type,
            self@ matches ValueView::Grid(g) ==> r == g.array.data_type,
    {
        match self {
            DdsValue::Array(a) => a.data_type,
            DdsValue::Grid(g) => g.array.data_type,
            DdsValue::Structure(_) => DataType::String,
            DdsValue::Sequence(_) => DataType::String,
        }
    }

    /// The dimension names the value declares: an array's dimension names,
    /// or a grid's map names; structures and sequences have none.
    pub fn coords(&self) -> (r: Vec<String>)
        ensures
            r@.map_values(|s: String| s@) == self@.spec_coords(),
    {
        let mut out: Vec<String> = Vec::new();
        match self {
            DdsValue::Array(a) => {
                let n = a.coords.len();
                let mut i: usize = 0;
                while i < n
                    invariant
                        i <= n,
                        n == a.coords@.len(),
                        out@.len() == i,
                        forall|k: int| 0 <= k < i ==> out@[k]@ == a.coords@[k].0@,
                    decreases n - i,
                {
                    out.push(a.coords[i].0.clone());
                    i += 1;
                }
            },
            DdsValue::Grid(g) => {
                let n = g.coords.len();
                let mut i: usize = 0;
                while i < n
                    invariant
                        i <= n,
                        n == g.coords@.len(),
                        out@.len() == i,
                        forall|k: int| 0 <= k < i ==> out@[k]@ == g.coords@[k].name@,
                    decreases n - i,
                {
                    out.push(g.coords[i].name.clone());
                    i += 1;
                }
            },
            DdsValue::Structure(_) => {},
            DdsValue::Sequence(_) => {},
        }
        proof {
            assert(out@.map_values(|s: String| s@) =~= self@.spec_coords());
        }
        out
    }

    /// The value as an array, or `InvalidTypecast`.
    pub fn array(&self) -> (r: Result<&DdsArray, Error>)
        ensures
            self@ matches ValueView::Array(av) ==> (r matches Ok(a) && a@ == av),
            !(self@ is Array) ==> (r matches Err(e) && e is InvalidTypecast),
    {
        match self {
            DdsValue::Array(a) => Ok(a),
            _ => Err(Error::InvalidTypecast),
        }
    }

    /// The value as a grid, or `InvalidTypecast`.
    pub fn grid(&self) -> (r: Result<&DdsGrid, Error>)
        ensures
            self@ matches ValueView::Grid(gv) ==> (r matches Ok(g) && g@ == gv),
            !(self@ is Grid) ==> (r matches Err(e) && e is InvalidTypecast),
    {
        match self {
            DdsValue::Grid(g) => Ok(g),
            _ => Err(Error::InvalidTypecast),
        }
    }

    /// The value as a structure, or `InvalidTypecast`.
    pub fn structure(&self) -> (r: Result<&DdsStructure, Error>)
        ensures
            self@ matches ValueView::Structure(sv) ==> (r matches Ok(s) && s@ == sv),
            !(self@ is Structure) ==> (r matches Err(e) && e is InvalidTypecast),
    {
        match self {
            DdsValue::Structure(s) => Ok(s),
            _ => Err(Error::InvalidTypecast),
        }
    }

    /// The value as a sequence, or `InvalidTypecast`.
    pub fn sequence(&self) -> (r: Result<&DdsSequence, Error>)
        ensures
            self@ matches ValueView::Sequence(sv) ==> (r matches Ok(s) && s@ == sv),
            !(self@ is Sequence) ==> (r matches Err(e) && e is InvalidTypecast),
    {
        match self {
            DdsValue::Sequence(s) => Ok(s),
            _ => Err(Error::InvalidTypecast),
        }
    }
}

impl ValueView {
    /// The dimension names the value declares.
    pub open spec fn spec_coords(self) -> Seq<Seq<char>> {
        match self {
            ValueView::Array(a) => a.coords.map_values(|p: (Seq<char>, u32)| p.0),
            ValueView::Grid(g) => g.coords.map_values(|a: ArrayView| a.name),
            ValueView::Structure(_) => Seq::empty(),
            ValueView::Sequence(_) => Seq::empty(),
        }
    }

    /// Whether the value declares dimension `c`.
    pub open spec fn has_coord(self, c: Seq<char>) -> bool {
        self.spec_coords().contains(c)
    }
}

/// The first position at or after `i` of a value named `name`.
pub open spec fn spec_find_value(vs: Seq<ValueView>, name: Seq<char>, i: int) -> Option<int>
    decreases vs.len() - i,
{
    if i < 0 || i >= vs.len() {
        None
    } else if vs[i].spec_name() == name {
        Some(i)
    } else {
        spec_find_value(vs, name, i + 1)
    }
}

/// Skipping positions whose names differ does not change the first match.
pub proof fn lemma_find_value_skip(vs: Seq<ValueView>, name: Seq<char>, j: int, i: int)
    requires
        0 <= j <= i <= vs.len(),
        forall|k: int| j <= k < i ==> (#[trigger] vs[k]).spec_name() != name,
    ensures
        spec_find_value(vs, name, j) == spec_find_value(vs, name, i),
    decreases i - j,
{
    if j < i {
        lemma_find_value_skip(vs, name, j + 1, i);
    }
}

impl DatasetView {
    /// Whether some value of the dataset declares dimension `c`.
    pub open spec fn is_coord_name(self, c: Seq<char>) -> bool {
        exists|i: int| 0 <= i < self.values.len() && (#[trigger] self.values[i]).has_coord(c)
    }

    /// Whether some value of the dataset is named `name`.
    pub open spec fn has_variable(self, name: Seq<char>) -> bool {
        exists|i: int| 0 <= i < self.values.len() && (#[trigger] self.values[i]).spec_name()
            == name
    }
}

/// Some entry of `out` reads `c`.
pub open spec fn names_contain(out: Seq<String>, c: Seq<char>) -> bool {
    exists|k: int| 0 <= k < out.len() && (#[trigger] out[k])@ == c
}

fn string_vec_contains(v: &Vec<String>, s: &str) -> (r: bool)
    ensures
        r == names_contain(v@, s@),
{
    let n = v.len();
    let mut i: usize = 0;
    while i < n
        invariant
            i <= n,
            n == v@.len(),
            forall|k: int| 0 <= k < i ==> (#[trigger] v@[k])@ != s@,
        decreases n - i,
    {
        if crate::text::str_eq(v[i].as_str(), s) {
            return true;
        }
        i += 1;
    }
    false
}

impl DdsDataset {
    /// The names of the dataset's values, in declaration order.
    pub fn list_variables(&self) -> (r: Vec<String>)
        ensures
            r@.len() == self@.values.len(),
            forall|i: int| 0 <= i < r@.len() ==> (#[trigger] r@[i])@
                == self@.values[i].spec_name(),
    {
        let mut out: Vec<String> = Vec::new();
        let n = self.values.len();
        let mut i: usize = 0;
        while i < n
            invariant
                i <= n,
                n == self.values@.len(),
                self@.values.len() == n,
                forall|k: int| 0 <= k < n ==> self@.values[k] == value_view(
                    #[trigger] self.values@[k],
                ),
                out@.len() == i,
                forall|k: int| 0 <= k < i ==> (#[trigger] out@[k])@
                    == self@.values[k].spec_name(),
            decreases n - i,
        {
            out.push(self.values[i].name());
            i += 1;
        }
        out
    }

    /// Whether the dataset holds a value named `name`.
    pub fn has_variable(&self, name: &str) -> (r: bool)
        ensures
            r == self@.has_variable(name@),
    {
        let n = self.values.len();
        let mut i: usize = 0;
        while i < n
            invariant
                i <= n,
                n == self.values@.len(),
                self@.values.len() == n,
                forall|k: int| 0 <= k < n ==> self@.values[k] == value_view(
                    #[trigger] self.values@[k],
                ),
                forall|k: int| 0 <= k < i ==> (#[trigger] self@.values[k]).spec_name() != name@,
            decreases n - i,
        {
            let vn = self.values[i].name();
            proof {
                assert(self@.values[i as int] == value_view(self.values@[i as int]));
            }
            if crate::text::str_eq(vn.as_str(), name) {
                proof {
                    assert(self@.values[i as int].spec_name() == name@);
                }
                return true;
            }
            i += 1;
        }
        false
    }

    /// Whether some value of the dataset declares dimension `name`.
    pub fn has_coordinate(&self, name: &str) -> (r: bool)
        ensures
            r == self@.is_coord_name(name@),
    {
        let n = self.values.len();
        let mut i: usize = 0;
        while i < n
            invariant
                i <= n,
                n == self.values@.len(),
                self@.values.len() == n,
                forall|k: int| 0 <= k < n ==> self@.values[k] == value_view(
                    #[trigger] self.values@[k],
                ),
                forall|k: int| 0 <= k < i ==> !(#[trigger] self@.values[k]).has_coord(name@),
            decreases n - i,
        {
            if value_uses_coord(&self.values[i], name) {
                proof {
                    assert(self@.values[i as int].has_coord(name@));
                }
                return true;
            }
            i += 1;
        }
        false
    }

    /// The dimension names declared anywhere in the dataset, without
    /// duplicates (first occurrence order).
    pub fn list_coordinates(&self) -> (r: Vec<String>)
        ensures
            forall|k: int| 0 <= k < r@.len() ==> self@.is_coord_name((#[trigger] r@[k])@),
            forall|c: Seq<char>| self@.is_coord_name(c) ==> exists|k: int|
                0 <= k < r@.len() && (#[trigger] r@[k])@ == c,
            forall|k1: int, k2: int| 0 <= k1 < k2 < r@.len() ==> (#[trigger] r@[k1])@
                != (#[trigger] r@[k2])@,
    {
        let mut out: Vec<String> = Vec::new();
        let n = self.values.len();
        let mut i: usize = 0;
        while i < n
            invariant
                i <= n,
                n == self.values@.len(),
                self@.values.len() == n,
                forall|k: int| 0 <= k < n ==> self@.values[k] == value_view(
                    #[trigger] self.values@[k],
                ),
                forall|k: int| 0 <= k < out@.len() ==> self@.is_coord_name(
                    (#[trigger] out@[k])@,
                ),
                forall|vi: int, c: Seq<char>|
                    0 <= vi < i && #[trigger] self@.values[vi].has_coord(c)
                        ==> names_contain(out@, c),
                forall|k1: int, k2: int| 0 <= k1 < k2 < out@.len() ==> (#[trigger] out@[k1])@
                    != (#[trigger] out@[k2])@,
            decreases n - i,
        {
            let names = self.values[i].coords();
            let m = names.len();
            let ghost nv = names@.map_values(|s: String| s@);
            let mut j: usize = 0;
            while j < m
                invariant
                    j <= m,
                    m == names@.len(),
                    nv == names@.map_values(|s: String| s@),
                    nv == self@.values[i as int].spec_coords(),
                    i < n,
                    self@.values.len() == n,
                    forall|k: int| 0 <= k < out@.len() ==> self@.is_coord_name(
                        (#[trigger] out@[k])@,
                    ),
                    forall|vi: int, c: Seq<char>|
                        0 <= vi < i && #[trigger] self@.values[vi].has_coord(c)
                            ==> names_contain(out@, c),
                    forall|jj: int| 0 <= jj < j ==> names_contain(out@, #[trigger] nv[jj]),
                    forall|k1: int, k2: int| 0 <= k1 < k2 < out@.len() ==> (
                    #[trigger] out@[k1])@ != (#[trigger] out@[k2])@,
                decreases m - j,
            {
                let ghost out_old = out@;
                let present = string_vec_contains(&out, names[j].as_str());
                if !present {
                    out.push(names[j].clone());
                }
                proof {
                    assert forall|c: Seq<char>| names_contain(out_old, c) implies names_contain(
                        out@,
                        c,
                    ) by {
                        let k = choose|k: int| 0 <= k < out_old.len() && (#[trigger] out_old[k])@
                            == c;
                        assert(out@[k]@ == c);
                    }
                    assert(nv[j as int] == self@.values[i as int].spec_coords()[j as int]);
                    assert(self@.values[i as int].spec_coords().contains(nv[j as int]));
                    assert(self@.values[i as int].has_coord(nv[j as int]));
                    assert(self@.is_coord_name(nv[j as int]));
                    if !present {
                        assert(out@[out@.len() - 1]@ == nv[j as int]);
                        assert(names_contain(out@, nv[j as int]));
                    }
                }
                j += 1;
            }
            i += 1;
        }
        out
    }
}

fn value_uses_coord(v: &DdsValue, c: &str) -> (r: bool)
    ensures
        r == value_view(*v).has_coord(c@),
{
    let names = v.coords();
    let r = string_vec_contains(&names, c);
    proof {
        let sc = value_view(*v).spec_coords();
        assert(names@.map_values(|s: String| s@) == sc);
        if r {
            let k = choose|k: int| 0 <= k < names@.len() && (#[trigger] names@[k])@ == c@;
            assert(sc[k] == c@);
        } else {
            if sc.contains(c@) {
                let k = choose|k: int| 0 <= k < sc.len() && sc[k] == c@;
                assert((names@[k])@ == c@);
                assert(names_contain(names@, c@));
            }
        }
    }
    r
}

/// The first dimension pair at or after `j` named `c`.
pub open spec fn find_dim(cs: Seq<(Seq<char>, u32)>, c: Seq<char>, j: int) -> Option<int>
    decreases cs.len() - j,
{
    if j < 0 || j >= cs.len() {
        None
    } else if cs[j].0 == c {
        Some(j)
    } else {
        find_dim(cs, c, j + 1)
    }
}

/// The first map array at or after `j` named `c`.
pub open spec fn find_map(ms: Seq<ArrayView>, c: Seq<char>, j: int) -> Option<int>
    decreases ms.len() - j,
{
    if j < 0 || j >= ms.len() {
        None
    } else if ms[j].name == c {
        Some(j)
    } else {
        find_map(ms, c, j + 1)
    }
}

proof fn lemma_find_dim_skip(cs: Seq<(Seq<char>, u32)>, c: Seq<char>, j: int, i: int)
    requires
        0 <= j <= i <= cs.len(),
        forall|k: int| j <= k < i ==> (#[trigger] cs[k]).0 != c,
    ensures
        find_dim(cs, c, j) == find_dim(cs, c, i),
    decreases i - j,
{
    if j < i {
        lemma_find_dim_skip(cs, c, j + 1, i);
    }
}

proof fn lemma_find_map_skip(ms: Seq<ArrayView>, c: Seq<char>, j: int, i: int)
    requires
        0 <= j <= i <= ms.len(),
        forall|k: int| j <= k < i ==> (#[trigger] ms[k]).name != c,
    ensures
        find_map(ms, c, j) == find_map(ms, c, i),
    decreases i - j,
{
    if j < i {
        lemma_find_map_skip(ms, c, j + 1, i);
    }
}

/// What one value reports about dimension `c`: for an array, the array's
/// scalar kind and the first matching dimension's declared size; for a
/// grid, the first matching map's scalar kind and length; nothing for the
/// other kinds.
pub open spec fn coord_size_of(v: ValueView, c: Seq<char>) -> Option<(DataType, nat)> {
    match v {
        ValueView::Array(a) => match find_dim(a.coords, c, 0) {
            Some(j) => Some((a.data_type, a.coords[j].1 as nat)),
            None => None,
        },
        ValueView::Grid(g) => match find_map(g.coords, c, 0) {
            Some(j) => Some((g.coords[j].data_type, g.coords[j].array_length())),
            None => None,
        },
        ValueView::Structure(_) => None,
        ValueView::Sequence(_) => None,
    }
}

/// The kind and size that the first value mentioning dimension `c` at or
/// after position `i` reports.
pub open spec fn spec_coord_first(vs: Seq<ValueView>, c: Seq<char>, i: int) -> Option<
    (DataType, nat),
>
    decreases vs.len() - i,
{
    if i < 0 || i >= vs.len() {
        None
    } else {
        match coord_size_of(vs[i], c) {
            Some(p) => Some(p),
            None => spec_coord_first(vs, c, i + 1),
        }
    }
}

proof fn lemma_coord_first_skip(vs: Seq<ValueView>, c: Seq<char>, j: int, i: int)
    requires
        0 <= j <= i <= vs.len(),
        forall|k: int| j <= k < i ==> coord_size_of(#[trigger] vs[k], c) is None,
    ensures
        spec_coord_first(vs, c, j) == spec_coord_first(vs, c, i),
    decreases i - j,
{
    if j < i {
        lemma_coord_first_skip(vs, c, j + 1, i);
    }
}

/// The names of the values for which `coord_size_of` reports dimension
/// `c`, in declaration order.
pub open spec fn spec_users_of(vs: Seq<ValueView>, c: Seq<char>) -> Seq<Seq<char>>
    decreases vs.len(),
{
    if vs.len() == 0 {
        Seq::empty()
    } else if coord_size_of(vs.last(), c) is Some {
        spec_users_of(vs.drop_last(), c).push(vs.last().spec_name())
    } else {
        spec_users_of(vs.drop_last(), c)
    }
}

fn clone_dims(v: &Vec<(String, u32)>) -> (r: Vec<(String, u32)>)
    ensures
        r@.map_values(|p: (String, u32)| (p.0@, p.1)) == v@.map_values(
            |p: (String, u32)| (p.0@, p.1),
        ),
{
    let n = v.len();
    let mut out: Vec<(String, u32)> = Vec::new();
    let mut i: usize = 0;
    while i < n
        invariant
            i <= n,
            n == v@.len(),
            out@.len() == i,
            forall|k: int| 0 <= k < i ==> (#[trigger] out@[k]).0@ == v@[k].0@ && out@[k].1
                == v@[k].1,
        decreases n - i,
    {
        out.push((v[i].0.clone(), v[i].1));
        i += 1;
    }
    proof {
        assert(out@.map_values(|p: (String, u32)| (p.0@, p.1)) =~= v@.map_values(
            |p: (String, u32)| (p.0@, p.1),
        ));
    }
    out
}

fn coord_probe(v: &DdsValue, c: &str) -> (r: Option<(DataType, u32)>)
    requires
        value_view(*v).fits(),
    ensures
        r is Some <==> coord_size_of(value_view(*v), c@) is Some,
        r matches Some(p) ==> coord_size_of(value_view(*v), c@) == Some(
            (p.0, p.1 as nat),
        ),
{
    match v {
        DdsValue::Array(a) => {
            let ghost cs = a@.coords;
            let n = a.coords.len();
            let mut j: usize = 0;
            while j < n
                invariant
                    j <= n,
                    n == cs.len(),
                    cs == a@.coords,
                    n == a.coords@.len(),
                    forall|k: int| 0 <= k < n ==> cs[k].0 == (#[trigger] a.coords@[k]).0@
                        && cs[k].1 == a.coords@[k].1,
                    forall|k: int| 0 <= k < j ==> (#[trigger] cs[k]).0 != c@,
                    value_view(*v) == ValueView::Array(a@),
                decreases n - j,
            {
                if crate::text::str_eq(a.coords[j].0.as_str(), c) {
                    proof {
                        lemma_find_dim_skip(cs, c@, 0, j as int);
                    }
                    return Some((a.data_type, a.coords[j].1));
                }
                j += 1;
            }
            proof {
                lemma_find_dim_skip(cs, c@, 0, n as int);
            }
            None
        },
        DdsValue::Grid(g) => {
            let ghost ms = g@.coords;
            let n = g.coords.len();
            let mut j: usize = 0;
            while j < n
                invariant
                    j <= n,
                    n == ms.len(),
                    ms == g@.coords,
                    n == g.coords@.len(),
                    forall|k: int| 0 <= k < n ==> ms[k] == (#[trigger] g.coords@[k])@,
                    forall|k: int| 0 <= k < j ==> (#[trigger] ms[k]).name != c@,
                    value_view(*v).fits(),
                    value_view(*v) == ValueView::Grid(g@),
                decreases n - j,
            {
                if crate::text::str_eq(g.coords[j].name.as_str(), c) {
                    proof {
                        lemma_find_map_skip(ms, c@, 0, j as int);
                        assert(g@.fits());
                        assert(ms[j as int].fits());
                    }
                    let len = g.coords[j].array_length();
                    return Some((g.coords[j].data_type, len));
                }
                j += 1;
            }
            proof {
                lemma_find_map_skip(ms, c@, 0, n as int);
            }
            None
        },
        DdsValue::Structure(_) => None,
        DdsValue::Sequence(_) => None,
    }
}

impl DatasetView {
    /// Every value's counts stay within machine bounds.
    pub open spec fn fits(self) -> bool {
        forall|i: int| 0 <= i < self.values.len() ==> (#[trigger] self.values[i]).fits()
    }
}

impl DdsDataset {
    /// The metadata of the first value named `name`: its kind, scalar
    /// kind, dimension names and sizes.
    pub fn get_variable_info(&self, name: &str) -> (r: Option<crate::query::VariableInfo>)
        ensures
            r is Some <==> spec_find_value(self@.values, name@, 0) is Some,
            r matches Some(info) ==> (spec_find_value(self@.values, name@, 0) matches Some(
                i,
            ) && info@ == crate::query::spec_variable_info(self@.values[i])),
    {
        let ghost vs = self@.values;
        let n = self.values.len();
        let mut i: usize = 0;
        while i < n
            invariant
                i <= n,
                n == self.values@.len(),
                vs == self@.values,
                vs.len() == n,
                forall|k: int| 0 <= k < n ==> vs[k] == value_view(#[trigger] self.values@[k]),
                forall|k: int| 0 <= k < i ==> (#[trigger] vs[k]).spec_name() != name@,
            decreases n - i,
        {
            let vn = self.values[i].name();
            if crate::text::str_eq(vn.as_str(), name) {
                proof {
                    lemma_find_value_skip(vs, name@, 0, i as int);
                }
                let coordinates = self.values[i].coords();
                let info = match &self.values[i] {
                    DdsValue::Array(a) => crate::query::VariableInfo {
                        name: a.name.clone(),
                        data_type: a.data_type,
                        coordinates,
                        dimensions: clone_dims(&a.coords),
                        variable_type: crate::query::VariableType::Array,
                    },
                    DdsValue::Grid(g) => crate::query::VariableInfo {
                        name: g.name.clone(),
                        data_type: g.array.data_type,
                        coordinates,
                        dimensions: clone_dims(&g.array.coords),
                        variable_type: crate::query::VariableType::Grid,
                    },
                    DdsValue::Structure(s) => crate::query::VariableInfo {
                        name: s.name.clone(),
                        data_type: DataType::String,
                        coordinates,
                        dimensions: Vec::new(),
                        variable_type: crate::query::VariableType::Structure,
                    },
                    DdsValue::Sequence(s) => crate::query::VariableInfo {
                        name: s.name.clone(),
                        data_type: DataType::String,
                        coordinates,
                        dimensions: Vec::new(),
                        variable_type: crate::query::VariableType::Sequence,
                    },
                };
                proof {
                    assert(info@ =~~= crate::query::spec_variable_info(vs[i as int]));
                }
                return Some(info);
            }
            i += 1;
        }
        proof {
            lemma_find_value_skip(vs, name@, 0, n as int);
        }
        None
    }

    /// The metadata of dimension `name`: the scalar kind and size reported
    /// by the first value that declares it, and the names of every value
    /// that declares it.
    pub fn get_coordinate_info(&self, name: &str) -> (r: Option<crate::query::CoordinateInfo>)
        requires
            self@.fits(),
        ensures
            r is Some <==> spec_coord_first(self@.values, name@, 0) is Some,
            r matches Some(info) ==> {
                &&& spec_coord_first(self@.values, name@, 0) == Some(
                    (info.data_type, info.size as nat),
                )
                &&& info.name@ == name@
                &&& info.variables_using@.map_values(|s: String| s@) == spec_users_of(
                    self@.values,
                    name@,
                )
            },
    {
        let ghost vs = self@.values;
        let n = self.values.len();
        let mut found: Option<(DataType, u32)> = None;
        let mut users: Vec<String> = Vec::new();
        let mut i: usize = 0;
        while i < n
            invariant
                i <= n,
                n == self.values@.len(),
                vs == self@.values,
                vs.len() == n,
                forall|k: int| 0 <= k < n ==> vs[k] == value_view(#[trigger] self.values@[k]),
                forall|k: int| 0 <= k < n ==> (#[trigger] vs[k]).fits(),
                found is None ==> (forall|k: int| 0 <= k < i ==> coord_size_of(
                    #[trigger] vs[k],
                    name@,
                ) is None),
                found matches Some(p) ==> spec_coord_first(vs, name@, 0) == Some(
                    (p.0, p.1 as nat),
                ),
                users@.map_values(|s: String| s@) == spec_users_of(
                    vs.subrange(0, i as int),
                    name@,
                ),
            decreases n - i,
        {
            proof {
                assert(vs.subrange(0, i + 1).drop_last() =~= vs.subrange(0, i as int));
                assert(vs.subrange(0, i + 1).last() == vs[i as int]);
            }
            let probe = coord_probe(&self.values[i], name);
            match probe {
                Some(p) => {
                    let ghost users_old = users@;
                    users.push(self.values[i].name());
                    proof {
                        assert(users@.map_values(|s: String| s@) =~= users_old.map_values(
                            |s: String| s@,
                        ).push(vs[i as int].spec_name()));
                    }
                    if found.is_none() {
                        proof {
                            lemma_coord_first_skip(vs, name@, 0, i as int);
                        }
                        found = Some(p);
                    }
                },
                None => {
                    proof {
                        assert(users@.map_values(|s: String| s@) == spec_users_of(
                            vs.subrange(0, i + 1),
                            name@,
                        ));
                    }
                },
            }
            i += 1;
        }
        proof {
            assert(vs.subrange(0, n as int) =~= vs);
            if found is None {
                lemma_coord_first_skip(vs, name@, 0, n as int);
            }
        }
        match found {
            Some(p) => Some(
                crate::query::CoordinateInfo {
                    name: name.to_owned(),
                    data_type: p.0,
                    size: p.1,
                    variables_using: users,
                },
            ),
            None => None,
        }
    }
}


/// One dimension declaration `[name = size]` at position `i`: the position
/// after the closing bracket, the trimmed name, and the size.
pub open spec fn spec_parse_coordinate(s: Seq<char>, i: int) -> Option<(int, (Seq<char>, u32))> {
    if !crate::text::match_at(s, i, "["@) {
        None
    } else {
        match crate::text::spec_find_char(s, i + 1, '=') {
            None => None,
            Some(j) => {
                let name = crate::text::spec_trimmed(s, i + 1, j);
                match crate::text::spec_find_char(s, j + 1, ']') {
                    None => None,
                    Some(k) => match crate::text::spec_parse_u32(
                        crate::text::spec_trimmed(s, j + 1, k),
                    ) {
                        None => None,
                        Some(len) => Some((k + 1, (name, len))),
                    },
                }
            },
        }
    }
}

/// A dimension list terminated by `;`: zero or more `[name = size]`
/// declarations, then the terminating semicolon.
pub open spec fn spec_parse_coords(s: Seq<char>, i: int) -> Option<(int, Seq<(Seq<char>, u32)>)>
    decreases s.len() - i,
{
    if i < 0 || i > s.len() {
        None
    } else if crate::text::match_at(s, i, ";"@) {
        Some((i + 1, Seq::empty()))
    } else {
        match spec_parse_coordinate(s, i) {
            None => None,
            Some((j, c)) => if i < j <= s.len() {
                match spec_parse_coords(s, j) {
                    None => None,
                    Some((k, rest)) => Some((k, seq![c] + rest)),
                }
            } else {
                None
            },
        }
    }
}

/// An array declaration at position `i`: a scalar kind, a name running up
/// to the first `[`, a dimension list, and the terminating `;`.
pub open spec fn spec_parse_array(s: Seq<char>, i: int) -> Option<(int, ArrayView)> {
    match DataType::spec_parse(s, i) {
        None => None,
        Some((j, dt)) => match crate::text::spec_find_char(s, j, '[') {
            None => None,
            Some(p) => match spec_parse_coords(s, p) {
                None => None,
                Some((k, coords)) => Some(
                    (
                        k,
                        ArrayView {
                            data_type: dt,
                            name: crate::text::spec_trimmed(s, j, p),
                            coords,
                        },
                    ),
                ),
            },
        },
    }
}

pub fn parse_coordinate(s: &str, i: usize) -> (r: Option<(usize, (String, u32))>)
    requires
        i <= s@.len(),
    ensures
        (r is Some) == (spec_parse_coordinate(s@, i as int) is Some),
        r matches Some(p) ==> spec_parse_coordinate(s@, i as int) == Some(
            (p.0 as int, (p.1.0@, p.1.1)),
        ) && i < p.0 <= s@.len(),
{
    let _sn = s.unicode_len();
    proof {
        reveal_strlit("[");
    }
    if !crate::text::match_lit(s, i, "[") {
        return None;
    }
    let j = match crate::text::find_char(s, i + 1, '=') {
        Some(j) => j,
        None => {
            return None;
        },
    };
    let name = crate::text::substring_trimmed(s, i + 1, j);
    let k = match crate::text::find_char(s, j + 1, ']') {
        Some(k) => k,
        None => {
            return None;
        },
    };
    let len = match crate::text::parse_u32_trimmed(s, j + 1, k) {
        Some(len) => len,
        None => {
            return None;
        },
    };
    Some((k + 1, (name, len)))
}

fn parse_coords(s: &str, i: usize) -> (r: Option<(usize, Vec<(String, u32)>)>)
    requires
        i <= s@.len(),
    ensures
        (r is Some) == (spec_parse_coords(s@, i as int) is Some),
        r matches Some(p) ==> spec_parse_coords(s@, i as int) == Some(
            (p.0 as int, p.1@.map_values(|q: (String, u32)| (q.0@, q.1))),
        ) && i < p.0 <= s@.len(),
    decreases s@.len() - i,
{
    let _sn = s.unicode_len();
    proof {
        reveal_strlit(";");
    }
    if crate::text::match_lit(s, i, ";") {
        let out: Vec<(String, u32)> = Vec::new();
        proof {
            assert(out@.map_values(|q: (String, u32)| (q.0@, q.1)) =~= Seq::<(
                Seq<char>,
                u32,
            )>::empty());
        }
        return Some((i + 1, out));
    }
    let (j, c) = match parse_coordinate(s, i) {
        Some(p) => p,
        None => {
            return None;
        },
    };
    let (k, rest) = match parse_coords(s, j) {
        Some(p) => p,
        None => {
            return None;
        },
    };
    let mut out = rest;
    out.insert(0, c);
    proof {
        assert(out@.map_values(|q: (String, u32)| (q.0@, q.1)) =~= seq![
            (c.0@, c.1),
        ] + out@.drop_first().map_values(|q: (String, u32)| (q.0@, q.1)));
    }
    Some((k, out))
}

impl DdsArray {
    /// Reads one array declaration starting at position `from` of `s`,
    /// returning the position after its `;` and the array.
    pub fn parse(s: &str, from: usize) -> (r: Option<(usize, DdsArray)>)
        requires
            from <= s@.len(),
        ensures
            (r is Some) == (spec_parse_array(s@, from as int) is Some),
            r matches Some(p) ==> spec_parse_array(s@, from as int) == Some(
                (p.0 as int, p.1@),
            ) && from < p.0 <= s@.len(),
    {
        let (j, dt) = match DataType::parse(s, from) {
            Some(p) => p,
            None => {
                return None;
            },
        };
        let p = match crate::text::find_char(s, j, '[') {
            Some(p) => p,
            None => {
                return None;
            },
        };
        let name = crate::text::substring_trimmed(s, j, p);
        let (k, coords) = match parse_coords(s, p) {
            Some(q) => q,
            None => {
                return None;
            },
        };
        Some((k, DdsArray { data_type: dt, name, coords }))
    }
}


/// Position `i` holds exactly the character `c`.
pub open spec fn at_char(s: Seq<char>, i: int, c: char) -> bool {
    0 <= i < s.len() && s[i] == c
}

pub(crate) fn check_char(s: &str, i: usize, c: char) -> (r: bool)
    requires
        i <= s@.len(),
    ensures
        r == at_char(s@, i as int, c),
{
    i < s.unicode_len() && s.get_char(i) == c
}

/// The map list of a grid: zero or more whitespace-led array declarations
/// each ending in a newline, closed by a whitespace-led `}`.
pub open spec fn spec_parse_maps(s: Seq<char>, i: int) -> Option<(int, Seq<ArrayView>)>
    decreases s.len() - i,
{
    if i < 0 || i > s.len() {
        None
    } else {
        let w = crate::text::spec_skip_ws(s, i);
        if crate::text::match_at(s, w, "}"@) {
            Some((w + 1, Seq::empty()))
        } else {
            match spec_parse_array(s, w) {
                None => None,
                Some((j, a)) => if at_char(s, j, '\n') && i < j + 1 <= s.len() {
                    match spec_parse_maps(s, j + 1) {
                        None => None,
                        Some((k, rest)) => Some((k, seq![a] + rest)),
                    }
                } else {
                    None
                },
            }
        }
    }
}

/// A grid declaration: the `ARRAY:` section with its main array, then the
/// `MAPS:` section with the map arrays, a closing `}`, and the name.
pub open spec fn spec_parse_grid(s: Seq<char>, i: int) -> Option<(int, GridView)> {
    if !crate::text::match_at(s, i, "Grid {"@) {
        None
    } else if !at_char(s, i + 6, '\n') {
        None
    } else {
        let i2 = crate::text::spec_skip_ws(s, i + 7);
        if !crate::text::match_at(s, i2, "ARRAY:"@) {
            None
        } else if !at_char(s, i2 + 6, '\n') {
            None
        } else {
            let i4 = crate::text::spec_skip_ws(s, i2 + 7);
            match spec_parse_array(s, i4) {
                None => None,
                Some((i5, arr)) => if !at_char(s, i5, '\n') {
                    None
                } else {
                    let i6 = crate::text::spec_skip_ws(s, i5 + 1);
                    if !crate::text::match_at(s, i6, "MAPS:"@) {
                        None
                    } else if !at_char(s, i6 + 5, '\n') {
                        None
                    } else {
                        match spec_parse_maps(s, i6 + 6) {
                            None => None,
                            Some((i8, maps)) => match crate::text::spec_find_char(
                                s,
                                i8,
                                ';',
                            ) {
                                None => None,
                                Some(q) => Some(
                                    (
                                        q + 1,
                                        GridView {
                                            name: crate::text::spec_trimmed(s, i8, q),
                                            array: arr,
                                            coords: maps,
                                        },
                                    ),
                                ),
                            },
                        }
                    }
                },
            }
        }
    }
}

/// A structure declaration: `Structure {`, member fields, `}`, the name.
pub open spec fn spec_parse_structure(s: Seq<char>, i: int) -> Option<(int, StructureView)>
    decreases s.len() - i, 0int,
{
    if !crate::text::match_at(s, i, "Structure {"@) {
        None
    } else if !at_char(s, i + 11, '\n') {
        None
    } else {
        match spec_parse_fields(s, i + 12) {
            None => None,
            Some((j, fs)) => {
                let w = crate::text::spec_skip_ws(s, j);
                match crate::text::spec_find_char(s, w, ';') {
                    None => None,
                    Some(q) => Some(
                        (
                            q + 1,
                            StructureView {
                                name: crate::text::spec_trimmed(s, w, q),
                                fields: fs,
                            },
                        ),
                    ),
                }
            },
        }
    }
}

/// A sequence declaration: `Sequence {`, member fields, `}`, the name.
pub open spec fn spec_parse_sequence(s: Seq<char>, i: int) -> Option<(int, SequenceView)>
    decreases s.len() - i, 0int,
{
    if !crate::text::match_at(s, i, "Sequence {"@) {
        None
    } else if !at_char(s, i + 10, '\n') {
        None
    } else {
        match spec_parse_fields(s, i + 11) {
            None => None,
            Some((j, fs)) => {
                let w = crate::text::spec_skip_ws(s, j);
                match crate::text::spec_find_char(s, w, ';') {
                    None => None,
                    Some(q) => Some(
                        (
                            q + 1,
                            SequenceView {
                                name: crate::text::spec_trimmed(s, w, q),
                                fields: fs,
                            },
                        ),
                    ),
                }
            },
        }
    }
}

/// A bare scalar member (`Int32 id;`), kept as a 0-D array.
pub open spec fn spec_parse_scalar_field(s: Seq<char>, w: int) -> Option<(int, ValueView)> {
    match DataType::spec_parse(s, w) {
        None => None,
        Some((j, dt)) => {
            let j2 = crate::text::spec_skip_ws(s, j);
            match crate::text::spec_find_char(s, j2, ';') {
                None => None,
                Some(q) => if at_char(s, q + 1, '\n') {
                    Some(
                        (
                            q + 2,
                            ValueView::Array(
                                ArrayView {
                                    data_type: dt,
                                    name: crate::text::spec_trimmed(s, j2, q),
                                    coords: Seq::empty(),
                                },
                            ),
                        ),
                    )
                } else {
                    None
                },
            }
        },
    }
}

/// One member of a structure or sequence: a nested structure or sequence,
/// an array, or a bare scalar, each ending in a newline.
pub open spec fn spec_parse_field(s: Seq<char>, i: int) -> Option<(int, ValueView)>
    decreases s.len() - i, 2int,
{
    if i < 0 || i > s.len() {
        None
    } else {
        let w = crate::text::spec_skip_ws(s, i);
        if w < i || w > s.len() {
            None
        } else {
            match spec_parse_structure(s, w) {
                Some((j, st)) => if at_char(s, j, '\n') {
                    Some((j + 1, ValueView::Structure(st)))
                } else {
                    None
                },
                None => match spec_parse_sequence(s, w) {
                    Some((j, sq)) => if at_char(s, j, '\n') {
                        Some((j + 1, ValueView::Sequence(sq)))
                    } else {
                        None
                    },
                    None => match spec_parse_array(s, w) {
                        Some((j, a)) => if at_char(s, j, '\n') {
                            Some((j + 1, ValueView::Array(a)))
                        } else {
                            None
                        },
                        None => spec_parse_scalar_field(s, w),
                    },
                },
            }
        }
    }
}

/// The member list of a structure or sequence, closed by a
/// whitespace-led `}`.
pub open spec fn spec_parse_fields(s: Seq<char>, i: int) -> Option<(int, Seq<ValueView>)>
    decreases s.len() - i, 3int,
{
    if i < 0 || i > s.len() {
        None
    } else {
        let w = crate::text::spec_skip_ws(s, i);
        if crate::text::match_at(s, w, "}"@) {
            Some((w + 1, Seq::empty()))
        } else {
            match spec_parse_field(s, i) {
                None => None,
                Some((j, f)) => if i < j <= s.len() {
                    match spec_parse_fields(s, j) {
                        None => None,
                        Some((k, fs)) => Some((k, seq![f] + fs)),
                    }
                } else {
                    None
                },
            }
        }
    }
}

/// One top-level dataset value: a structure, sequence, grid or array,
/// whitespace-led and ending in a newline.
pub open spec fn spec_parse_value(s: Seq<char>, i: int) -> Option<(int, ValueView)> {
    if i < 0 || i > s.len() {
        None
    } else {
        let w = crate::text::spec_skip_ws(s, i);
        match spec_parse_structure(s, w) {
            Some((j, st)) => if at_char(s, j, '\n') {
                Some((j + 1, ValueView::Structure(st)))
            } else {
                None
            },
            None => match spec_parse_sequence(s, w) {
                Some((j, sq)) => if at_char(s, j, '\n') {
                    Some((j + 1, ValueView::Sequence(sq)))
                } else {
                    None
                },
                None => match spec_parse_grid(s, w) {
                    Some((j, g)) => if at_char(s, j, '\n') {
                        Some((j + 1, ValueView::Grid(g)))
                    } else {
                        None
                    },
                    None => match spec_parse_array(s, w) {
                        Some((j, a)) => if at_char(s, j, '\n') {
                            Some((j + 1, ValueView::Array(a)))
                        } else {
                            None
                        },
                        None => None,
                    },
                },
            },
        }
    }
}

/// The top-level value list of a dataset, closed by `}`.
pub open spec fn spec_parse_values(s: Seq<char>, i: int) -> Option<(int, Seq<ValueView>)>
    decreases s.len() - i,
{
    if i < 0 || i > s.len() {
        None
    } else if crate::text::match_at(s, i, "}"@) {
        Some((i + 1, Seq::empty()))
    } else {
        match spec_parse_value(s, i) {
            None => None,
            Some((j, v)) => if i < j <= s.len() {
                match spec_parse_values(s, j) {
                    None => None,
                    Some((k, vs)) => Some((k, seq![v] + vs)),
                }
            } else {
                None
            },
        }
    }
}

/// A whole DDS document: `Dataset {`, the value list, `}`, the dataset
/// name, `;`.
pub open spec fn spec_parse_dataset(s: Seq<char>, i: int) -> Option<(int, DatasetView)> {
    if !crate::text::match_at(s, i, "Dataset {"@) {
        None
    } else if !at_char(s, i + 9, '\n') {
        None
    } else {
        match spec_parse_values(s, i + 10) {
            None => None,
            Some((j, vals)) => match crate::text::spec_find_char(s, j, ';') {
                None => None,
                Some(q) => Some(
                    (
                        q + 1,
                        DatasetView {
                            name: crate::text::spec_trimmed(s, j, q),
                            values: vals,
                        },
                    ),
                ),
            },
        }
    }
}

/// Prepending a member prepends its view.
pub proof fn lemma_fields_view_prepend(f: DdsValue, fs: Seq<DdsValue>)
    ensures
        fields_view(seq![f] + fs) == seq![value_view(f)] + fields_view(fs),
    decreases fs,
{
    if fs.len() == 0 {
        assert(seq![f] + fs =~= seq![f]);
        assert((seq![f]).drop_last() =~= Seq::<DdsValue>::empty());
        assert(seq![f].last() == f);
        assert(fields_view((seq![f]).drop_last()) == fields_view(Seq::<DdsValue>::empty()));
        assert(fields_view(Seq::<DdsValue>::empty()) =~= Seq::<ValueView>::empty());
        assert(fields_view(seq![f]) =~= seq![value_view(f)]);
        assert(seq![value_view(f)] + fields_view(fs) =~= seq![value_view(f)]);
    } else {
        lemma_fields_view_prepend(f, fs.drop_last());
        assert((seq![f] + fs).drop_last() =~= seq![f] + fs.drop_last());
        assert((seq![f] + fs).last() == fs.last());
        assert(seq![value_view(f)] + fields_view(fs) =~= (seq![value_view(f)] + fields_view(
            fs.drop_last(),
        )).push(value_view(fs.last())));
    }
}

fn parse_maps(s: &str, i: usize) -> (r: Option<(usize, Vec<DdsArray>)>)
    requires
        i <= s@.len(),
    ensures
        (r is Some) == (spec_parse_maps(s@, i as int) is Some),
        r matches Some(p) ==> spec_parse_maps(s@, i as int) == Some(
            (p.0 as int, p.1@.map_values(|a: DdsArray| a@)),
        ) && i < p.0 <= s@.len(),
    decreases s@.len() - i,
{
    let _sn = s.unicode_len();
    proof {
        reveal_strlit("}");
    }
    let w = crate::text::skip_ws(s, i);
    if crate::text::match_lit(s, w, "}") {
        let out: Vec<DdsArray> = Vec::new();
        proof {
            assert(out@.map_values(|a: DdsArray| a@) =~= Seq::<ArrayView>::empty());
        }
        return Some((w + 1, out));
    }
    let (j, a) = match DdsArray::parse(s, w) {
        Some(p) => p,
        None => {
            return None;
        },
    };
    if !check_char(s, j, '\n') {
        return None;
    }
    let (k, rest) = match parse_maps(s, j + 1) {
        Some(p) => p,
        None => {
            return None;
        },
    };
    let mut out = rest;
    out.insert(0, a);
    proof {
        assert(out@.map_values(|x: DdsArray| x@) =~= seq![a@] + out@.drop_first().map_values(
            |x: DdsArray| x@,
        ));
    }
    Some((k, out))
}

impl DdsGrid {
    /// Reads one grid declaration starting at position `from` of `s`.
    pub fn parse(s: &str, from: usize) -> (r: Option<(usize, DdsGrid)>)
        requires
            from <= s@.len(),
        ensures
            (r is Some) == (spec_parse_grid(s@, from as int) is Some),
            r matches Some(p) ==> spec_parse_grid(s@, from as int) == Some(
                (p.0 as int, p.1@),
            ) && from < p.0 <= s@.len(),
    {
        let _sn = s.unicode_len();
        proof {
            reveal_strlit("Grid {");
            reveal_strlit("ARRAY:");
            reveal_strlit("MAPS:");
        }
        if !crate::text::match_lit(s, from, "Grid {") {
            return None;
        }
        if !check_char(s, from + 6, '\n') {
            return None;
        }
        let i2 = crate::text::skip_ws(s, from + 7);
        if !crate::text::match_lit(s, i2, "ARRAY:") {
            return None;
        }
        if !check_char(s, i2 + 6, '\n') {
            return None;
        }
        let i4 = crate::text::skip_ws(s, i2 + 7);
        let (i5, arr) = match DdsArray::parse(s, i4) {
            Some(p) => p,
            None => {
                return None;
            },
        };
        if !check_char(s, i5, '\n') {
            return None;
        }
        let i6 = crate::text::skip_ws(s, i5 + 1);
        if !crate::text::match_lit(s, i6, "MAPS:") {
            return None;
        }
        if !check_char(s, i6 + 5, '\n') {
            return None;
        }
        let (i8, maps) = match parse_maps(s, i6 + 6) {
            Some(p) => p,
            None => {
                return None;
            },
        };
        let q = match crate::text::find_char(s, i8, ';') {
            Some(q) => q,
            None => {
                return None;
            },
        };
        let name = crate::text::substring_trimmed(s, i8, q);
        Some((q + 1, DdsGrid { name, array: arr, coords: maps }))
    }
}

impl DdsStructure {
    /// Reads one structure declaration starting at position `from` of `s`.
    pub fn parse(s: &str, from: usize) -> (r: Option<(usize, DdsStructure)>)
        requires
            from <= s@.len(),
        ensures
            (r is Some) == (spec_parse_structure(s@, from as int) is Some),
            r matches Some(p) ==> spec_parse_structure(s@, from as int) == Some(
                (p.0 as int, p.1@),
            ) && from < p.0 <= s@.len(),
        decreases s@.len() - from, 0int,
    {
        let _sn = s.unicode_len();
        proof {
            reveal_strlit("Structure {");
        }
        if !crate::text::match_lit(s, from, "Structure {") {
            return None;
        }
        if !check_char(s, from + 11, '\n') {
            return None;
        }
        let (j, fs) = match parse_fields(s, from + 12) {
            Some(p) => p,
            None => {
                return None;
            },
        };
        let w = crate::text::skip_ws(s, j);
        let q = match crate::text::find_char(s, w, ';') {
            Some(q) => q,
            None => {
                return None;
            },
        };
        let name = crate::text::substring_trimmed(s, w, q);
        Some((q + 1, DdsStructure { name, fields: fs }))
    }
}

impl DdsSequence {
    /// Reads one sequence declaration starting at position `from` of `s`.
    pub fn parse(s: &str, from: usize) -> (r: Option<(usize, DdsSequence)>)
        requires
            from <= s@.len(),
        ensures
            (r is Some) == (spec_parse_sequence(s@, from as int) is Some),
            r matches Some(p) ==> spec_parse_sequence(s@, from as int) == Some(
                (p.0 as int, p.1@),
            ) && from < p.0 <= s@.len(),
        decreases s@.len() - from, 0int,
    {
        let _sn = s.unicode_len();
        proof {
            reveal_strlit("Sequence {");
        }
        if !crate::text::match_lit(s, from, "Sequence {") {
            return None;
        }
        if !check_char(s, from + 10, '\n') {
            return None;
        }
        let (j, fs) = match parse_fields(s, from + 11) {
            Some(p) => p,
            None => {
                return None;
            },
        };
        let w = crate::text::skip_ws(s, j);
        let q = match crate::text::find_char(s, w, ';') {
            Some(q) => q,
            None => {
                return None;
            },
        };
        let name = crate::text::substring_trimmed(s, w, q);
        Some((q + 1, DdsSequence { name, fields: fs }))
    }
}

fn parse_scalar_field(s: &str, w: usize) -> (r: Option<(usize, DdsValue)>)
    requires
        w <= s@.len(),
    ensures
        (r is Some) == (spec_parse_scalar_field(s@, w as int) is Some),
        r matches Some(p) ==> spec_parse_scalar_field(s@, w as int) == Some(
            (p.0 as int, value_view(p.1)),
        ) && w < p.0 <= s@.len(),
{
    let _sn = s.unicode_len();
    let (j, dt) = match DataType::parse(s, w) {
        Some(p) => p,
        None => {
            return None;
        },
    };
    let j2 = crate::text::skip_ws(s, j);
    let q = match crate::text::find_char(s, j2, ';') {
        Some(q) => q,
        None => {
            return None;
        },
    };
    if !check_char(s, q + 1, '\n') {
        return None;
    }
    let name = crate::text::substring_trimmed(s, j2, q);
    let coords: Vec<(String, u32)> = Vec::new();
    let out = DdsValue::Array(DdsArray { data_type: dt, name, coords });
    proof {
        assert(out@ matches ValueView::Array(av) && av.coords =~= Seq::<(Seq<char>, u32)>::empty());
    }
    Some((q + 2, out))
}

fn parse_field(s: &str, i: usize) -> (r: Option<(usize, DdsValue)>)
    requires
        i <= s@.len(),
    ensures
        (r is Some) == (spec_parse_field(s@, i as int) is Some),
        r matches Some(p) ==> spec_parse_field(s@, i as int) == Some(
            (p.0 as int, value_view(p.1)),
        ) && i < p.0 <= s@.len(),
    decreases s@.len() - i, 2int,
{
    let _sn = s.unicode_len();
    let w = crate::text::skip_ws(s, i);
    match DdsStructure::parse(s, w) {
        Some((j, st)) => {
            if check_char(s, j, '\n') {
                Some((j + 1, DdsValue::Structure(st)))
            } else {
                None
            }
        },
        None => {
            match DdsSequence::parse(s, w) {
                Some((j, sq)) => {
                    if check_char(s, j, '\n') {
                        Some((j + 1, DdsValue::Sequence(sq)))
                    } else {
                        None
                    }
                },
                None => {
                    match DdsArray::parse(s, w) {
                        Some((j, a)) => {
                            if check_char(s, j, '\n') {
                                Some((j + 1, DdsValue::Array(a)))
                            } else {
                                None
                            }
                        },
                        None => parse_scalar_field(s, w),
                    }
                },
            }
        },
    }
}

fn parse_fields(s: &str, i: usize) -> (r: Option<(usize, Vec<DdsValue>)>)
    requires
        i <= s@.len(),
    ensures
        (r is Some) == (spec_parse_fields(s@, i as int) is Some),
        r matches Some(p) ==> spec_parse_fields(s@, i as int) == Some(
            (p.0 as int, fields_view(p.1@)),
        ) && i < p.0 <= s@.len(),
    decreases s@.len() - i, 3int,
{
    let _sn = s.unicode_len();
    proof {
        reveal_strlit("}");
    }
    let w = crate::text::skip_ws(s, i);
    if crate::text::match_lit(s, w, "}") {
        let out: Vec<DdsValue> = Vec::new();
        proof {
            assert(fields_view(out@) =~= Seq::<ValueView>::empty());
        }
        return Some((w + 1, out));
    }
    let (j, f) = match parse_field(s, i) {
        Some(p) => p,
        None => {
            return None;
        },
    };
    let (k, rest) = match parse_fields(s, j) {
        Some(p) => p,
        None => {
            return None;
        },
    };
    let ghost rest_seq = rest@;
    let mut out = rest;
    out.insert(0, f);
    proof {
        assert(out@.drop_first() =~= rest_seq);
        assert(out@ =~= seq![f] + rest_seq);
        lemma_fields_view_prepend(f, rest_seq);
    }
    Some((k, out))
}

impl DdsValue {
    /// Reads one top-level value starting at position `from` of `s`.
    pub fn parse(s: &str, from: usize) -> (r: Option<(usize, DdsValue)>)
        requires
            from <= s@.len(),
        ensures
            (r is Some) == (spec_parse_value(s@, from as int) is Some),
            r matches Some(p) ==> spec_parse_value(s@, from as int) == Some(
                (p.0 as int, value_view(p.1)),
            ) && from < p.0 <= s@.len(),
    {
        let _sn = s.unicode_len();
        let w = crate::text::skip_ws(s, from);
        match DdsStructure::parse(s, w) {
            Some((j, st)) => {
                if check_char(s, j, '\n') {
                    Some((j + 1, DdsValue::Structure(st)))
                } else {
                    None
                }
            },
            None => {
                match DdsSequence::parse(s, w) {
                    Some((j, sq)) => {
                        if check_char(s, j, '\n') {
                            Some((j + 1, DdsValue::Sequence(sq)))
                        } else {
                            None
                        }
                    },
                    None => {
                        match DdsGrid::parse(s, w) {
                            Some((j, g)) => {
                                if check_char(s, j, '\n') {
                                    Some((j + 1, DdsValue::Grid(g)))
                                } else {
                                    None
                                }
                            },
                            None => {
                                match DdsArray::parse(s, w) {
                                    Some((j, a)) => {
                                        if check_char(s, j, '\n') {
                                            Some((j + 1, DdsValue::Array(a)))
                                        } else {
                                            None
                                        }
                                    },
                                    None => None,
                                }
                            },
                        }
                    },
                }
            },
        }
    }
}

fn parse_values(s: &str, i: usize) -> (r: Option<(usize, Vec<DdsValue>)>)
    requires
        i <= s@.len(),
    ensures
        (r is Some) == (spec_parse_values(s@, i as int) is Some),
        r matches Some(p) ==> spec_parse_values(s@, i as int) == Some(
            (p.0 as int, p.1@.map_values(|v: DdsValue| value_view(v))),
        ) && i < p.0 <= s@.len(),
    decreases s@.len() - i,
{
    let _sn = s.unicode_len();
    proof {
        reveal_strlit("}");
    }
    if crate::text::match_lit(s, i, "}") {
        let out: Vec<DdsValue> = Vec::new();
        proof {
            assert(out@.map_values(|v: DdsValue| value_view(v)) =~= Seq::<ValueView>::empty());
        }
        return Some((i + 1, out));
    }
    let (j, v) = match DdsValue::parse(s, i) {
        Some(p) => p,
        None => {
            return None;
        },
    };
    let (k, rest) = match parse_values(s, j) {
        Some(p) => p,
        None => {
            return None;
        },
    };
    let mut out = rest;
    out.insert(0, v);
    proof {
        assert(out@.map_values(|x: DdsValue| value_view(x)) =~= seq![value_view(v)]
            + out@.drop_first().map_values(|x: DdsValue| value_view(x)));
    }
    Some((k, out))
}

impl DdsDataset {
    /// Parses a complete DDS document: `Ok` exactly on the texts the DDS
    /// grammar accepts, with the resulting tree pinned to the grammar's
    /// reading; `ParseError` otherwise.
    pub fn from_bytes(input: &str) -> (r: Result<DdsDataset, Error>)
        ensures
            (r is Ok) == (spec_parse_dataset(input@, 0) is Some),
            r matches Ok(d) ==> (spec_parse_dataset(input@, 0) matches Some(p) && d@ == p.1),
            r matches Err(e) ==> e is ParseError,
    {
        let _sn = input.unicode_len();
        proof {
            reveal_strlit("Dataset {");
        }
        if !crate::text::match_lit(input, 0, "Dataset {") {
            return Err(Error::ParseError);
        }
        if !check_char(input, 9, '\n') {
            return Err(Error::ParseError);
        }
        let (j, vals) = match parse_values(input, 10) {
            Some(p) => p,
            None => {
                return Err(Error::ParseError);
            },
        };
        let q = match crate::text::find_char(input, j, ';') {
            Some(q) => q,
            None => {
                return Err(Error::ParseError);
            },
        };
        let name = crate::text::substring_trimmed(input, j, q);
        Ok(DdsDataset { name, values: vals })
    }
}

/// The byte count law for arrays: the slot of any array is its 8-byte
/// double length header plus the product of its dimension sizes times its
/// element width.
pub proof fn lemma_array_byte_count(a: ArrayView)
    ensures
        a.byte_count() == 8 + prod_sizes(a.coords) * a.data_type.width(),
{
}

/// The byte count law for grids: the slot of any grid is its main array's
/// slot followed by every map's slot, and the map offsets returned by
/// `coord_offsets` start at the main array's byte count and increase
/// strictly (each map slot is at least its 8-byte header).
pub proof fn lemma_grid_byte_count(g: GridView)
    ensures
        g.byte_count() == g.array.byte_count() + sum_array_bytes(g.coords),
        forall|i: int| 0 <= i < g.coords.len() ==> (#[trigger] g.coords[i]).byte_count() >= 8,
{
}

fn check_array_fits(a: &DdsArray) -> (r: bool)
    ensures
        r == a@.fits(),
{
    let ghost cs = a@.coords;
    let n = a.coords.len();
    let mut i: usize = 0;
    while i < n
        invariant
            i <= n,
            n == cs.len(),
            cs == a@.coords,
            n == a.coords@.len(),
            forall|k: int| 0 <= k < n ==> cs[k].1 == (#[trigger] a.coords@[k]).1,
            forall|k: int| 0 <= k < i ==> (#[trigger] cs[k]).1 >= 1,
        decreases n - i,
    {
        if a.coords[i].1 == 0 {
            proof {
                assert(!a@.wf());
            }
            return false;
        }
        i += 1;
    }
    let mut len: usize = 1;
    let mut j: usize = 0;
    proof {
        assert(cs.subrange(0, 0) =~= Seq::<(Seq<char>, u32)>::empty());
    }
    while j < n
        invariant
            j <= n,
            n == cs.len(),
            cs == a@.coords,
            n == a.coords@.len(),
            forall|k: int| 0 <= k < n ==> cs[k].1 == (#[trigger] a.coords@[k]).1,
            forall|k: int| 0 <= k < n ==> (#[trigger] cs[k]).1 >= 1,
            len == prod_sizes(cs.subrange(0, j as int)),
        decreases n - j,
    {
        proof {
            assert(cs.subrange(0, j + 1).drop_last() =~= cs.subrange(0, j as int));
            assert(cs.subrange(0, j + 1).last() == cs[j as int]);
        }
        let next = match crate::lemmas::mul_checked(len, a.coords[j].1 as usize) {
            Some(v) => v,
            None => {
                proof {
                    lemma_prod_prefix_bound(cs, j + 1);
                    assert(a@.array_length() > usize::MAX);
                }
                return false;
            },
        };
        len = next;
        j += 1;
    }
    proof {
        assert(cs.subrange(0, n as int) =~= cs);
    }
    if len > 0xffff_ffff {
        return false;
    }
    let w = a.data_type.byte_count();
    let data = match crate::lemmas::mul_checked(len, w) {
        Some(v) => v,
        None => {
            return false;
        },
    };
    match crate::lemmas::add_checked(8, data) {
        Some(_) => true,
        None => false,
    }
}

fn check_value_fits(v: &DdsValue) -> (r: bool)
    ensures
        r == v@.fits(),
    decreases *v,
{
    match v {
        DdsValue::Array(a) => check_array_fits(a),
        DdsValue::Grid(g) => {
            if !check_array_fits(&g.array) {
                return false;
            }
            let ghost maps = g@.coords;
            let n = g.coords.len();
            let mut i: usize = 0;
            while i < n
                invariant
                    i <= n,
                    n == maps.len(),
                    maps == g@.coords,
                    n == g.coords@.len(),
                    forall|k: int| 0 <= k < n ==> maps[k] == (#[trigger] g.coords@[k])@,
                    forall|k: int| 0 <= k < i ==> (#[trigger] maps[k]).fits(),
                    value_view(*v) == ValueView::Grid(g@),
                    g@.array.fits(),
                decreases n - i,
            {
                if !check_array_fits(&g.coords[i]) {
                    return false;
                }
                i += 1;
            }
            let mut total: usize = g.array.byte_count();
            let mut j: usize = 0;
            proof {
                assert(maps.subrange(0, 0) =~= Seq::<ArrayView>::empty());
            }
            while j < n
                invariant
                    j <= n,
                    n == maps.len(),
                    maps == g@.coords,
                    n == g.coords@.len(),
                    forall|k: int| 0 <= k < n ==> maps[k] == (#[trigger] g.coords@[k])@,
                    forall|k: int| 0 <= k < n ==> (#[trigger] maps[k]).fits(),
                    value_view(*v) == ValueView::Grid(g@),
                    g@.array.fits(),
                    total == g@.array.byte_count() + sum_array_bytes(
                        maps.subrange(0, j as int),
                    ),
                decreases n - j,
            {
                proof {
                    assert(maps.subrange(0, j + 1).drop_last() =~= maps.subrange(0, j as int));
                    assert(maps.subrange(0, j + 1).last() == maps[j as int]);
                }
                let bc = g.coords[j].byte_count();
                let next = match crate::lemmas::add_checked(total, bc) {
                    Some(t) => t,
                    None => {
                        proof {
                            lemma_sum_array_prefix_bound(maps, j + 1);
                        }
                        return false;
                    },
                };
                total = next;
                j += 1;
            }
            proof {
                assert(maps.subrange(0, n as int) =~= maps);
            }
            true
        },
        DdsValue::Structure(s) => {
            proof {
                lemma_fields_view_len(s.fields@);
            }
            check_fields_fit(&s.fields, 0)
        },
        DdsValue::Sequence(s) => {
            proof {
                lemma_fields_view_len(s.fields@);
            }
            check_fields_fit(&s.fields, 8)
        },
    }
}

fn check_fields_fit(fields: &Vec<DdsValue>, head: usize) -> (r: bool)
    requires
        head <= 8,
    ensures
        r == ((forall|k: int|
            0 <= k < fields_view(fields@).len() ==> (#[trigger] fields_view(fields@)[k]).fits())
            && head + sum_value_bytes(fields_view(fields@)) <= usize::MAX),
    decreases fields@,
{
    let ghost fs = fields_view(fields@);
    proof {
        lemma_fields_view_len(fields@);
    }
    let n = fields.len();
    let mut i: usize = 0;
    while i < n
        invariant
            i <= n,
            n == fields@.len(),
            fs == fields_view(fields@),
            fs.len() == n,
            forall|k: int| 0 <= k < i ==> (#[trigger] fs[k]).fits(),
        decreases n - i,
    {
        proof {
            lemma_fields_view_index(fields@, i as int);
        }
        if !check_value_fits(&fields[i]) {
            return false;
        }
        i += 1;
    }
    let mut total: usize = head;
    let mut j: usize = 0;
    proof {
        assert(fs.subrange(0, 0) =~= Seq::<ValueView>::empty());
    }
    while j < n
        invariant
            j <= n,
            n == fields@.len(),
            fs == fields_view(fields@),
            fs.len() == n,
            head <= 8,
            forall|k: int| 0 <= k < n ==> (#[trigger] fs[k]).fits(),
            total == head + sum_value_bytes(fs.subrange(0, j as int)),
        decreases n - j,
    {
        proof {
            assert(fs.subrange(0, j + 1).drop_last() =~= fs.subrange(0, j as int));
            assert(fs.subrange(0, j + 1).last() == fs[j as int]);
            lemma_fields_view_index(fields@, j as int);
        }
        let bc = fields[j].byte_count();
        let next = match crate::lemmas::add_checked(total, bc) {
            Some(t) => t,
            None => {
                proof {
                    lemma_sum_value_prefix_bound(fs, j + 1);
                }
                return false;
            },
        };
        total = next;
        j += 1;
    }
    proof {
        assert(fs.subrange(0, n as int) =~= fs);
    }
    true
}

impl DdsDataset {
    /// Whether every count of the dataset stays within machine bounds:
    /// each value fits (positive dimension sizes, element counts within
    /// `u32`, slot sizes within `usize`) and the total payload size fits
    /// `usize`. This is the executable gate for every size-bounded
    /// operation over the dataset.
    pub fn check_fits(&self) -> (r: bool)
        ensures
            r == (self@.fits() && sum_value_bytes(self@.values) <= usize::MAX),
    {
        let ghost vs = self@.values;
        let n = self.values.len();
        let mut i: usize = 0;
        while i < n
            invariant
                i <= n,
                n == self.values@.len(),
                vs == self@.values,
                vs.len() == n,
                forall|k: int| 0 <= k < n ==> vs[k] == value_view(#[trigger] self.values@[k]),
                forall|k: int| 0 <= k < i ==> (#[trigger] vs[k]).fits(),
            decreases n - i,
        {
            if !check_value_fits(&self.values[i]) {
                return false;
            }
            i += 1;
        }
        let mut total: usize = 0;
        let mut j: usize = 0;
        proof {
            assert(vs.subrange(0, 0) =~= Seq::<ValueView>::empty());
        }
        while j < n
            invariant
                j <= n,
                n == self.values@.len(),
                vs == self@.values,
                vs.len() == n,
                forall|k: int| 0 <= k < n ==> vs[k] == value_view(#[trigger] self.values@[k]),
                forall|k: int| 0 <= k < n ==> (#[trigger] vs[k]).fits(),
                total == sum_value_bytes(vs.subrange(0, j as int)),
            decreases n - j,
        {
            proof {
                assert(vs.subrange(0, j + 1).drop_last() =~= vs.subrange(0, j as int));
                assert(vs.subrange(0, j + 1).last() == vs[j as int]);
            }
            let bc = self.values[j].byte_count();
            let next = match crate::lemmas::add_checked(total, bc) {
                Some(t) => t,
                None => {
                    proof {
                        lemma_sum_value_prefix_bound(vs, j + 1);
                    }
                    return false;
                },
            };
            total = next;
            j += 1;
        }
        proof {
            assert(vs.subrange(0, n as int) =~= vs);
        }
        true
    }
}

} // verus!
