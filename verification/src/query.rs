//! The metadata-validated, coordinate-aware query builder.
//!
//! A query is bound to a parsed dataset, validates every selection against
//! the dataset's metadata, and emits constrained `.dods` URLs in each
//! variable's own dimension order.

use vstd::prelude::*;

use crate::data::DataType;
use crate::dds::ArrayView;
use crate::dds::DatasetView;
use crate::dds::DdsDataset;
use crate::dds::ValueView;
use crate::text::dec_rep;

verus! {

/// A per-dimension index constraint.
#[derive(Clone, Copy, Debug, PartialEq, Eq, Structural)]
pub enum CoordinateConstraint {
    /// An inclusive index range with an optional stride.
    Indices { start: usize, end: usize, stride: Option<usize> },
    /// A single index.
    Single(usize),
}

impl CoordinateConstraint {
    /// A single-index constraint.
    pub fn single(index: usize) -> (r: CoordinateConstraint)
        ensures
            r == CoordinateConstraint::Single(index),
    {
        CoordinateConstraint::Single(index)
    }

    /// An inclusive range without stride.
    pub fn range(start: usize, end: usize) -> (r: CoordinateConstraint)
        ensures
            r == (CoordinateConstraint::Indices { start, end, stride: None }),
    {
        CoordinateConstraint::Indices { start, end, stride: None }
    }

    /// An inclusive range with a stride.
    pub fn range_with_stride(start: usize, end: usize, stride: usize) -> (r:
        CoordinateConstraint)
        ensures
            r == (CoordinateConstraint::Indices { start, end, stride: Some(stride) }),
    {
        CoordinateConstraint::Indices { start, end, stride: Some(stride) }
    }

    /// The first index.
    pub fn first() -> (r: CoordinateConstraint)
        ensures
            r == CoordinateConstraint::Single(0),
    {
        CoordinateConstraint::Single(0)
    }

    /// The last index of a dimension of `size` entries (index 0 for an
    /// empty dimension).
    pub fn last(size: u32) -> (r: CoordinateConstraint)
        ensures
            size >= 1 ==> r == CoordinateConstraint::Single((size - 1) as usize),
            size == 0 ==> r == CoordinateConstraint::Single(0),
    {
        if size == 0 {
            CoordinateConstraint::Single(0)
        } else {
            CoordinateConstraint::Single((size - 1) as usize)
        }
    }

    /// The constraint's bounds lie inside a dimension of `size` entries,
    /// and a range runs forward.
    pub open spec fn valid_for(self, size: u32) -> bool {
        match self {
            CoordinateConstraint::Single(i) => i < size,
            CoordinateConstraint::Indices { start, end, stride } => start < size && end
                < size && start <= end,
        }
    }

    /// Checks the constraint against a dimension of `size` entries,
    /// reporting the offending index or the backwards range.
    pub fn validate(&self, coord_name: &str, size: u32) -> (r: Result<(), QueryError>)
        ensures
            r is Ok <==> self.valid_for(size),
            self matches CoordinateConstraint::Single(i) ==> (i >= size ==> (r matches Err(
                e,
            ) && e matches QueryError::IndexOutOfBounds(a, b, c) && a == i && b@
                == coord_name@ && c == size)),
            self matches CoordinateConstraint::Indices { start, end, stride } ==> {
                &&& *start >= size ==> (r matches Err(e)
                    && e matches QueryError::IndexOutOfBounds(a, b, c) && a == *start && b@
                    == coord_name@ && c == size)
                &&& *start < size && *end >= size ==> (r matches Err(e)
                    && e matches QueryError::IndexOutOfBounds(a, b, c) && a == *end && b@
                    == coord_name@ && c == size)
                &&& *start < size && *end < size && *start > *end ==> (r matches Err(e)
                    && e is InvalidCoordinateRange)
            },
    {
        match self {
            CoordinateConstraint::Single(index) => {
                if *index >= size as usize {
                    return Err(
                        QueryError::IndexOutOfBounds(*index, coord_name.to_owned(), size),
                    );
                }
            },
            CoordinateConstraint::Indices { start, end, stride } => {
                if *start >= size as usize {
                    return Err(
                        QueryError::IndexOutOfBounds(*start, coord_name.to_owned(), size),
                    );
                }
                if *end >= size as usize {
                    return Err(
                        QueryError::IndexOutOfBounds(*end, coord_name.to_owned(), size),
                    );
                }
                if *start > *end {
                    let mut msg = String::from_str("Start index ");
                    msg.append(crate::text::usize_to_string(*start).as_str());
                    msg.append(" is greater than end index ");
                    msg.append(crate::text::usize_to_string(*end).as_str());
                    msg.append(" for coordinate '");
                    msg.append(coord_name);
                    msg.append("'");
                    return Err(QueryError::InvalidCoordinateRange(msg));
                }
            },
        }
        Ok(())
    }

    /// The bracket group the constraint renders to: `[i]`, `[s:e]`, or
    /// `[s:k:e]`.
    pub open spec fn spec_brackets(self) -> Seq<char> {
        match self {
            CoordinateConstraint::Single(i) => "["@ + dec_rep(i as nat) + "]"@,
            CoordinateConstraint::Indices { start, end, stride } => match stride {
                Some(k) => "["@ + dec_rep(start as nat) + ":"@ + dec_rep(k as nat) + ":"@
                    + dec_rep(end as nat) + "]"@,
                None => "["@ + dec_rep(start as nat) + ":"@ + dec_rep(end as nat) + "]"@,
            },
        }
    }

    /// Renders the constraint's bracket group.
    pub fn render_brackets(&self) -> (r: String)
        ensures
            r@ == self.spec_brackets(),
    {
        let mut acc = String::from_str("[");
        match self {
            CoordinateConstraint::Single(i) => {
                acc.append(crate::text::usize_to_string(*i).as_str());
            },
            CoordinateConstraint::Indices { start, end, stride } => {
                acc.append(crate::text::usize_to_string(*start).as_str());
                acc.append(":");
                match stride {
                    Some(k) => {
                        acc.append(crate::text::usize_to_string(*k).as_str());
                        acc.append(":");
                    },
                    None => {},
                }
                acc.append(crate::text::usize_to_string(*end).as_str());
            },
        }
        acc.append("]");
        acc
    }

    /// The number of indices the constraint selects out of a dimension.
    pub open spec fn spec_selected_count(self) -> nat {
        match self {
            CoordinateConstraint::Single(_) => 1,
            CoordinateConstraint::Indices { start, end, stride } => {
                let span = if end >= start {
                    (end - start + 1) as nat
                } else {
                    0
                };
                match stride {
                    Some(k) => if k >= 1 && span >= 1 {
                        ((span + k - 1) / k as int) as nat
                    } else {
                        0
                    },
                    None => span,
                }
            },
        }
    }
}

/// The container kind of a variable.
#[derive(Clone, Copy, Debug, PartialEq, Eq, Structural)]
pub enum VariableType {
    Array,
    Grid,
    Structure,
    Sequence,
}

/// Metadata about one variable of a dataset.
#[derive(Clone, Debug)]
pub struct VariableInfo {
    pub name: String,
    pub data_type: DataType,
    pub coordinates: Vec<String>,
    pub dimensions: Vec<(String, u32)>,
    pub variable_type: VariableType,
}

/// The mathematical contents of a `VariableInfo`.
#[verifier::ext_equal]
pub struct VariableInfoView {
    pub name: Seq<char>,
    pub data_type: DataType,
    pub coordinates: Seq<Seq<char>>,
    pub dimensions: Seq<(Seq<char>, u32)>,
    pub variable_type: VariableType,
}

impl View for VariableInfo {
    type V = VariableInfoView;

    open spec fn view(&self) -> VariableInfoView {
        VariableInfoView {
            name: self.name@,
            data_type: self.data_type,
            coordinates: self.coordinates@.map_values(|s: String| s@),
            dimensions: self.dimensions@.map_values(|p: (String, u32)| (p.0@, p.1)),
            variable_type: self.variable_type,
        }
    }
}

/// The metadata of one value, as `get_variable_info` reports it. The two
/// composite kinds have no single scalar kind and report `String` as a
/// placeholder, with no coordinates.
pub open spec fn spec_variable_info(v: ValueView) -> VariableInfoView {
    match v {
        ValueView::Array(a) => VariableInfoView {
            name: a.name,
            data_type: a.data_type,
            coordinates: a.coords.map_values(|p: (Seq<char>, u32)| p.0),
            dimensions: a.coords,
            variable_type: VariableType::Array,
        },
        ValueView::Grid(g) => VariableInfoView {
            name: g.name,
            data_type: g.array.data_type,
            coordinates: g.coords.map_values(|a: ArrayView| a.name),
            dimensions: g.array.coords,
            variable_type: VariableType::Grid,
        },
        ValueView::Structure(s) => VariableInfoView {
            name: s.name,
            data_type: DataType::String,
            coordinates: Seq::empty(),
            dimensions: Seq::empty(),
            variable_type: VariableType::Structure,
        },
        ValueView::Sequence(s) => VariableInfoView {
            name: s.name,
            data_type: DataType::String,
            coordinates: Seq::empty(),
            dimensions: Seq::empty(),
            variable_type: VariableType::Sequence,
        },
    }
}

/// Metadata about one coordinate dimension of a dataset.
#[derive(Clone, Debug)]
pub struct CoordinateInfo {
    pub name: String,
    pub data_type: DataType,
    pub size: u32,
    pub variables_using: Vec<String>,
}

/// The first constraint recorded for dimension `name` at or after `i`.
pub open spec fn spec_lookup(
    cs: Seq<(Seq<char>, CoordinateConstraint)>,
    name: Seq<char>,
    i: int,
) -> Option<CoordinateConstraint>
    decreases cs.len() - i,
{
    if i < 0 || i >= cs.len() {
        None
    } else if cs[i].0 == name {
        Some(cs[i].1)
    } else {
        spec_lookup(cs, name, i + 1)
    }
}

proof fn lemma_lookup_skip(
    cs: Seq<(Seq<char>, CoordinateConstraint)>,
    name: Seq<char>,
    j: int,
    i: int,
)
    requires
        0 <= j <= i <= cs.len(),
        forall|k: int| j <= k < i ==> (#[trigger] cs[k]).0 != name,
    ensures
        spec_lookup(cs, name, j) == spec_lookup(cs, name, i),
    decreases i - j,
{
    if j < i {
        lemma_lookup_skip(cs, name, j + 1, i);
    }
}

/// Replaces the constraint recorded for `name`, or records a new one.
pub open spec fn spec_upsert(
    cs: Seq<(Seq<char>, CoordinateConstraint)>,
    name: Seq<char>,
    c: CoordinateConstraint,
) -> Seq<(Seq<char>, CoordinateConstraint)> {
    if exists|i: int| 0 <= i < cs.len() && (#[trigger] cs[i]).0 == name {
        let i = choose|i: int| 0 <= i < cs.len() && (#[trigger] cs[i]).0 == name;
        cs.update(i, (name, c))
    } else {
        cs.push((name, c))
    }
}

/// The bracket groups of one variable, walking its own dimension order and
/// rendering the constraint attached to each dimension name (none: the
/// dimension is omitted, meaning full extent).
pub open spec fn spec_dims_render(
    coords: Seq<Seq<char>>,
    cs: Seq<(Seq<char>, CoordinateConstraint)>,
) -> Seq<char>
    decreases coords.len(),
{
    if coords.len() == 0 {
        Seq::empty()
    } else {
        spec_dims_render(coords.drop_last(), cs) + match spec_lookup(cs, coords.last(), 0) {
            Some(c) => c.spec_brackets(),
            None => Seq::<char>::empty(),
        }
    }
}

/// The rendering of one selected variable: its name, then its bracket
/// groups (bare when no dimension of it is constrained).
pub open spec fn spec_var_render(
    d: DatasetView,
    cs: Seq<(Seq<char>, CoordinateConstraint)>,
    vname: Seq<char>,
) -> Seq<char> {
    vname + match crate::dds::spec_find_value(d.values, vname, 0) {
        Some(i) => spec_dims_render(spec_variable_info(d.values[i]).coordinates, cs),
        None => Seq::<char>::empty(),
    }
}

/// The comma-separated rendering of the selected variables.
pub open spec fn spec_parts(
    d: DatasetView,
    selected: Seq<Seq<char>>,
    cs: Seq<(Seq<char>, CoordinateConstraint)>,
) -> Seq<char>
    decreases selected.len(),
{
    if selected.len() == 0 {
        Seq::empty()
    } else if selected.len() == 1 {
        spec_var_render(d, cs, selected[0])
    } else {
        spec_parts(d, selected.drop_last(), cs) + ","@ + spec_var_render(
            d,
            cs,
            selected.last(),
        )
    }
}

/// The effective length of one dimension under an optional constraint.
pub open spec fn spec_eff_size(c: Option<CoordinateConstraint>, dim_size: u32) -> nat {
    match c {
        Some(cc) => cc.spec_selected_count(),
        None => dim_size as nat,
    }
}

/// The product of the effective dimension lengths of one variable.
pub open spec fn spec_dims_product(
    dims: Seq<(Seq<char>, u32)>,
    cs: Seq<(Seq<char>, CoordinateConstraint)>,
) -> nat
    decreases dims.len(),
{
    if dims.len() == 0 {
        1
    } else {
        spec_dims_product(dims.drop_last(), cs) * spec_eff_size(
            spec_lookup(cs, dims.last().0, 0),
            dims.last().1,
        )
    }
}

/// The estimated byte size of one selected variable: its element width
/// times the effective length of each of its dimensions.
pub open spec fn spec_var_size(
    d: DatasetView,
    cs: Seq<(Seq<char>, CoordinateConstraint)>,
    vname: Seq<char>,
) -> nat {
    match crate::dds::spec_find_value(d.values, vname, 0) {
        Some(i) => {
            let info = spec_variable_info(d.values[i]);
            info.data_type.width() * spec_dims_product(info.dimensions, cs)
        },
        None => 0,
    }
}

/// The estimated byte size of the whole query: the sum over the selected
/// variables.
pub open spec fn spec_total_size(
    d: DatasetView,
    selected: Seq<Seq<char>>,
    cs: Seq<(Seq<char>, CoordinateConstraint)>,
) -> nat
    decreases selected.len(),
{
    if selected.len() == 0 {
        0
    } else {
        spec_total_size(d, selected.drop_last(), cs) + spec_var_size(d, cs, selected.last())
    }
}

/// The first selected variable (scanning from position `i`) that exists in
/// the dataset but does not carry dimension `c`.
pub open spec fn spec_first_unavailable(
    d: DatasetView,
    selected: Seq<Seq<char>>,
    c: Seq<char>,
    i: int,
) -> Option<Seq<char>>
    decreases selected.len() - i,
{
    if i < 0 || i >= selected.len() {
        None
    } else {
        match crate::dds::spec_find_value(d.values, selected[i], 0) {
            Some(vi) => if !spec_variable_info(d.values[vi]).coordinates.contains(c) {
                Some(selected[i])
            } else {
                spec_first_unavailable(d, selected, c, i + 1)
            },
            None => spec_first_unavailable(d, selected, c, i + 1),
        }
    }
}

/// The selected variable `name` either is missing from the dataset or
/// carries dimension `c`.
pub open spec fn var_has_dim_or_missing(d: DatasetView, name: Seq<char>, c: Seq<char>) -> bool {
    match crate::dds::spec_find_value(d.values, name, 0) {
        Some(vi) => spec_variable_info(d.values[vi]).coordinates.contains(c),
        None => true,
    }
}

/// The constraint fits the size that the dataset reports for dimension
/// `c` (vacuously true when no value reports it).
pub open spec fn constraint_ok_for(
    d: DatasetView,
    c: Seq<char>,
    k: CoordinateConstraint,
) -> bool {
    match crate::dds::spec_coord_first(d.values, c, 0) {
        Some(p) => k.valid_for(p.1 as u32),
        None => true,
    }
}

/// Why a query operation was refused.
#[derive(Debug)]
pub enum QueryError {
    /// No variable of the dataset has the given name.
    VariableNotFound(String),
    /// No variable of the dataset declares the given dimension.
    CoordinateNotFound(String),
    /// The dimension exists, but not on an already-selected variable.
    CoordinateNotAvailableForVariable(String, String),
    /// A range constraint runs backwards.
    InvalidCoordinateRange(String),
    /// An index constraint reaches past the dimension's size.
    IndexOutOfBounds(usize, String, u32),
    /// The URL could not be assembled.
    UrlGenerationError(String),
    /// A URL was requested before any variable was selected.
    NoVariablesSelected,
}

fn selected_contains(v: &Vec<String>, s: &str) -> (r: bool)
    ensures
        r == v@.map_values(|x: String| x@).contains(s@),
{
    let ghost sel = v@.map_values(|x: String| x@);
    let n = v.len();
    let mut i: usize = 0;
    while i < n
        invariant
            i <= n,
            n == v@.len(),
            sel == v@.map_values(|x: String| x@),
            forall|k: int| 0 <= k < i ==> (#[trigger] v@[k])@ != s@,
        decreases n - i,
    {
        if crate::text::str_eq(v[i].as_str(), s) {
            proof {
                assert(sel[i as int] == s@);
            }
            return true;
        }
        i += 1;
    }
    proof {
        if sel.contains(s@) {
            let k = choose|k: int| 0 <= k < sel.len() && sel[k] == s@;
            assert((v@[k])@ == s@);
        }
    }
    false
}

/// The first position at or after `i` whose key is `name`.
pub open spec fn spec_find_key(
    cs: Seq<(Seq<char>, CoordinateConstraint)>,
    name: Seq<char>,
    i: int,
) -> Option<int>
    decreases cs.len() - i,
{
    if i < 0 || i >= cs.len() {
        None
    } else if cs[i].0 == name {
        Some(i)
    } else {
        spec_find_key(cs, name, i + 1)
    }
}

proof fn lemma_find_key_skip(
    cs: Seq<(Seq<char>, CoordinateConstraint)>,
    name: Seq<char>,
    j: int,
    i: int,
)
    requires
        0 <= j <= i <= cs.len(),
        forall|k: int| j <= k < i ==> (#[trigger] cs[k]).0 != name,
    ensures
        spec_find_key(cs, name, j) == spec_find_key(cs, name, i),
    decreases i - j,
{
    if j < i {
        lemma_find_key_skip(cs, name, j + 1, i);
    }
}

/// Replaces the first constraint recorded for `name`, or records a new
/// one at the end.
pub open spec fn spec_upsert_first(
    cs: Seq<(Seq<char>, CoordinateConstraint)>,
    name: Seq<char>,
    c: CoordinateConstraint,
) -> Seq<(Seq<char>, CoordinateConstraint)> {
    match spec_find_key(cs, name, 0) {
        Some(i) => cs.update(i, (name, c)),
        None => cs.push((name, c)),
    }
}

proof fn lemma_first_unavailable_skip(
    d: DatasetView,
    selected: Seq<Seq<char>>,
    c: Seq<char>,
    j: int,
    i: int,
)
    requires
        0 <= j <= i <= selected.len(),
        forall|k: int| j <= k < i ==> var_has_dim_or_missing(d, #[trigger] selected[k], c),
    ensures
        spec_first_unavailable(d, selected, c, j) == spec_first_unavailable(d, selected, c, i),
    decreases i - j,
{
    if j < i {
        lemma_first_unavailable_skip(d, selected, c, j + 1, i);
    }
}

/// The selected list after adding each name in turn (deduplicated), or
/// `None` at the first name the dataset lacks.
pub open spec fn spec_sel_all(
    d: DatasetView,
    cur: Seq<Seq<char>>,
    names: Seq<Seq<char>>,
) -> Option<Seq<Seq<char>>>
    decreases names.len(),
{
    if names.len() == 0 {
        Some(cur)
    } else if !d.has_variable(names[0]) {
        None
    } else {
        spec_sel_all(
            d,
            if cur.contains(names[0]) {
                cur
            } else {
                cur.push(names[0])
            },
            names.drop_first(),
        )
    }
}

fn lookup_constraint(cs: &Vec<(String, CoordinateConstraint)>, name: &str) -> (r: Option<
    CoordinateConstraint,
>)
    ensures
        r == spec_lookup(
            cs@.map_values(|p: (String, CoordinateConstraint)| (p.0@, p.1)),
            name@,
            0,
        ),
{
    let ghost view = cs@.map_values(|p: (String, CoordinateConstraint)| (p.0@, p.1));
    let n = cs.len();
    let mut i: usize = 0;
    while i < n
        invariant
            i <= n,
            n == cs@.len(),
            view == cs@.map_values(|p: (String, CoordinateConstraint)| (p.0@, p.1)),
            view.len() == n,
            forall|k: int| 0 <= k < i ==> (#[trigger] view[k]).0 != name@,
        decreases n - i,
    {
        if crate::text::str_eq(cs[i].0.as_str(), name) {
            proof {
                lemma_lookup_skip(view, name@, 0, i as int);
            }
            return Some(cs[i].1);
        }
        i += 1;
    }
    proof {
        lemma_lookup_skip(view, name@, 0, n as int);
    }
    None
}

fn eff_size_sat(c: Option<CoordinateConstraint>, dim: u32) -> (r: usize)
    ensures
        r as nat == crate::lemmas::cap_usize(spec_eff_size(c, dim)),
{
    match c {
        None => dim as usize,
        Some(CoordinateConstraint::Single(_)) => 1,
        Some(CoordinateConstraint::Indices { start, end, stride }) => {
            if end < start {
                return 0;
            }
            let span1 = end - start;
            match stride {
                None => {
                    if span1 == usize::MAX {
                        usize::MAX
                    } else {
                        span1 + 1
                    }
                },
                Some(k) => {
                    if k == 0 {
                        return 0;
                    }
                    proof {
                        crate::lemmas::lemma_div_shift(span1 as int, k as int);
                    }
                    let q = span1 / k;
                    if q == usize::MAX {
                        usize::MAX
                    } else {
                        q + 1
                    }
                },
            }
        },
    }
}

/// A query bound to a dataset: selected variables, per-dimension
/// constraints, and the base URL to stamp endpoints onto. Every operation
/// that extends the query consumes it and returns a new one.
pub struct DatasetQuery<'a> {
    dataset: &'a DdsDataset,
    base_url: String,
    selected_variables: Vec<String>,
    coordinate_constraints: Vec<(String, CoordinateConstraint)>,
}

impl<'a> DatasetQuery<'a> {
    /// The dataset the query is bound to.
    pub closed spec fn spec_dataset(self) -> DatasetView {
        self.dataset@
    }

    /// The base URL as given.
    pub closed spec fn spec_base(self) -> Seq<char> {
        self.base_url@
    }

    /// The selected variable names, in selection order.
    pub closed spec fn spec_selected(self) -> Seq<Seq<char>> {
        self.selected_variables@.map_values(|s: String| s@)
    }

    /// The recorded per-dimension constraints, keyed by dimension name.
    pub closed spec fn spec_constraints(self) -> Seq<(Seq<char>, CoordinateConstraint)> {
        self.coordinate_constraints@.map_values(
            |p: (String, CoordinateConstraint)| (p.0@, p.1),
        )
    }

    /// A query over `dataset` with nothing selected yet.
    pub fn new(dataset: &'a DdsDataset, base_url: String) -> (r: DatasetQuery<'a>)
        ensures
            r.spec_dataset() == dataset@,
            r.spec_base() == base_url@,
            r.spec_selected() == Seq::<Seq<char>>::empty(),
            r.spec_constraints() == Seq::<(Seq<char>, CoordinateConstraint)>::empty(),
    {
        let r = DatasetQuery {
            dataset,
            base_url,
            selected_variables: Vec::new(),
            coordinate_constraints: Vec::new(),
        };
        proof {
            assert(r.spec_selected() =~= Seq::<Seq<char>>::empty());
            assert(r.spec_constraints() =~= Seq::<(Seq<char>, CoordinateConstraint)>::empty());
        }
        r
    }

    /// Selects one variable, validating that the dataset has it; selecting
    /// a variable twice keeps one entry.
    pub fn select_variable(self, name: &str) -> (r: Result<DatasetQuery<'a>, QueryError>)
        ensures
            !self.spec_dataset().has_variable(name@) ==> (r matches Err(e)
                && e matches QueryError::VariableNotFound(m) && m@ == name@),
            self.spec_dataset().has_variable(name@) ==> (r matches Ok(q) && q.spec_dataset()
                == self.spec_dataset() && q.spec_base() == self.spec_base()
                && q.spec_constraints() == self.spec_constraints() && q.spec_selected() == (
            if self.spec_selected().contains(name@) {
                self.spec_selected()
            } else {
                self.spec_selected().push(name@)
            })),
    {
        if !self.dataset.has_variable(name) {
            return Err(QueryError::VariableNotFound(name.to_owned()));
        }
        let ghost old_sel = self.spec_selected();
        let mut q = self;
        if !selected_contains(&q.selected_variables, name) {
            q.selected_variables.push(name.to_owned());
            proof {
                assert(q.spec_selected() =~= old_sel.push(name@));
            }
        }
        Ok(q)
    }

    /// Selects several variables in order, validating each.
    pub fn select_variables(self, names: &[&str]) -> (r: Result<DatasetQuery<'a>, QueryError>)
        ensures
            spec_sel_all(
                self.spec_dataset(),
                self.spec_selected(),
                names@.map_values(|s: &str| s@),
            ) matches Some(sel) ==> (r matches Ok(q) && q.spec_dataset() == self.spec_dataset()
                && q.spec_base() == self.spec_base() && q.spec_constraints()
                == self.spec_constraints() && q.spec_selected() == sel),
            spec_sel_all(
                self.spec_dataset(),
                self.spec_selected(),
                names@.map_values(|s: &str| s@),
            ) is None ==> (r matches Err(e) && e is VariableNotFound),
    {
        let ghost d = self.spec_dataset();
        let ghost nm = names@.map_values(|s: &str| s@);
        let ghost target = spec_sel_all(d, self.spec_selected(), nm);
        let mut q = self;
        let n = names.len();
        proof {
            assert(nm.skip(0) =~= nm);
        }
        let mut i: usize = 0;
        while i < n
            invariant
                i <= n,
                n == nm.len(),
                n == names@.len(),
                forall|k: int| 0 <= k < n ==> nm[k] == (#[trigger] names@[k])@,
                q.spec_dataset() == d,
                q.spec_base() == self.spec_base(),
                q.spec_constraints() == self.spec_constraints(),
                d == self.spec_dataset(),
                nm == names@.map_values(|s: &str| s@),
                target == spec_sel_all(
                    self.spec_dataset(),
                    self.spec_selected(),
                    names@.map_values(|s: &str| s@),
                ),
                target == spec_sel_all(d, q.spec_selected(), nm.skip(i as int)),
            decreases n - i,
        {
            proof {
                assert(nm.skip(i as int)[0] == nm[i as int]);
                assert(nm.skip(i as int).drop_first() =~= nm.skip(i + 1));
            }
            q = match q.select_variable(names[i]) {
                Ok(q2) => q2,
                Err(e) => {
                    proof {
                        assert(spec_sel_all(d, q.spec_selected(), nm.skip(i as int)) is None);
                    }
                    return Err(e);
                },
            };
            i += 1;
        }
        proof {
            assert(nm.skip(n as int) =~= Seq::<Seq<char>>::empty());
        }
        Ok(q)
    }

    /// Applies a constraint to dimension `coord_name`, validating that the
    /// dimension exists, that the constraint fits its size, and that every
    /// already-selected variable carries the dimension. A second constraint
    /// on the same dimension replaces the first.
    pub fn select_by_coordinate(self, coord_name: &str, constraint: CoordinateConstraint) -> (r:
        Result<DatasetQuery<'a>, QueryError>)
        requires
            self.spec_dataset().fits(),
        ensures
            !self.spec_dataset().is_coord_name(coord_name@) ==> (r matches Err(e)
                && e matches QueryError::CoordinateNotFound(m) && m@ == coord_name@),
            self.spec_dataset().is_coord_name(coord_name@) ==> {
                &&& !constraint_ok_for(self.spec_dataset(), coord_name@, constraint) ==> (
                r matches Err(e) && (e is IndexOutOfBounds || e is InvalidCoordinateRange))
                &&& constraint_ok_for(self.spec_dataset(), coord_name@, constraint) ==> {
                    &&& spec_first_unavailable(
                        self.spec_dataset(),
                        self.spec_selected(),
                        coord_name@,
                        0,
                    ) matches Some(v) ==> (r matches Err(e)
                        && e matches QueryError::CoordinateNotAvailableForVariable(a, b) && a@
                        == coord_name@ && b@ == v)
                    &&& spec_first_unavailable(
                        self.spec_dataset(),
                        self.spec_selected(),
                        coord_name@,
                        0,
                    ) is None ==> (r matches Ok(q) && q.spec_dataset() == self.spec_dataset()
                        && q.spec_base() == self.spec_base() && q.spec_selected()
                        == self.spec_selected() && q.spec_constraints() == spec_upsert_first(
                        self.spec_constraints(),
                        coord_name@,
                        constraint,
                    ))
                }
            },
    {
        if !self.dataset.has_coordinate(coord_name) {
            return Err(QueryError::CoordinateNotFound(coord_name.to_owned()));
        }
        match self.dataset.get_coordinate_info(coord_name) {
            Some(info) => {
                match constraint.validate(coord_name, info.size) {
                    Ok(_) => {},
                    Err(e) => {
                        return Err(e);
                    },
                }
            },
            None => {},
        }
        proof {
            assert(constraint_ok_for(self.spec_dataset(), coord_name@, constraint));
        }
        let ghost d = self.spec_dataset();
        let ghost sel = self.spec_selected();
        let n = self.selected_variables.len();
        let mut k: usize = 0;
        while k < n
            invariant
                k <= n,
                n == self.selected_variables@.len(),
                sel == self.spec_selected(),
                sel.len() == n,
                d == self.spec_dataset(),
                forall|j: int| 0 <= j < k ==> var_has_dim_or_missing(
                    d,
                    #[trigger] sel[j],
                    coord_name@,
                ),
                self.spec_dataset().is_coord_name(coord_name@),
                constraint_ok_for(d, coord_name@, constraint),
            decreases n - k,
        {
            match self.dataset.get_variable_info(self.selected_variables[k].as_str()) {
                Some(vinfo) => {
                    if !selected_contains(&vinfo.coordinates, coord_name) {
                        proof {
                            lemma_first_unavailable_skip(d, sel, coord_name@, 0, k as int);
                            assert(spec_first_unavailable(d, sel, coord_name@, k as int)
                                == Some(sel[k as int]));
                        }
                        return Err(
                            QueryError::CoordinateNotAvailableForVariable(
                                coord_name.to_owned(),
                                self.selected_variables[k].clone(),
                            ),
                        );
                    }
                },
                None => {},
            }
            k += 1;
        }
        proof {
            lemma_first_unavailable_skip(d, sel, coord_name@, 0, n as int);
        }
        let ghost cs = self.spec_constraints();
        let mut q = self;
        let m = q.coordinate_constraints.len();
        let mut i: usize = 0;
        while i < m
            invariant
                i <= m,
                m == q.coordinate_constraints@.len(),
                cs == q.spec_constraints(),
                cs.len() == m,
                q.spec_dataset() == d,
                q.spec_base() == self.spec_base(),
                q.spec_selected() == sel,
                d == self.spec_dataset(),
                sel == self.spec_selected(),
                cs == self.spec_constraints(),
                self.spec_dataset().is_coord_name(coord_name@),
                constraint_ok_for(d, coord_name@, constraint),
                spec_first_unavailable(d, sel, coord_name@, 0) is None,
                forall|j: int| 0 <= j < i ==> (#[trigger] cs[j]).0 != coord_name@,
            decreases m - i,
        {
            if crate::text::str_eq(q.coordinate_constraints[i].0.as_str(), coord_name) {
                proof {
                    lemma_find_key_skip(cs, coord_name@, 0, i as int);
                }
                let _ = q.coordinate_constraints.remove(i);
                q.coordinate_constraints.insert(i, (coord_name.to_owned(), constraint));
                proof {
                    assert(q.spec_constraints() =~= cs.update(
                        i as int,
                        (coord_name@, constraint),
                    ));
                }
                return Ok(q);
            }
            i += 1;
        }
        proof {
            lemma_find_key_skip(cs, coord_name@, 0, m as int);
        }
        q.coordinate_constraints.push((coord_name.to_owned(), constraint));
        proof {
            assert(q.spec_constraints() =~= cs.push((coord_name@, constraint)));
        }
        Ok(q)
    }

    /// The constrained `.dods` URL: the base (one trailing `/` stripped),
    /// `.dods?`, then the selected variables in order, each with one
    /// bracket group per constrained dimension in the variable\'s own
    /// dimension order.
    pub fn dods_url(self) -> (r: Result<String, QueryError>)
        ensures
            self.spec_selected().len() == 0 ==> (r matches Err(e)
                && e is NoVariablesSelected),
            self.spec_selected().len() > 0 ==> (r matches Ok(u) && u@
                == crate::url::spec_strip_base(self.spec_base()) + ".dods?"@ + spec_parts(
                self.spec_dataset(),
                self.spec_selected(),
                self.spec_constraints(),
            )),
    {
        let ghost d = self.spec_dataset();
        let ghost sel = self.spec_selected();
        let ghost cs = self.spec_constraints();
        let n = self.selected_variables.len();
        if n == 0 {
            return Err(QueryError::NoVariablesSelected);
        }
        let mut acc = crate::url::strip_base(self.base_url.as_str());
        acc.append(".dods?");
        let ghost head = crate::url::spec_strip_base(self.spec_base()) + ".dods?"@;
        let mut i: usize = 0;
        while i < n
            invariant
                i <= n,
                n == self.selected_variables@.len(),
                sel == self.spec_selected(),
                sel.len() == n,
                d == self.spec_dataset(),
                cs == self.spec_constraints(),
                acc@ == head + spec_parts(d, sel.subrange(0, i as int), cs),
            decreases n - i,
        {
            proof {
                assert(sel.subrange(0, i + 1).drop_last() =~= sel.subrange(0, i as int));
                assert(sel.subrange(0, i + 1).last() == sel[i as int]);
            }
            if i > 0 {
                acc.append(",");
            }
            let var = &self.selected_variables[i];
            acc.append(var.as_str());
            match self.dataset.get_variable_info(var.as_str()) {
                Some(vinfo) => {
                    let ghost coords = vinfo@.coordinates;
                    let m = vinfo.coordinates.len();
                    let mut j: usize = 0;
                    while j < m
                        invariant
                            j <= m,
                            m == vinfo.coordinates@.len(),
                            coords == vinfo@.coordinates,
                            coords.len() == m,
                            cs == self.spec_constraints(),
                            forall|jj: int| 0 <= jj < m ==> coords[jj] == (
                            #[trigger] vinfo.coordinates@[jj])@,
                            acc@ == head + spec_parts(d, sel.subrange(0, i as int), cs) + (
                            if i > 0 {
                                ","@
                            } else {
                                Seq::<char>::empty()
                            }) + sel[i as int] + spec_dims_render(
                                coords.subrange(0, j as int),
                                cs,
                            ),
                        decreases m - j,
                    {
                        proof {
                            assert(coords.subrange(0, j + 1).drop_last() =~= coords.subrange(
                                0,
                                j as int,
                            ));
                            assert(coords.subrange(0, j + 1).last() == coords[j as int]);
                        }
                        match lookup_constraint(
                            &self.coordinate_constraints,
                            vinfo.coordinates[j].as_str(),
                        ) {
                            Some(c) => {
                                acc.append(c.render_brackets().as_str());
                            },
                            None => {},
                        }
                        j += 1;
                    }
                    proof {
                        assert(coords.subrange(0, m as int) =~= coords);
                    }
                },
                None => {},
            }
            i += 1;
        }
        proof {
            assert(sel.subrange(0, n as int) =~= sel);
        }
        Ok(acc)
    }

    /// The `.das` endpoint for the query\'s base URL.
    pub fn das_url(&self) -> (r: String)
        ensures
            r@ == crate::url::spec_strip_base(self.spec_base()) + ".das"@,
    {
        let mut acc = crate::url::strip_base(self.base_url.as_str());
        acc.append(".das");
        acc
    }

    /// The `.dds` endpoint for the query\'s base URL.
    pub fn dds_url(&self) -> (r: String)
        ensures
            r@ == crate::url::spec_strip_base(self.spec_base()) + ".dds"@,
    {
        let mut acc = crate::url::strip_base(self.base_url.as_str());
        acc.append(".dds");
        acc
    }

    /// Re-checks the whole query: at least one variable is selected and
    /// every recorded constraint still fits its dimension.
    pub fn validate(&self) -> (r: Result<(), QueryError>)
        requires
            self.spec_dataset().fits(),
        ensures
            r is Ok <==> self.spec_selected().len() > 0 && (forall|k: int|
                0 <= k < self.spec_constraints().len() ==> constraint_ok_for(
                    self.spec_dataset(),
                    (#[trigger] self.spec_constraints()[k]).0,
                    self.spec_constraints()[k].1,
                )),
            self.spec_selected().len() == 0 ==> (r matches Err(e)
                && e is NoVariablesSelected),
    {
        let ghost d = self.spec_dataset();
        let ghost cs = self.spec_constraints();
        if self.selected_variables.len() == 0 {
            proof {
                assert(self.spec_selected().len() == 0);
            }
            return Err(QueryError::NoVariablesSelected);
        }
        let n = self.coordinate_constraints.len();
        let mut k: usize = 0;
        while k < n
            invariant
                k <= n,
                n == self.coordinate_constraints@.len(),
                cs == self.spec_constraints(),
                cs.len() == n,
                d == self.spec_dataset(),
                self.spec_dataset().fits(),
                self.spec_selected().len() > 0,
                forall|j: int| 0 <= j < k ==> constraint_ok_for(
                    d,
                    (#[trigger] cs[j]).0,
                    cs[j].1,
                ),
            decreases n - k,
        {
            let name = &self.coordinate_constraints[k].0;
            match self.dataset.get_coordinate_info(name.as_str()) {
                Some(info) => {
                    match self.coordinate_constraints[k].1.validate(name.as_str(), info.size) {
                        Ok(_) => {},
                        Err(e) => {
                            proof {
                                assert(name@ == cs[k as int].0);
                                assert(!constraint_ok_for(d, cs[k as int].0, cs[k as int].1));
                            }
                            return Err(e);
                        },
                    }
                },
                None => {},
            }
            k += 1;
        }
        Ok(())
    }

    /// The estimated download size in bytes: for each selected variable,
    /// its element width times each dimension\'s effective length (the
    /// constrained length where a constraint is recorded, the full size
    /// otherwise), summed; saturating at `usize::MAX`.
    pub fn estimated_size(&self) -> (r: usize)
        ensures
            r as nat == crate::lemmas::cap_usize(
                spec_total_size(self.spec_dataset(), self.spec_selected(), self.spec_constraints()),
            ),
    {
        let ghost d = self.spec_dataset();
        let ghost sel = self.spec_selected();
        let ghost cs = self.spec_constraints();
        let n = self.selected_variables.len();
        let mut total: usize = 0;
        let mut i: usize = 0;
        while i < n
            invariant
                i <= n,
                n == self.selected_variables@.len(),
                sel == self.spec_selected(),
                sel.len() == n,
                d == self.spec_dataset(),
                cs == self.spec_constraints(),
                total as nat == crate::lemmas::cap_usize(
                    spec_total_size(d, sel.subrange(0, i as int), cs),
                ),
            decreases n - i,
        {
            proof {
                assert(sel.subrange(0, i + 1).drop_last() =~= sel.subrange(0, i as int));
                assert(sel.subrange(0, i + 1).last() == sel[i as int]);
            }
            let var = &self.selected_variables[i];
            let var_size: usize = match self.dataset.get_variable_info(var.as_str()) {
                Some(vinfo) => {
                    let ghost coords = vinfo@.dimensions;
                    let w = vinfo.data_type.byte_count();
                    let mut vsz: usize = w;
                    let m = vinfo.dimensions.len();
                    let ghost width = vinfo@.data_type.width();
                    let mut j: usize = 0;
                    while j < m
                        invariant
                            j <= m,
                            m == vinfo.dimensions@.len(),
                            coords == vinfo@.dimensions,
                            coords.len() == m,
                            cs == self.spec_constraints(),
                            forall|jj: int| 0 <= jj < m ==> coords[jj] == ((
                            #[trigger] vinfo.dimensions@[jj]).0@, vinfo.dimensions@[jj].1),
                            vsz as nat == crate::lemmas::cap_usize(
                                width * spec_dims_product(coords.subrange(0, j as int), cs),
                            ),
                        decreases m - j,
                    {
                        proof {
                            assert(coords.subrange(0, j + 1).drop_last() =~= coords.subrange(
                                0,
                                j as int,
                            ));
                            assert(coords.subrange(0, j + 1).last() == coords[j as int]);
                        }
                        let c = lookup_constraint(
                            &self.coordinate_constraints,
                            vinfo.dimensions[j].0.as_str(),
                        );
                        let eff = eff_size_sat(c, vinfo.dimensions[j].1);
                        let ghost x = width * spec_dims_product(coords.subrange(0, j as int), cs);
                        let ghost e = spec_eff_size(
                            spec_lookup(cs, coords[j as int].0, 0),
                            coords[j as int].1,
                        );
                        vsz = crate::lemmas::mul_sat(vsz, eff);
                        proof {
                            crate::lemmas::lemma_mul_cap_absorb(x, crate::lemmas::cap_usize(e));
                            crate::lemmas::lemma_mul_cap_absorb(e, x);
                            assert(x * crate::lemmas::cap_usize(e) == crate::lemmas::cap_usize(e)
                                * x) by (nonlinear_arith);
                            assert(e * x == x * e) by (nonlinear_arith);
                            assert(width * spec_dims_product(coords.subrange(0, j + 1), cs) == x
                                * e) by {
                                assert(spec_dims_product(coords.subrange(0, j + 1), cs)
                                    == spec_dims_product(coords.subrange(0, j as int), cs) * e);
                                assert(width * (spec_dims_product(
                                    coords.subrange(0, j as int),
                                    cs,
                                ) * e) == (width * spec_dims_product(
                                    coords.subrange(0, j as int),
                                    cs,
                                )) * e) by (nonlinear_arith);
                            }
                        }
                        j += 1;
                    }
                    proof {
                        assert(coords.subrange(0, m as int) =~= coords);
                    }
                    vsz
                },
                None => 0,
            };
            let ghost t = spec_total_size(d, sel.subrange(0, i as int), cs);
            let ghost v = spec_var_size(d, cs, sel[i as int]);
            total = crate::lemmas::add_sat(total, var_size);
            proof {
                crate::lemmas::lemma_add_cap_absorb(t, v);
            }
            i += 1;
        }
        proof {
            assert(sel.subrange(0, n as int) =~= sel);
        }
        total
    }

    /// The selected variable names, in selection order.
    pub fn selected_variables(&self) -> (r: &Vec<String>)
        ensures
            r@.map_values(|s: String| s@) == self.spec_selected(),
    {
        &self.selected_variables
    }

    /// The recorded constraints, keyed by dimension name.
    pub fn active_constraints(&self) -> (r: &Vec<(String, CoordinateConstraint)>)
        ensures
            r@.map_values(|p: (String, CoordinateConstraint)| (p.0@, p.1))
                == self.spec_constraints(),
    {
        &self.coordinate_constraints
    }
}

impl DdsDataset {
    /// A fresh query over this dataset with endpoints on `base_url`.
    pub fn query<'b>(&'b self, base_url: &str) -> (r: DatasetQuery<'b>)
        ensures
            r.spec_dataset() == self@,
            r.spec_base() == base_url@,
            r.spec_selected() == Seq::<Seq<char>>::empty(),
            r.spec_constraints() == Seq::<(Seq<char>, CoordinateConstraint)>::empty(),
    {
        DatasetQuery::new(self, base_url.to_owned())
    }
}

} // verus!

