//! Constraint expressions and OPeNDAP endpoint URLs.
//!
//! A constraint names a variable and a list of per-dimension selections;
//! rendering follows the DAP constraint grammar: `name[i]`, `name[s:e]`,
//! `name[s:k:e]`, and one bracket per pick for a multiple selection.

use vstd::prelude::*;

use crate::text::dec_rep;

verus! {

/// An index-based selection along one dimension.
#[derive(Clone, Debug)]
pub enum IndexSelection {
    /// One index.
    Single(usize),
    /// An inclusive `[start, end]` span.
    Range(usize, usize),
    /// A `[start, stride, end]` span.
    Stride(usize, usize, usize),
    /// Several discrete indices.
    Multiple(Vec<usize>),
}

/// A value-based selection along one dimension, resolvable to indices once
/// the dimension's coordinate values are known. Numeric values are IEEE-754
/// `f64` bit patterns.
#[derive(Clone, Debug)]
pub enum ValueSelection {
    Single(u64),
    Range(u64, u64),
    Multiple(Vec<u64>),
    String(String),
    StringRange(String, String),
    StringMultiple(Vec<String>),
}

/// A selection along one dimension: by index, or by value.
#[derive(Clone, Debug)]
pub enum Selection {
    Index(IndexSelection),
    Value(ValueSelection),
}

/// A constraint on one variable: one selection per constrained dimension,
/// in dimension order.
#[derive(Clone, Debug)]
pub struct VariableConstraint {
    pub name: String,
    pub dimensions: Vec<Selection>,
}

/// The mathematical contents of an `IndexSelection`.
#[verifier::ext_equal]
pub enum IndexSelectionView {
    Single(usize),
    Range(usize, usize),
    Stride(usize, usize, usize),
    Multiple(Seq<usize>),
}

/// The mathematical contents of a `ValueSelection`.
#[verifier::ext_equal]
pub enum ValueSelectionView {
    Single(u64),
    Range(u64, u64),
    Multiple(Seq<u64>),
    String(Seq<char>),
    StringRange(Seq<char>, Seq<char>),
    StringMultiple(Seq<Seq<char>>),
}

/// The mathematical contents of a `Selection`.
#[verifier::ext_equal]
pub enum SelectionView {
    Index(IndexSelectionView),
    Value(ValueSelectionView),
}

/// The mathematical contents of a `VariableConstraint`.
#[verifier::ext_equal]
pub struct ConstraintView {
    pub name: Seq<char>,
    pub dimensions: Seq<SelectionView>,
}

impl View for IndexSelection {
    type V = IndexSelectionView;

    open spec fn view(&self) -> IndexSelectionView {
        match self {
            IndexSelection::Single(i) => IndexSelectionView::Single(*i),
            IndexSelection::Range(s, e) => IndexSelectionView::Range(*s, *e),
            IndexSelection::Stride(s, k, e) => IndexSelectionView::Stride(*s, *k, *e),
            IndexSelection::Multiple(v) => IndexSelectionView::Multiple(v@),
        }
    }
}

impl View for ValueSelection {
    type V = ValueSelectionView;

    open spec fn view(&self) -> ValueSelectionView {
        match self {
            ValueSelection::Single(v) => ValueSelectionView::Single(*v),
            ValueSelection::Range(a, b) => ValueSelectionView::Range(*a, *b),
            ValueSelection::Multiple(v) => ValueSelectionView::Multiple(v@),
            ValueSelection::String(s) => ValueSelectionView::String(s@),
            ValueSelection::StringRange(a, b) => ValueSelectionView::StringRange(a@, b@),
            ValueSelection::StringMultiple(v) => ValueSelectionView::StringMultiple(
                v@.map_values(|s: String| s@),
            ),
        }
    }
}

impl View for Selection {
    type V = SelectionView;

    open spec fn view(&self) -> SelectionView {
        match self {
            Selection::Index(s) => SelectionView::Index(s@),
            Selection::Value(s) => SelectionView::Value(s@),
        }
    }
}

impl View for VariableConstraint {
    type V = ConstraintView;

    open spec fn view(&self) -> ConstraintView {
        ConstraintView {
            name: self.name@,
            dimensions: self.dimensions@.map_values(|s: Selection| s@),
        }
    }
}

/// One bracket per index: `[i0][i1]...`.
pub open spec fn render_brackets(v: Seq<usize>) -> Seq<char>
    decreases v.len(),
{
    if v.len() == 0 {
        Seq::empty()
    } else {
        render_brackets(v.drop_last()) + "["@ + dec_rep(v.last() as nat) + "]"@
    }
}

/// The bracket group of one index selection.
pub open spec fn render_index_selection(s: IndexSelectionView) -> Seq<char> {
    match s {
        IndexSelectionView::Single(i) => "["@ + dec_rep(i as nat) + "]"@,
        IndexSelectionView::Range(a, b) => "["@ + dec_rep(a as nat) + ":"@ + dec_rep(
            b as nat,
        ) + "]"@,
        IndexSelectionView::Stride(a, k, b) => "["@ + dec_rep(a as nat) + ":"@ + dec_rep(
            k as nat,
        ) + ":"@ + dec_rep(b as nat) + "]"@,
        IndexSelectionView::Multiple(v) => render_brackets(v),
    }
}

/// The rendering of one selection. A value selection has no index form yet
/// and renders as an explicit placeholder.
pub open spec fn render_selection(s: SelectionView) -> Seq<char> {
    match s {
        SelectionView::Index(i) => render_index_selection(i),
        SelectionView::Value(_) => "[VALUE_LOOKUP_NEEDED]"@,
    }
}

/// The concatenated bracket groups of a dimension list.
pub open spec fn render_dimensions(ds: Seq<SelectionView>) -> Seq<char>
    decreases ds.len(),
{
    if ds.len() == 0 {
        Seq::empty()
    } else {
        render_dimensions(ds.drop_last()) + render_selection(ds.last())
    }
}

/// The rendering of one variable constraint: the name, then its bracket
/// groups (a variable without dimensions renders bare).
pub open spec fn render_constraint(c: ConstraintView) -> Seq<char> {
    c.name + render_dimensions(c.dimensions)
}

/// The comma-separated rendering of a constraint list.
pub open spec fn render_constraints(cs: Seq<ConstraintView>) -> Seq<char>
    decreases cs.len(),
{
    if cs.len() == 0 {
        Seq::empty()
    } else if cs.len() == 1 {
        render_constraint(cs[0])
    } else {
        render_constraints(cs.drop_last()) + ","@ + render_constraint(cs.last())
    }
}

fn push_number(acc: &mut String, n: usize)
    ensures
        final(acc)@ == old(acc)@ + dec_rep(n as nat),
{
    acc.append(crate::text::usize_to_string(n).as_str());
}

fn render_index_selection_exec(s: &IndexSelection) -> (r: String)
    ensures
        r@ == render_index_selection(s@),
{
    let mut acc = String::new();
    match s {
        IndexSelection::Single(i) => {
            acc.append("[");
            push_number(&mut acc, *i);
            acc.append("]");
        },
        IndexSelection::Range(a, b) => {
            acc.append("[");
            push_number(&mut acc, *a);
            acc.append(":");
            push_number(&mut acc, *b);
            acc.append("]");
        },
        IndexSelection::Stride(a, k, b) => {
            acc.append("[");
            push_number(&mut acc, *a);
            acc.append(":");
            push_number(&mut acc, *k);
            acc.append(":");
            push_number(&mut acc, *b);
            acc.append("]");
        },
        IndexSelection::Multiple(v) => {
            let n = v.len();
            let mut j: usize = 0;
            while j < n
                invariant
                    j <= n,
                    n == v@.len(),
                    acc@ == render_brackets(v@.subrange(0, j as int)),
                decreases n - j,
            {
                acc.append("[");
                push_number(&mut acc, v[j]);
                acc.append("]");
                proof {
                    assert(v@.subrange(0, j + 1).drop_last() =~= v@.subrange(0, j as int));
                    assert(v@.subrange(0, j + 1).last() == v@[j as int]);
                }
                j += 1;
            }
            proof {
                assert(v@.subrange(0, n as int) =~= v@);
            }
        },
    }
    acc
}

fn render_constraint_exec(c: &VariableConstraint) -> (r: String)
    ensures
        r@ == render_constraint(c@),
{
    let mut acc = c.name.clone();
    let n = c.dimensions.len();
    let ghost dims = c@.dimensions;
    let mut j: usize = 0;
    while j < n
        invariant
            j <= n,
            n == dims.len(),
            dims == c@.dimensions,
            n == c.dimensions@.len(),
            forall|k: int| 0 <= k < n ==> dims[k] == c.dimensions@[k]@,
            acc@ == c.name@ + render_dimensions(dims.subrange(0, j as int)),
        decreases n - j,
    {
        let piece = match &c.dimensions[j] {
            Selection::Index(isel) => render_index_selection_exec(isel),
            Selection::Value(_) => String::from_str("[VALUE_LOOKUP_NEEDED]"),
        };
        acc.append(piece.as_str());
        proof {
            assert(dims.subrange(0, j + 1).drop_last() =~= dims.subrange(0, j as int));
            assert(dims.subrange(0, j + 1).last() == dims[j as int]);
        }
        j += 1;
    }
    proof {
        assert(dims.subrange(0, n as int) =~= dims);
    }
    acc
}

/// The first position at or after `i` whose constraint is named `name`.
pub open spec fn spec_find_name(cs: Seq<ConstraintView>, name: Seq<char>, i: int) -> Option<
    int,
>
    decreases cs.len() - i,
{
    if i < 0 || i >= cs.len() {
        None
    } else if cs[i].name == name {
        Some(i)
    } else {
        spec_find_name(cs, name, i + 1)
    }
}

/// Appends selection `s` to the constraint named `name`, creating that
/// constraint at the end when it is new.
pub open spec fn spec_add_selection(
    cs: Seq<ConstraintView>,
    name: Seq<char>,
    s: SelectionView,
) -> Seq<ConstraintView> {
    match spec_find_name(cs, name, 0) {
        Some(i) => cs.update(
            i,
            ConstraintView { name: cs[i].name, dimensions: cs[i].dimensions.push(s) },
        ),
        None => cs.push(ConstraintView { name, dimensions: seq![s] }),
    }
}

/// Applies `spec_add_selection` for each pair in order.
pub open spec fn spec_add_all(
    cs: Seq<ConstraintView>,
    pairs: Seq<(Seq<char>, SelectionView)>,
) -> Seq<ConstraintView>
    decreases pairs.len(),
{
    if pairs.len() == 0 {
        cs
    } else {
        spec_add_all(spec_add_selection(cs, pairs[0].0, pairs[0].1), pairs.drop_first())
    }
}

proof fn lemma_add_all_snoc(
    cs: Seq<ConstraintView>,
    pairs: Seq<(Seq<char>, SelectionView)>,
    p: (Seq<char>, SelectionView),
)
    ensures
        spec_add_all(cs, pairs.push(p)) == spec_add_selection(
            spec_add_all(cs, pairs),
            p.0,
            p.1,
        ),
    decreases pairs.len(),
{
    if pairs.len() == 0 {
        assert(pairs.push(p)[0] == p);
        assert(pairs.push(p).drop_first() =~= Seq::<(Seq<char>, SelectionView)>::empty());
        assert(spec_add_all(cs, pairs.push(p)) == spec_add_all(
            spec_add_selection(cs, p.0, p.1),
            Seq::<(Seq<char>, SelectionView)>::empty(),
        ));
        assert(spec_add_all(cs, pairs) == cs);
    } else {
        assert(pairs.push(p)[0] == pairs[0]);
        assert(pairs.push(p).drop_first() =~= pairs.drop_first().push(p));
        let cs2 = spec_add_selection(cs, pairs[0].0, pairs[0].1);
        lemma_add_all_snoc(cs2, pairs.drop_first(), p);
        assert(spec_add_all(cs, pairs.push(p)) == spec_add_all(cs2, pairs.drop_first().push(p)));
        assert(spec_add_all(cs, pairs) == spec_add_all(cs2, pairs.drop_first()));
    }
}

proof fn lemma_find_skip(cs: Seq<ConstraintView>, name: Seq<char>, j: int, i: int)
    requires
        0 <= j <= i <= cs.len(),
        forall|k: int| j <= k < i ==> cs[k].name != name,
    ensures
        spec_find_name(cs, name, j) == spec_find_name(cs, name, i),
    decreases i - j,
{
    if j < i {
        lemma_find_skip(cs, name, j + 1, i);
    }
}

/// A builder for OPeNDAP constraint expressions. Every mutating operation
/// returns a new builder; variables keep the order in which they were
/// first added, and dimensions the order in which they were attached.
#[derive(Clone, Debug)]
pub struct ConstraintBuilder {
    constraints: Vec<VariableConstraint>,
}

impl View for ConstraintBuilder {
    type V = Seq<ConstraintView>;

    closed spec fn view(&self) -> Seq<ConstraintView> {
        self.constraints@.map_values(|c: VariableConstraint| c@)
    }
}

impl ConstraintBuilder {
    /// A builder with no constraints.
    pub fn new() -> (r: ConstraintBuilder)
        ensures
            r@ == Seq::<ConstraintView>::empty(),
    {
        let r = ConstraintBuilder { constraints: Vec::new() };
        proof {
            assert(r@ =~= Seq::<ConstraintView>::empty());
        }
        r
    }

    fn add_selection(self, name: String, s: Selection) -> (r: ConstraintBuilder)
        ensures
            r@ == spec_add_selection(self@, name@, s@),
    {
        let ghost orig = self@;
        let mut b = self;
        let n = b.constraints.len();
        let mut i: usize = 0;
        while i < n
            invariant
                i <= n,
                n == b.constraints@.len(),
                b@ == orig,
                orig == self@,
                orig.len() == n,
                forall|k: int| 0 <= k < n ==> orig[k] == (#[trigger] b.constraints@[k])@,
                forall|k: int| 0 <= k < i ==> (#[trigger] orig[k]).name != name@,
            decreases n - i,
        {
            if crate::text::str_eq(b.constraints[i].name.as_str(), name.as_str()) {
                proof {
                    assert(orig[i as int].name == name@);
                    lemma_find_skip(orig, name@, 0, i as int);
                }
                let mut c = b.constraints.remove(i);
                c.dimensions.push(s);
                b.constraints.insert(i, c);
                proof {
                    assert(b@ =~~= spec_add_selection(orig, name@, s@));
                }
                return b;
            }
            i += 1;
        }
        proof {
            lemma_find_skip(orig, name@, 0, n as int);
        }
        let mut dims: Vec<Selection> = Vec::new();
        dims.push(s);
        b.constraints.push(VariableConstraint { name, dimensions: dims });
        proof {
            assert(b@ =~~= spec_add_selection(orig, name@, s@));
        }
        b
    }

    /// Appends one index selection per named variable, in list order
    /// (`isel` style).
    pub fn isel(self, selections: Vec<(String, IndexSelection)>) -> (r: ConstraintBuilder)
        ensures
            r@ == spec_add_all(
                self@,
                selections@.map_values(
                    |p: (String, IndexSelection)| (p.0@, SelectionView::Index(p.1@)),
                ),
            ),
    {
        let ghost pairs = selections@.map_values(
            |p: (String, IndexSelection)| (p.0@, SelectionView::Index(p.1@)),
        );
        let ghost orig = self@;
        let mut b = self;
        let mut rest = selections;
        let mut k: usize = 0;
        let n = rest.len();
        while k < n
            invariant
                k <= n,
                n == pairs.len(),
                rest@.len() == n - k,
                forall|j: int| 0 <= j < n - k ==> (rest@[j].0@, SelectionView::Index(
                    rest@[j].1@,
                )) == pairs[k + j],
                b@ == spec_add_all(orig, pairs.subrange(0, k as int)),
            decreases n - k,
        {
            let (name, sel) = rest.remove(0);
            proof {
                assert(pairs.subrange(0, k + 1) =~= pairs.subrange(0, k as int).push(
                    pairs[k as int],
                ));
                lemma_add_all_snoc(orig, pairs.subrange(0, k as int), pairs[k as int]);
            }
            b = b.add_selection(name, Selection::Index(sel));
            k += 1;
        }
        proof {
            assert(pairs.subrange(0, n as int) =~= pairs);
        }
        b
    }

    /// Appends one value selection per named variable, in list order
    /// (`sel` style); the values await resolution to indices.
    pub fn sel(self, selections: Vec<(String, ValueSelection)>) -> (r: ConstraintBuilder)
        ensures
            r@ == spec_add_all(
                self@,
                selections@.map_values(
                    |p: (String, ValueSelection)| (p.0@, SelectionView::Value(p.1@)),
                ),
            ),
    {
        let ghost pairs = selections@.map_values(
            |p: (String, ValueSelection)| (p.0@, SelectionView::Value(p.1@)),
        );
        let ghost orig = self@;
        let mut b = self;
        let mut rest = selections;
        let mut k: usize = 0;
        let n = rest.len();
        while k < n
            invariant
                k <= n,
                n == pairs.len(),
                rest@.len() == n - k,
                forall|j: int| 0 <= j < n - k ==> (rest@[j].0@, SelectionView::Value(
                    rest@[j].1@,
                )) == pairs[k + j],
                b@ == spec_add_all(orig, pairs.subrange(0, k as int)),
            decreases n - k,
        {
            let (name, sel) = rest.remove(0);
            proof {
                assert(pairs.subrange(0, k + 1) =~= pairs.subrange(0, k as int).push(
                    pairs[k as int],
                ));
                lemma_add_all_snoc(orig, pairs.subrange(0, k as int), pairs[k as int]);
            }
            b = b.add_selection(name, Selection::Value(sel));
            k += 1;
        }
        proof {
            assert(pairs.subrange(0, n as int) =~= pairs);
        }
        b
    }

    /// Renders the comma-separated constraint list.
    pub fn build(&self) -> (r: String)
        ensures
            r@ == render_constraints(self@),
    {
        let mut acc = String::new();
        let n = self.constraints.len();
        let ghost cs = self@;
        let mut j: usize = 0;
        while j < n
            invariant
                j <= n,
                n == cs.len(),
                cs == self@,
                n == self.constraints@.len(),
                forall|k: int| 0 <= k < n ==> cs[k] == self.constraints@[k]@,
                acc@ == render_constraints(cs.subrange(0, j as int)),
            decreases n - j,
        {
            if j > 0 {
                acc.append(",");
            }
            let piece = render_constraint_exec(&self.constraints[j]);
            acc.append(piece.as_str());
            proof {
                assert(cs.subrange(0, j + 1).drop_last() =~= cs.subrange(0, j as int));
                assert(cs.subrange(0, j + 1).last() == cs[j as int]);
            }
            j += 1;
        }
        proof {
            assert(cs.subrange(0, n as int) =~= cs);
        }
        acc
    }

    /// The constraints recorded so far, in order.
    pub fn constraints(&self) -> (r: &Vec<VariableConstraint>)
        ensures
            r@.map_values(|c: VariableConstraint| c@) == self@,
    {
        &self.constraints
    }
}

/// The base URL with one trailing `.nc` removed.
pub open spec fn spec_strip_nc(s: Seq<char>) -> Seq<char> {
    if s.len() >= 3 && s.subrange(s.len() - 3, s.len() as int) == ".nc"@ {
        s.subrange(0, s.len() - 3)
    } else {
        s
    }
}

/// The base URL with one trailing `/` removed.
pub open spec fn spec_strip_slash(s: Seq<char>) -> Seq<char> {
    if s.len() >= 1 && s[s.len() - 1] == '/' {
        s.drop_last()
    } else {
        s
    }
}

/// The normalized form of a base URL: one trailing `/` removed, then one
/// trailing `.nc` removed, so endpoints never carry either suffix before
/// their extension.
pub open spec fn spec_strip_base(s: Seq<char>) -> Seq<char> {
    spec_strip_nc(spec_strip_slash(s))
}

/// Normalizes a base URL: removes one trailing `/`, then one trailing
/// `.nc`.
pub(crate) fn strip_base(s: &str) -> (r: String)
    ensures
        r@ == spec_strip_base(s@),
{
    proof {
        reveal_strlit(".nc");
    }
    let n0 = s.unicode_len();
    let (s1, n) = if n0 >= 1 && s.get_char(n0 - 1) == '/' {
        let t = s.substring_char(0, n0 - 1);
        proof {
            assert(t@ =~= s@.drop_last());
        }
        (t, n0 - 1)
    } else {
        (s.substring_char(0, n0), n0)
    };
    proof {
        assert(s1@ =~= spec_strip_slash(s@));
    }
    if n >= 3 && crate::text::match_lit(s1, n - 3, ".nc") {
        proof {
            assert(s1@.subrange(n - 3, n as int) =~= s1@.subrange(
                n - 3,
                n - 3 + ".nc"@.len(),
            ));
        }
        s1.substring_char(0, n - 3).to_owned()
    } else {
        s1.to_owned()
    }
}

/// Builds `.das`, `.dds` and `.dods` endpoint URLs from a base URL; one
/// trailing `/` and one trailing `.nc` are stripped at construction.
#[derive(Clone, Debug)]
pub struct OpenDAPUrlBuilder {
    base_url: String,
}

impl OpenDAPUrlBuilder {
    /// The stored base URL.
    pub closed spec fn spec_base(self) -> Seq<char> {
        self.base_url@
    }

    /// Stores `base_url`, stripping one trailing `/` and one trailing
    /// `.nc` when present.
    pub fn new(base_url: &str) -> (r: OpenDAPUrlBuilder)
        ensures
            r.spec_base() == spec_strip_base(base_url@),
    {
        OpenDAPUrlBuilder { base_url: strip_base(base_url) }
    }

    /// The DAS endpoint: `<base>.das`.
    pub fn das_url(&self) -> (r: String)
        ensures
            r@ == self.spec_base() + ".das"@,
    {
        let mut r = self.base_url.clone();
        r.append(".das");
        r
    }

    /// The DDS endpoint: `<base>.dds`.
    pub fn dds_url(&self) -> (r: String)
        ensures
            r@ == self.spec_base() + ".dds"@,
    {
        let mut r = self.base_url.clone();
        r.append(".dds");
        r
    }

    /// The DODS endpoint: `<base>.dods`, with `?<constraints>` appended
    /// when a non-empty constraint string is given.
    pub fn dods_url(&self, constraints: Option<&str>) -> (r: String)
        ensures
            match constraints {
                Some(c) => if c@.len() > 0 {
                    r@ == self.spec_base() + ".dods?"@ + c@
                } else {
                    r@ == self.spec_base() + ".dods"@
                },
                None => r@ == self.spec_base() + ".dods"@,
            },
    {
        let mut r = self.base_url.clone();
        match constraints {
            Some(c) => {
                if c.unicode_len() > 0 {
                    r.append(".dods?");
                    r.append(c);
                } else {
                    r.append(".dods");
                }
            },
            None => {
                r.append(".dods");
            },
        }
        r
    }

    /// The DODS endpoint with the rendering of a constraint builder.
    pub fn dods_url_with_constraints(&self, builder: &ConstraintBuilder) -> (r: String)
        ensures
            render_constraints(builder@).len() > 0 ==> r@ == self.spec_base() + ".dods?"@
                + render_constraints(builder@),
            render_constraints(builder@).len() == 0 ==> r@ == self.spec_base() + ".dods"@,
    {
        let c = builder.build();
        if c.as_str().unicode_len() > 0 {
            self.dods_url(Some(c.as_str()))
        } else {
            self.dods_url(None)
        }
    }

    /// The stored base URL.
    pub fn base_url(&self) -> (r: &str)
        ensures
            r@ == self.spec_base(),
    {
        self.base_url.as_str()
    }
}

/// The occurrences of `c` in `s`.
pub open spec fn count_char(s: Seq<char>, c: char) -> nat
    decreases s.len(),
{
    if s.len() == 0 {
        0
    } else {
        count_char(s.drop_last(), c) + (if s.last() == c {
            1nat
        } else {
            0nat
        })
    }
}

/// Counting distributes over concatenation.
pub proof fn lemma_count_concat(a: Seq<char>, b: Seq<char>, c: char)
    ensures
        count_char(a + b, c) == count_char(a, c) + count_char(b, c),
    decreases b.len(),
{
    if b.len() == 0 {
        assert(a + b =~= a);
    } else {
        lemma_count_concat(a, b.drop_last(), c);
        assert((a + b).drop_last() =~= a + b.drop_last());
        assert((a + b).last() == b.last());
    }
}

/// A decimal numeral holds no bracket.
pub proof fn lemma_dec_rep_no_bracket(n: nat)
    ensures
        count_char(dec_rep(n), '[') == 0,
    decreases n,
{
    if n < 10 {
        assert(dec_rep(n) == seq![crate::text::digit_char(n)]);
        assert(0 <= 48 + n < 58);
        assert(crate::text::digit_char(n) as int == 48 + n);
        assert('[' as int == 91);
        assert(crate::text::digit_char(n) != '[');
        lemma_single_char_count(crate::text::digit_char(n), '[');
    } else {
        lemma_dec_rep_no_bracket(n / 10);
        assert(dec_rep(n) == dec_rep(n / 10).push(crate::text::digit_char(n % 10)));
        assert(dec_rep(n).drop_last() =~= dec_rep(n / 10));
        assert(dec_rep(n).last() == crate::text::digit_char(n % 10));
        assert(0 <= 48 + n % 10 < 58);
        assert(crate::text::digit_char(n % 10) as int == 48 + n % 10);
        assert('[' as int == 91);
        assert(dec_rep(n).last() != '[');
        assert(count_char(dec_rep(n), '[') == count_char(dec_rep(n).drop_last(), '[')
            + (if dec_rep(n).last() == '[' {
            1nat
        } else {
            0nat
        }));
    }
}

proof fn lemma_single_char_count(c: char, d: char)
    ensures
        count_char(seq![c], d) == (if c == d {
            1nat
        } else {
            0nat
        }),
{
    assert(seq![c].len() == 1);
    assert(seq![c].last() == c);
    assert(seq![c].drop_last() =~= Seq::<char>::empty());
    assert(count_char(seq![c].drop_last(), d) == 0);
}

/// The bracket-count law of constraint rendering: a single, range or
/// stride selection renders as exactly one bracket group, and a multiple
/// selection of `n` picks renders as exactly `n` bracket groups.
pub proof fn lemma_bracket_count(s: IndexSelectionView)
    ensures
        count_char(render_index_selection(s), '[') == (match s {
            IndexSelectionView::Single(_) => 1nat,
            IndexSelectionView::Range(_, _) => 1nat,
            IndexSelectionView::Stride(_, _, _) => 1nat,
            IndexSelectionView::Multiple(v) => v.len(),
        }),
{
    reveal_strlit("[");
    reveal_strlit("]");
    reveal_strlit(":");
    assert("["@ =~= seq!['[']);
    assert("]"@ =~= seq![']']);
    assert(":"@ =~= seq![':']);
    lemma_single_char_count('[', '[');
    lemma_single_char_count(']', '[');
    lemma_single_char_count(':', '[');
    match s {
        IndexSelectionView::Single(i) => {
            lemma_dec_rep_no_bracket(i as nat);
            lemma_count_concat("["@, dec_rep(i as nat), '[');
            lemma_count_concat("["@ + dec_rep(i as nat), "]"@, '[');
        },
        IndexSelectionView::Range(a, b) => {
            lemma_dec_rep_no_bracket(a as nat);
            lemma_dec_rep_no_bracket(b as nat);
            lemma_count_concat("["@, dec_rep(a as nat), '[');
            lemma_count_concat("["@ + dec_rep(a as nat), ":"@, '[');
            lemma_count_concat("["@ + dec_rep(a as nat) + ":"@, dec_rep(b as nat), '[');
            lemma_count_concat("["@ + dec_rep(a as nat) + ":"@ + dec_rep(b as nat), "]"@, '[');
        },
        IndexSelectionView::Stride(a, k, b) => {
            lemma_dec_rep_no_bracket(a as nat);
            lemma_dec_rep_no_bracket(k as nat);
            lemma_dec_rep_no_bracket(b as nat);
            lemma_count_concat("["@, dec_rep(a as nat), '[');
            lemma_count_concat("["@ + dec_rep(a as nat), ":"@, '[');
            lemma_count_concat("["@ + dec_rep(a as nat) + ":"@, dec_rep(k as nat), '[');
            lemma_count_concat("["@ + dec_rep(a as nat) + ":"@ + dec_rep(k as nat), ":"@, '[');
            lemma_count_concat(
                "["@ + dec_rep(a as nat) + ":"@ + dec_rep(k as nat) + ":"@,
                dec_rep(b as nat),
                '[',
            );
            lemma_count_concat(
                "["@ + dec_rep(a as nat) + ":"@ + dec_rep(k as nat) + ":"@ + dec_rep(b as nat),
                "]"@,
                '[',
            );
        },
        IndexSelectionView::Multiple(v) => {
            lemma_bracket_count_multiple(v);
        },
    }
}

proof fn lemma_bracket_count_multiple(v: Seq<usize>)
    ensures
        count_char(render_brackets(v), '[') == v.len(),
    decreases v.len(),
{
    reveal_strlit("[");
    reveal_strlit("]");
    assert("["@ =~= seq!['[']);
    assert("]"@ =~= seq![']']);
    lemma_single_char_count('[', '[');
    lemma_single_char_count(']', '[');
    if v.len() == 0 {
    } else {
        lemma_bracket_count_multiple(v.drop_last());
        lemma_dec_rep_no_bracket(v.last() as nat);
        lemma_count_concat(render_brackets(v.drop_last()), "["@, '[');
        lemma_count_concat(render_brackets(v.drop_last()) + "["@, dec_rep(v.last() as nat), '[');
        lemma_count_concat(
            render_brackets(v.drop_last()) + "["@ + dec_rep(v.last() as nat),
            "]"@,
            '[',
        );
    }
}

/// The bare-name law of constraint rendering: a variable with no
/// dimension selections renders as just its name.
pub proof fn lemma_render_bare(c: ConstraintView)
    ensures
        c.dimensions.len() == 0 ==> render_constraint(c) == c.name,
{
    if c.dimensions.len() == 0 {
        assert(render_constraint(c) =~= c.name);
    }
}

/// The URL stripping law: a base ending in `/` loses that slash (and then
/// one `.nc` if one is uncovered), a base ending in `.nc` loses exactly
/// that suffix, and any other base is kept whole; each endpoint is the
/// stripped base followed by its extension alone. (Each suffix is removed
/// once: a base ending in a doubled suffix such as `.nc.nc` keeps the
/// inner one.)
pub proof fn lemma_url_stripping(b: Seq<char>)
    ensures
        (b.len() >= 1 && b[b.len() - 1] == '/') ==> spec_strip_base(b) == spec_strip_nc(
            b.drop_last(),
        ),
        (!(b.len() >= 1 && b[b.len() - 1] == '/') && b.len() >= 3 && b.subrange(
            b.len() - 3,
            b.len() as int,
        ) == ".nc"@) ==> spec_strip_base(b) == b.subrange(0, b.len() - 3),
        (!(b.len() >= 1 && b[b.len() - 1] == '/') && !(b.len() >= 3 && b.subrange(
            b.len() - 3,
            b.len() as int,
        ) == ".nc"@)) ==> spec_strip_base(b) == b,
{
}

/// The coordinate lookups one selection asks for: each numeric value of a
/// value selection, paired with the constraint's variable name (an index
/// selection, or a string-valued selection, asks for none).
pub open spec fn sel_requests(name: Seq<char>, s: SelectionView) -> Seq<(Seq<char>, u64)> {
    match s {
        SelectionView::Index(_) => Seq::empty(),
        SelectionView::Value(v) => match v {
            ValueSelectionView::Single(x) => seq![(name, x)],
            ValueSelectionView::Range(a, b) => seq![(name, a), (name, b)],
            ValueSelectionView::Multiple(xs) => xs.map_values(|x: u64| (name, x)),
            ValueSelectionView::String(_) => Seq::empty(),
            ValueSelectionView::StringRange(_, _) => Seq::empty(),
            ValueSelectionView::StringMultiple(_) => Seq::empty(),
        },
    }
}

/// The lookups of one dimension list, in order.
pub open spec fn dims_requests(name: Seq<char>, ds: Seq<SelectionView>) -> Seq<
    (Seq<char>, u64),
>
    decreases ds.len(),
{
    if ds.len() == 0 {
        Seq::empty()
    } else {
        dims_requests(name, ds.drop_last()) + sel_requests(name, ds.last())
    }
}

/// The lookups of a whole builder, in walk order.
pub open spec fn all_requests(cs: Seq<ConstraintView>) -> Seq<(Seq<char>, u64)>
    decreases cs.len(),
{
    if cs.len() == 0 {
        Seq::empty()
    } else {
        all_requests(cs.drop_last()) + dims_requests(cs.last().name, cs.last().dimensions)
    }
}

/// How many resolved indices one selection consumes.
pub open spec fn sel_needs(s: SelectionView) -> nat {
    match s {
        SelectionView::Index(_) => 0,
        SelectionView::Value(v) => match v {
            ValueSelectionView::Single(_) => 1,
            ValueSelectionView::Range(_, _) => 2,
            ValueSelectionView::Multiple(xs) => xs.len(),
            ValueSelectionView::String(_) => 0,
            ValueSelectionView::StringRange(_, _) => 0,
            ValueSelectionView::StringMultiple(_) => 0,
        },
    }
}

/// Whether one selection can be resolved at all (string-valued selections
/// cannot).
pub open spec fn sel_resolvable(s: SelectionView) -> bool {
    match s {
        SelectionView::Index(_) => true,
        SelectionView::Value(v) => match v {
            ValueSelectionView::String(_) => false,
            ValueSelectionView::StringRange(_, _) => false,
            ValueSelectionView::StringMultiple(_) => false,
            _ => true,
        },
    }
}

/// How many resolved indices a dimension list consumes.
pub open spec fn dims_needs(ds: Seq<SelectionView>) -> nat
    decreases ds.len(),
{
    if ds.len() == 0 {
        0
    } else {
        dims_needs(ds.drop_last()) + sel_needs(ds.last())
    }
}

/// How many resolved indices a whole builder consumes.
pub open spec fn all_needs(cs: Seq<ConstraintView>) -> nat
    decreases cs.len(),
{
    if cs.len() == 0 {
        0
    } else {
        all_needs(cs.drop_last()) + dims_needs(cs.last().dimensions)
    }
}

/// Every selection of the builder is resolvable.
pub open spec fn all_resolvable(cs: Seq<ConstraintView>) -> bool {
    forall|i: int, j: int|
        0 <= i < cs.len() && 0 <= j < cs[i].dimensions.len() ==> sel_resolvable(
            #[trigger] cs[i].dimensions[j],
        )
}

/// One selection resolved against the answers starting at `pos`: an index
/// selection passes through; a single value becomes the answered index; a
/// value range becomes the ascending pair of its two answers; a multiple
/// becomes its answers element-wise.
pub open spec fn resolve_sel(s: SelectionView, answers: Seq<usize>, pos: int) -> SelectionView {
    match s {
        SelectionView::Index(i) => SelectionView::Index(i),
        SelectionView::Value(v) => match v {
            ValueSelectionView::Single(_) => SelectionView::Index(
                IndexSelectionView::Single(answers[pos]),
            ),
            ValueSelectionView::Range(_, _) => SelectionView::Index(
                IndexSelectionView::Range(
                    if answers[pos] <= answers[pos + 1] {
                        answers[pos]
                    } else {
                        answers[pos + 1]
                    },
                    if answers[pos] <= answers[pos + 1] {
                        answers[pos + 1]
                    } else {
                        answers[pos]
                    },
                ),
            ),
            ValueSelectionView::Multiple(xs) => SelectionView::Index(
                IndexSelectionView::Multiple(
                    Seq::new(xs.len(), |k: int| answers[pos + k]),
                ),
            ),
            _ => s,
        },
    }
}

/// A dimension list resolved against the answers starting at `pos`.
pub open spec fn resolve_dims(
    ds: Seq<SelectionView>,
    answers: Seq<usize>,
    pos: int,
) -> Seq<SelectionView>
    decreases ds.len(),
{
    if ds.len() == 0 {
        Seq::empty()
    } else {
        resolve_dims(ds.drop_last(), answers, pos).push(
            resolve_sel(ds.last(), answers, pos + dims_needs(ds.drop_last())),
        )
    }
}

/// A whole builder resolved against the answers: the same variables in the
/// same order, each dimension list resolved in walk order.
pub open spec fn resolve_all(
    cs: Seq<ConstraintView>,
    answers: Seq<usize>,
    pos: int,
) -> Seq<ConstraintView>
    decreases cs.len(),
{
    if cs.len() == 0 {
        Seq::empty()
    } else {
        resolve_all(cs.drop_last(), answers, pos).push(
            ConstraintView {
                name: cs.last().name,
                dimensions: resolve_dims(
                    cs.last().dimensions,
                    answers,
                    pos + all_needs(cs.drop_last()),
                ),
            },
        )
    }
}

proof fn lemma_dims_needs_prefix(ds: Seq<SelectionView>, i: int)
    requires
        0 <= i <= ds.len(),
    ensures
        dims_needs(ds.subrange(0, i)) <= dims_needs(ds),
    decreases ds.len() - i,
{
    if i == ds.len() {
        assert(ds.subrange(0, i) =~= ds);
    } else {
        lemma_dims_needs_prefix(ds, i + 1);
        assert(ds.subrange(0, i + 1).drop_last() =~= ds.subrange(0, i));
        assert(ds.subrange(0, i + 1).last() == ds[i]);
    }
}

proof fn lemma_all_needs_prefix(cs: Seq<ConstraintView>, i: int)
    requires
        0 <= i <= cs.len(),
    ensures
        all_needs(cs.subrange(0, i)) <= all_needs(cs),
    decreases cs.len() - i,
{
    if i == cs.len() {
        assert(cs.subrange(0, i) =~= cs);
    } else {
        lemma_all_needs_prefix(cs, i + 1);
        assert(cs.subrange(0, i + 1).drop_last() =~= cs.subrange(0, i));
        assert(cs.subrange(0, i + 1).last() == cs[i]);
    }
}

/// The identity law of resolution: when every selection of a builder is
/// already an index selection, it asks for no lookups and resolves to
/// itself, whatever answers are supplied.
pub proof fn lemma_resolve_identity(cs: Seq<ConstraintView>, answers: Seq<usize>, pos: int)
    requires
        forall|i: int, j: int|
            0 <= i < cs.len() && 0 <= j < cs[i].dimensions.len() ==> (
            #[trigger] cs[i].dimensions[j]) is Index,
    ensures
        all_resolvable(cs),
        all_needs(cs) == 0,
        resolve_all(cs, answers, pos) == cs,
    decreases cs.len(),
{
    if cs.len() > 0 {
        lemma_resolve_identity(cs.drop_last(), answers, pos);
        lemma_resolve_dims_identity(cs.last().dimensions, answers, pos);
        assert(cs[cs.len() - 1] == cs.last());
        assert(resolve_all(cs, answers, pos).last() =~~= cs.last());
        assert(resolve_all(cs, answers, pos) =~~= cs);
    }
}

proof fn lemma_resolve_dims_identity(ds: Seq<SelectionView>, answers: Seq<usize>, pos: int)
    requires
        forall|j: int| 0 <= j < ds.len() ==> (#[trigger] ds[j]) is Index,
    ensures
        dims_needs(ds) == 0,
        resolve_dims(ds, answers, pos) == ds,
    decreases ds.len(),
{
    if ds.len() > 0 {
        lemma_resolve_dims_identity(ds.drop_last(), answers, pos);
        assert(resolve_dims(ds, answers, pos) =~= ds);
    }
}

impl ConstraintBuilder {
    /// The coordinate lookups this builder needs before it can be
    /// resolved: one `(variable name, f64 bit pattern)` pair per numeric
    /// value of each value selection, in walk order.
    pub fn resolution_requests(&self) -> (r: Vec<(String, u64)>)
        ensures
            r@.map_values(|p: (String, u64)| (p.0@, p.1)) == all_requests(self@),
    {
        let ghost cs = self@;
        let mut out: Vec<(String, u64)> = Vec::new();
        let n = self.constraints.len();
        let mut i: usize = 0;
        proof {
            assert(out@.map_values(|p: (String, u64)| (p.0@, p.1)) =~= all_requests(
                cs.subrange(0, 0),
            ));
        }
        while i < n
            invariant
                i <= n,
                n == self.constraints@.len(),
                cs == self@,
                cs.len() == n,
                forall|k: int| 0 <= k < n ==> cs[k] == (#[trigger] self.constraints@[k])@,
                out@.map_values(|p: (String, u64)| (p.0@, p.1)) == all_requests(
                    cs.subrange(0, i as int),
                ),
            decreases n - i,
        {
            proof {
                assert(cs.subrange(0, i + 1).drop_last() =~= cs.subrange(0, i as int));
                assert(cs.subrange(0, i + 1).last() == cs[i as int]);
            }
            let c = &self.constraints[i];
            let ghost dims = cs[i as int].dimensions;
            let m = c.dimensions.len();
            let mut j: usize = 0;
            proof {
                assert(dims.subrange(0, 0) =~= Seq::<SelectionView>::empty());
                assert(out@.map_values(|p: (String, u64)| (p.0@, p.1)) =~= all_requests(
                    cs.subrange(0, i as int),
                ) + dims_requests(cs[i as int].name, dims.subrange(0, 0)));
            }
            while j < m
                invariant
                    j <= m,
                    m == c.dimensions@.len(),
                    dims == cs[i as int].dimensions,
                    dims.len() == m,
                    i < n,
                    cs.len() == n,
                    forall|k: int| 0 <= k < m ==> dims[k] == (#[trigger] c.dimensions@[k])@,
                    c@.name == cs[i as int].name,
                    out@.map_values(|p: (String, u64)| (p.0@, p.1)) == all_requests(
                        cs.subrange(0, i as int),
                    ) + dims_requests(cs[i as int].name, dims.subrange(0, j as int)),
                decreases m - j,
            {
                proof {
                    assert(dims.subrange(0, j + 1).drop_last() =~= dims.subrange(0, j as int));
                    assert(dims.subrange(0, j + 1).last() == dims[j as int]);
                }
                let ghost out_old = out@;
                match &c.dimensions[j] {
                    Selection::Index(_) => {
                        proof {
                            assert(out@.map_values(|p: (String, u64)| (p.0@, p.1))
                                =~= out_old.map_values(|p: (String, u64)| (p.0@, p.1))
                                + sel_requests(cs[i as int].name, dims[j as int]));
                        }
                    },
                    Selection::Value(v) => {
                        match v {
                            ValueSelection::Single(x) => {
                                out.push((c.name.clone(), *x));
                            },
                            ValueSelection::Range(a, b) => {
                                out.push((c.name.clone(), *a));
                                out.push((c.name.clone(), *b));
                            },
                            ValueSelection::Multiple(xs) => {
                                let xn = xs.len();
                                let mut t: usize = 0;
                                while t < xn
                                    invariant
                                        t <= xn,
                                        xn == xs@.len(),
                                        c@.name == cs[i as int].name,
                                        out@.map_values(|p: (String, u64)| (p.0@, p.1))
                                            == out_old.map_values(
                                            |p: (String, u64)| (p.0@, p.1),
                                        ) + xs@.subrange(0, t as int).map_values(
                                            |x: u64| (cs[i as int].name, x),
                                        ),
                                    decreases xn - t,
                                {
                                    let ghost out_prev = out@;
                                    out.push((c.name.clone(), xs[t]));
                                    proof {
                                        assert(xs@.subrange(0, t + 1) =~= xs@.subrange(
                                            0,
                                            t as int,
                                        ).push(xs@[t as int]));
                                        assert(out@.map_values(
                                            |p: (String, u64)| (p.0@, p.1),
                                        ) =~= out_prev.map_values(
                                            |p: (String, u64)| (p.0@, p.1),
                                        ).push((cs[i as int].name, xs@[t as int])));
                                        assert(xs@.subrange(0, t + 1).map_values(
                                            |x: u64| (cs[i as int].name, x),
                                        ) =~= xs@.subrange(0, t as int).map_values(
                                            |x: u64| (cs[i as int].name, x),
                                        ).push((cs[i as int].name, xs@[t as int])));
                                    }
                                    t += 1;
                                }
                                proof {
                                    assert(xs@.subrange(0, xn as int) =~= xs@);
                                }
                            },
                            ValueSelection::String(_) => {},
                            ValueSelection::StringRange(_, _) => {},
                            ValueSelection::StringMultiple(_) => {},
                        }
                        proof {
                            assert(out@.map_values(|p: (String, u64)| (p.0@, p.1))
                                =~= out_old.map_values(|p: (String, u64)| (p.0@, p.1))
                                + sel_requests(cs[i as int].name, dims[j as int]));
                        }
                    },
                }
                j += 1;
            }
            proof {
                assert(dims.subrange(0, m as int) =~= dims);
            }
            i += 1;
        }
        proof {
            assert(cs.subrange(0, n as int) =~= cs);
        }
        out
    }
}

fn dup_index_selection(s: &IndexSelection) -> (r: IndexSelection)
    ensures
        r@ == s@,
{
    match s {
        IndexSelection::Single(i) => IndexSelection::Single(*i),
        IndexSelection::Range(a, b) => IndexSelection::Range(*a, *b),
        IndexSelection::Stride(a, k, b) => IndexSelection::Stride(*a, *k, *b),
        IndexSelection::Multiple(v) => {
            let n = v.len();
            let mut out: Vec<usize> = Vec::new();
            let mut i: usize = 0;
            while i < n
                invariant
                    i <= n,
                    n == v@.len(),
                    out@.len() == i,
                    forall|k: int| 0 <= k < i ==> out@[k] == v@[k],
                decreases n - i,
            {
                out.push(v[i]);
                i += 1;
            }
            proof {
                assert(out@ =~= v@);
            }
            IndexSelection::Multiple(out)
        },
    }
}

fn check_resolvable(cs: &Vec<VariableConstraint>) -> (r: bool)
    ensures
        r == all_resolvable(cs@.map_values(|c: VariableConstraint| c@)),
{
    let ghost view = cs@.map_values(|c: VariableConstraint| c@);
    let n = cs.len();
    let mut i: usize = 0;
    while i < n
        invariant
            i <= n,
            n == cs@.len(),
            view == cs@.map_values(|c: VariableConstraint| c@),
            view.len() == n,
            forall|k: int| 0 <= k < n ==> view[k] == (#[trigger] cs@[k])@,
            forall|k: int, j: int|
                0 <= k < i && 0 <= j < view[k].dimensions.len() ==> sel_resolvable(
                    #[trigger] view[k].dimensions[j],
                ),
        decreases n - i,
    {
        let ghost dims = view[i as int].dimensions;
        let m = cs[i].dimensions.len();
        let mut j: usize = 0;
        while j < m
            invariant
                j <= m,
                i < n,
                n == cs@.len(),
                view == cs@.map_values(|c: VariableConstraint| c@),
                view.len() == n,
                m == cs@[i as int].dimensions@.len(),
                dims == view[i as int].dimensions,
                dims.len() == m,
                forall|k: int| 0 <= k < m ==> dims[k]
                    == (#[trigger] cs@[i as int].dimensions@[k])@,
                forall|k: int| 0 <= k < j ==> sel_resolvable(#[trigger] dims[k]),
            decreases m - j,
        {
            match &cs[i].dimensions[j] {
                Selection::Value(ValueSelection::String(_)) => {
                    proof {
                        assert(!sel_resolvable(dims[j as int]));
                    }
                    return false;
                },
                Selection::Value(ValueSelection::StringRange(_, _)) => {
                    proof {
                        assert(!sel_resolvable(dims[j as int]));
                    }
                    return false;
                },
                Selection::Value(ValueSelection::StringMultiple(_)) => {
                    proof {
                        assert(!sel_resolvable(dims[j as int]));
                    }
                    return false;
                },
                _ => {
                    proof {
                        assert(sel_resolvable(dims[j as int]));
                    }
                },
            }
            j += 1;
        }
        i += 1;
    }
    true
}

fn count_needs(cs: &Vec<VariableConstraint>) -> (r: Option<usize>)
    ensures
        (r is Some) == (all_needs(cs@.map_values(|c: VariableConstraint| c@)) <= usize::MAX),
        r matches Some(v) ==> v == all_needs(cs@.map_values(|c: VariableConstraint| c@)),
{
    let ghost view = cs@.map_values(|c: VariableConstraint| c@);
    let n = cs.len();
    let mut total: usize = 0;
    let mut i: usize = 0;
    proof {
        assert(view.subrange(0, 0) =~= Seq::<ConstraintView>::empty());
    }
    while i < n
        invariant
            i <= n,
            n == cs@.len(),
            view == cs@.map_values(|c: VariableConstraint| c@),
            view.len() == n,
            forall|k: int| 0 <= k < n ==> view[k] == (#[trigger] cs@[k])@,
            total == all_needs(view.subrange(0, i as int)),
        decreases n - i,
    {
        proof {
            assert(view.subrange(0, i + 1).drop_last() =~= view.subrange(0, i as int));
            assert(view.subrange(0, i + 1).last() == view[i as int]);
        }
        let ghost dims = view[i as int].dimensions;
        let m = cs[i].dimensions.len();
        let mut sub: usize = 0;
        let mut j: usize = 0;
        proof {
            assert(dims.subrange(0, 0) =~= Seq::<SelectionView>::empty());
        }
        while j < m
            invariant
                j <= m,
                i < n,
                n == cs@.len(),
                view == cs@.map_values(|c: VariableConstraint| c@),
                view.len() == n,
                total == all_needs(view.subrange(0, i as int)),
                m == cs@[i as int].dimensions@.len(),
                dims == view[i as int].dimensions,
                dims.len() == m,
                forall|k: int| 0 <= k < m ==> dims[k]
                    == (#[trigger] cs@[i as int].dimensions@[k])@,
                sub == dims_needs(dims.subrange(0, j as int)),
            decreases m - j,
        {
            proof {
                assert(dims.subrange(0, j + 1).drop_last() =~= dims.subrange(0, j as int));
                assert(dims.subrange(0, j + 1).last() == dims[j as int]);
            }
            let needed: usize = match &cs[i].dimensions[j] {
                Selection::Index(_) => 0,
                Selection::Value(ValueSelection::Single(_)) => 1,
                Selection::Value(ValueSelection::Range(_, _)) => 2,
                Selection::Value(ValueSelection::Multiple(xs)) => xs.len(),
                Selection::Value(ValueSelection::String(_)) => 0,
                Selection::Value(ValueSelection::StringRange(_, _)) => 0,
                Selection::Value(ValueSelection::StringMultiple(_)) => 0,
            };
            sub = match crate::lemmas::add_checked(sub, needed) {
                Some(t) => t,
                None => {
                    proof {
                        lemma_dims_needs_prefix(dims, j + 1);
                        assert(view.subrange(0, i + 1).drop_last() =~= view.subrange(
                            0,
                            i as int,
                        ));
                        assert(view.subrange(0, i + 1).last() == view[i as int]);
                        lemma_all_needs_prefix(view, i + 1);
                        assert(all_needs(view) > usize::MAX);
                    }
                    return None;
                },
            };
            j += 1;
        }
        proof {
            assert(dims.subrange(0, m as int) =~= dims);
        }
        total = match crate::lemmas::add_checked(total, sub) {
            Some(t) => t,
            None => {
                proof {
                    lemma_all_needs_prefix(view, i + 1);
                    assert(all_needs(view) > usize::MAX);
                }
                return None;
            },
        };
        i += 1;
    }
    proof {
        assert(view.subrange(0, n as int) =~= view);
    }
    Some(total)
}

impl ConstraintBuilder {
    /// Resolves the builder against looked-up indices: every value
    /// selection is rewritten to an index selection consuming its answers
    /// in walk order (a range becomes the ascending pair of its two
    /// answers), and index selections pass through unchanged — so a
    /// builder of index selections alone needs no answers and comes back
    /// equal (`lemma_resolve_identity`). String-valued selections cannot
    /// be resolved, and the answers must number exactly the lookups of
    /// `resolution_requests`.
    pub fn resolve_with(&self, answers: &Vec<usize>) -> (r: Result<ConstraintBuilder, String>)
        ensures
            (r is Ok) == (all_resolvable(self@) && answers@.len() == all_needs(self@)),
            r matches Ok(b2) ==> b2@ == resolve_all(self@, answers@, 0),
            !all_resolvable(self@) ==> (r matches Err(m) && m@
                == "String coordinate lookup not yet implemented"@),
            all_resolvable(self@) && answers@.len() != all_needs(self@) ==> (r matches Err(m)
                && m@ == "resolved index count does not match the value selections"@),
    {
        let ghost cs = self@;
        let alen = answers.len();
        if !check_resolvable(&self.constraints) {
            return Err(String::from_str("String coordinate lookup not yet implemented"));
        }
        let needs = match count_needs(&self.constraints) {
            Some(t) => t,
            None => {
                return Err(
                    String::from_str("resolved index count does not match the value selections"),
                );
            },
        };
        if alen != needs {
            return Err(
                String::from_str("resolved index count does not match the value selections"),
            );
        }
        let n = self.constraints.len();
        let mut out: Vec<VariableConstraint> = Vec::new();
        let mut p: usize = 0;
        let mut i: usize = 0;
        proof {
            assert(cs.subrange(0, 0) =~= Seq::<ConstraintView>::empty());
            assert(out@.map_values(|c: VariableConstraint| c@) =~= resolve_all(
                cs.subrange(0, 0),
                answers@,
                0,
            ));
        }
        while i < n
            invariant
                i <= n,
                n == self.constraints@.len(),
                cs == self@,
                cs.len() == n,
                forall|k: int| 0 <= k < n ==> cs[k] == (#[trigger] self.constraints@[k])@,
                all_resolvable(cs),
                answers@.len() == all_needs(cs),
                alen == answers@.len(),
                p == all_needs(cs.subrange(0, i as int)),
                out@.map_values(|c: VariableConstraint| c@) == resolve_all(
                    cs.subrange(0, i as int),
                    answers@,
                    0,
                ),
            decreases n - i,
        {
            proof {
                assert(cs.subrange(0, i + 1).drop_last() =~= cs.subrange(0, i as int));
                assert(cs.subrange(0, i + 1).last() == cs[i as int]);
                lemma_all_needs_prefix(cs, i + 1);
            }
            let c = &self.constraints[i];
            let ghost dims = cs[i as int].dimensions;
            let ghost base = p as int;
            let m = c.dimensions.len();
            let mut new_dims: Vec<Selection> = Vec::new();
            let mut q: usize = p;
            let mut j: usize = 0;
            proof {
                assert(dims.subrange(0, 0) =~= Seq::<SelectionView>::empty());
                assert(new_dims@.map_values(|d: Selection| d@) =~= resolve_dims(
                    dims.subrange(0, 0),
                    answers@,
                    base,
                ));
            }
            while j < m
                invariant
                    j <= m,
                    i < n,
                    m == c.dimensions@.len(),
                    dims == cs[i as int].dimensions,
                    dims.len() == m,
                    forall|k: int| 0 <= k < m ==> dims[k] == (#[trigger] c.dimensions@[k])@,
                    cs == self@,
                    cs.len() == n,
                    all_resolvable(cs),
                    answers@.len() == all_needs(cs),
                    alen == answers@.len(),
                    base == all_needs(cs.subrange(0, i as int)),
                    q == base + dims_needs(dims.subrange(0, j as int)),
                    new_dims@.map_values(|d: Selection| d@) == resolve_dims(
                        dims.subrange(0, j as int),
                        answers@,
                        base,
                    ),
                decreases m - j,
            {
                proof {
                    assert(dims.subrange(0, j + 1).drop_last() =~= dims.subrange(0, j as int));
                    assert(dims.subrange(0, j + 1).last() == dims[j as int]);
                    lemma_dims_needs_prefix(dims, j + 1);
                    assert(cs.subrange(0, i + 1).drop_last() =~= cs.subrange(0, i as int));
                    assert(cs.subrange(0, i + 1).last() == cs[i as int]);
                    lemma_all_needs_prefix(cs, i + 1);
                    assert(all_needs(cs.subrange(0, i + 1)) == base + dims_needs(dims));
                    assert(base + dims_needs(dims) <= answers@.len());
                }
                let ghost nd_old = new_dims@;
                match &c.dimensions[j] {
                    Selection::Index(idx) => {
                        new_dims.push(Selection::Index(dup_index_selection(idx)));
                        proof {
                            assert(new_dims@.last()@ == resolve_sel(
                                dims[j as int],
                                answers@,
                                q as int,
                            ));
                        }
                    },
                    Selection::Value(ValueSelection::Single(_)) => {
                        new_dims.push(
                            Selection::Index(IndexSelection::Single(answers[q])),
                        );
                        q = q + 1;
                    },
                    Selection::Value(ValueSelection::Range(_, _)) => {
                        let a = answers[q];
                        let b = answers[q + 1];
                        let lo = if a <= b {
                            a
                        } else {
                            b
                        };
                        let hi = if a <= b {
                            b
                        } else {
                            a
                        };
                        new_dims.push(Selection::Index(IndexSelection::Range(lo, hi)));
                        q = q + 2;
                    },
                    Selection::Value(ValueSelection::Multiple(xs)) => {
                        let xn = xs.len();
                        let mut picked: Vec<usize> = Vec::new();
                        let mut t: usize = 0;
                        while t < xn
                            invariant
                                t <= xn,
                                xn == xs@.len(),
                                q + xn <= answers@.len(),
                                alen == answers@.len(),
                                picked@.len() == t,
                                forall|k: int| 0 <= k < t ==> picked@[k] == answers@[q + k],
                            decreases xn - t,
                        {
                            picked.push(answers[q + t]);
                            t += 1;
                        }
                        proof {
                            assert(picked@ =~= Seq::new(
                                xs@.len(),
                                |k: int| answers@[q + k],
                            ));
                        }
                        new_dims.push(
                            Selection::Index(IndexSelection::Multiple(picked)),
                        );
                        q = q + xn;
                    },
                    Selection::Value(ValueSelection::String(_)) => {
                        proof {
                            assert(sel_resolvable(cs[i as int].dimensions[j as int]));
                            assert(false);
                        }
                    },
                    Selection::Value(ValueSelection::StringRange(_, _)) => {
                        proof {
                            assert(sel_resolvable(cs[i as int].dimensions[j as int]));
                            assert(false);
                        }
                    },
                    Selection::Value(ValueSelection::StringMultiple(_)) => {
                        proof {
                            assert(sel_resolvable(cs[i as int].dimensions[j as int]));
                            assert(false);
                        }
                    },
                }
                proof {
                    assert(new_dims@.map_values(|d: Selection| d@) =~= resolve_dims(
                        dims.subrange(0, j + 1),
                        answers@,
                        base,
                    ));
                }
                j += 1;
            }
            proof {
                assert(dims.subrange(0, m as int) =~= dims);
            }
            let ghost out_old = out@;
            out.push(VariableConstraint { name: c.name.clone(), dimensions: new_dims });
            proof {
                assert(out@.map_values(|x: VariableConstraint| x@) =~= out_old.map_values(
                    |x: VariableConstraint| x@,
                ).push(out@.last()@));
                assert(out@.last()@ =~~= ConstraintView {
                    name: cs[i as int].name,
                    dimensions: resolve_dims(dims, answers@, base),
                });
                assert(out@.map_values(|x: VariableConstraint| x@) =~~= resolve_all(
                    cs.subrange(0, i + 1),
                    answers@,
                    0,
                ));
            }
            p = q;
            i += 1;
        }
        proof {
            assert(cs.subrange(0, n as int) =~= cs);
        }
        let b2 = ConstraintBuilder { constraints: out };
        Ok(b2)
    }
}

} // verus!
