//! The lower-level endpoint builder: explicit variables plus per-variable
//! index constraints, rendered into `.das`, `.dds` and `.dods` URLs.
//!
//! Unlike the constraint builder, index bounds here are signed, and
//! constraints group under their variable: a variable that was added
//! renders once with all its bracket groups; a constraint whose variable
//! was never added still renders as its own part.

use vstd::prelude::*;

use crate::errors::Error;
use crate::text::dec_rep_int;

verus! {

/// One bracket's content: a single index, or a `start:end` span with an
/// optional stride.
#[derive(Clone, Copy, Debug)]
pub enum IndexRange {
    Single(isize),
    Range { start: isize, end: isize, stride: Option<isize> },
}

/// A group of bracket selections attached to one variable.
#[derive(Clone, Debug)]
pub struct Constraint {
    pub variable: String,
    pub indices: Vec<IndexRange>,
}

impl View for Constraint {
    type V = (Seq<char>, Seq<IndexRange>);

    open spec fn view(&self) -> (Seq<char>, Seq<IndexRange>) {
        (self.variable@, self.indices@)
    }
}

/// The text inside one bracket.
pub open spec fn render_index_range(r: IndexRange) -> Seq<char> {
    match r {
        IndexRange::Single(i) => dec_rep_int(i as int),
        IndexRange::Range { start, end, stride } => match stride {
            None => dec_rep_int(start as int) + ":"@ + dec_rep_int(end as int),
            Some(k) => dec_rep_int(start as int) + ":"@ + dec_rep_int(k as int) + ":"@
                + dec_rep_int(end as int),
        },
    }
}

/// The concatenated bracket groups of an index list.
pub open spec fn render_ranges(rs: Seq<IndexRange>) -> Seq<char>
    decreases rs.len(),
{
    if rs.len() == 0 {
        Seq::empty()
    } else {
        render_ranges(rs.drop_last()) + "["@ + render_index_range(rs.last()) + "]"@
    }
}

impl IndexRange {
    /// The bracket content this selection renders to: `i`, `s:e`, or
    /// `s:k:e`.
    pub fn render(&self) -> (out: String)
        ensures
            out@ == render_index_range(*self),
    {
        render_index_range_exec(self)
    }
}

fn render_index_range_exec(r: &IndexRange) -> (out: String)
    ensures
        out@ == render_index_range(*r),
{
    let mut acc = String::new();
    match r {
        IndexRange::Single(i) => {
            acc.append(crate::text::isize_to_string(*i).as_str());
        },
        IndexRange::Range { start, end, stride } => {
            acc.append(crate::text::isize_to_string(*start).as_str());
            acc.append(":");
            match stride {
                Some(k) => {
                    acc.append(crate::text::isize_to_string(*k).as_str());
                    acc.append(":");
                },
                None => {},
            }
            acc.append(crate::text::isize_to_string(*end).as_str());
        },
    }
    acc
}

fn render_ranges_exec(rs: &Vec<IndexRange>) -> (out: String)
    ensures
        out@ == render_ranges(rs@),
{
    let n = rs.len();
    let mut acc = String::new();
    let mut i: usize = 0;
    while i < n
        invariant
            i <= n,
            n == rs@.len(),
            acc@ == render_ranges(rs@.subrange(0, i as int)),
        decreases n - i,
    {
        proof {
            assert(rs@.subrange(0, i + 1).drop_last() =~= rs@.subrange(0, i as int));
            assert(rs@.subrange(0, i + 1).last() == rs@[i as int]);
        }
        acc.append("[");
        acc.append(render_index_range_exec(&rs[i]).as_str());
        acc.append("]");
        i += 1;
    }
    proof {
        assert(rs@.subrange(0, n as int) =~= rs@);
    }
    acc
}

impl Constraint {
    /// A constraint over explicit bracket selections.
    pub fn new(variable: &str, indices: Vec<IndexRange>) -> (r: Constraint)
        ensures
            r@ == (variable@, indices@),
    {
        Constraint { variable: variable.to_owned(), indices }
    }

    /// A single-index constraint.
    pub fn single(variable: &str, index: isize) -> (r: Constraint)
        ensures
            r@.0 == variable@,
            r@.1 == seq![IndexRange::Single(index)],
    {
        let mut indices: Vec<IndexRange> = Vec::new();
        indices.push(IndexRange::Single(index));
        proof {
            assert(indices@ =~= seq![IndexRange::Single(index)]);
        }
        Constraint { variable: variable.to_owned(), indices }
    }

    /// A span constraint with optional stride.
    pub fn range(variable: &str, start: isize, end: isize, stride: Option<isize>) -> (r:
        Constraint)
        ensures
            r@.0 == variable@,
            r@.1 == seq![IndexRange::Range { start, end, stride }],
    {
        let mut indices: Vec<IndexRange> = Vec::new();
        indices.push(IndexRange::Range { start, end, stride });
        proof {
            assert(indices@ =~= seq![IndexRange::Range { start, end, stride }]);
        }
        Constraint { variable: variable.to_owned(), indices }
    }

    /// The constraint's rendering: the variable, then one bracket per
    /// selection.
    pub fn render(&self) -> (r: String)
        ensures
            r@ == self@.0 + render_ranges(self@.1),
    {
        let mut acc = self.variable.clone();
        acc.append(render_ranges_exec(&self.indices).as_str());
        acc
    }
}

/// The bracket groups of every constraint recorded under one variable,
/// concatenated in recording order.
pub open spec fn entry_brackets(cs: Seq<(Seq<char>, Seq<IndexRange>)>) -> Seq<char>
    decreases cs.len(),
{
    if cs.len() == 0 {
        Seq::empty()
    } else {
        entry_brackets(cs.drop_last()) + render_ranges(cs.last().1)
    }
}

/// The first entry at or after `i` keyed by `name`.
pub open spec fn find_entry(
    es: Seq<(Seq<char>, Seq<(Seq<char>, Seq<IndexRange>)>)>,
    name: Seq<char>,
    i: int,
) -> Option<int>
    decreases es.len() - i,
{
    if i < 0 || i >= es.len() {
        None
    } else if es[i].0 == name {
        Some(i)
    } else {
        find_entry(es, name, i + 1)
    }
}

proof fn lemma_find_entry_skip(
    es: Seq<(Seq<char>, Seq<(Seq<char>, Seq<IndexRange>)>)>,
    name: Seq<char>,
    j: int,
    i: int,
)
    requires
        0 <= j <= i <= es.len(),
        forall|k: int| j <= k < i ==> (#[trigger] es[k]).0 != name,
    ensures
        find_entry(es, name, j) == find_entry(es, name, i),
    decreases i - j,
{
    if j < i {
        lemma_find_entry_skip(es, name, j + 1, i);
    }
}

/// The rendering of one added variable: its name, then the bracket groups
/// of the constraints recorded under it (bare when none are).
pub open spec fn var_part(
    es: Seq<(Seq<char>, Seq<(Seq<char>, Seq<IndexRange>)>)>,
    v: Seq<char>,
) -> Seq<char> {
    v + match find_entry(es, v, 0) {
        Some(i) => entry_brackets(es[i].1),
        None => Seq::<char>::empty(),
    }
}

/// The parts contributed by the added variables, in order.
pub open spec fn parts_of_vars(
    vars: Seq<Seq<char>>,
    es: Seq<(Seq<char>, Seq<(Seq<char>, Seq<IndexRange>)>)>,
) -> Seq<Seq<char>>
    decreases vars.len(),
{
    if vars.len() == 0 {
        Seq::empty()
    } else {
        parts_of_vars(vars.drop_last(), es).push(var_part(es, vars.last()))
    }
}

/// The parts contributed by constraints whose variable was never added:
/// each such constraint renders as its own part.
pub open spec fn parts_of_extras(
    es: Seq<(Seq<char>, Seq<(Seq<char>, Seq<IndexRange>)>)>,
    vars: Seq<Seq<char>>,
) -> Seq<Seq<char>>
    decreases es.len(),
{
    if es.len() == 0 {
        Seq::empty()
    } else if vars.contains(es.last().0) {
        parts_of_extras(es.drop_last(), vars)
    } else {
        parts_of_extras(es.drop_last(), vars) + es.last().1.map_values(
            |c: (Seq<char>, Seq<IndexRange>)| c.0 + render_ranges(c.1),
        )
    }
}

/// A comma-separated joining.
pub open spec fn join_comma(ps: Seq<Seq<char>>) -> Seq<char>
    decreases ps.len(),
{
    if ps.len() == 0 {
        Seq::empty()
    } else if ps.len() == 1 {
        ps[0]
    } else {
        join_comma(ps.drop_last()) + ","@ + ps.last()
    }
}

/// An endpoint builder holding a base URL (one trailing `/` and one
/// trailing `.nc` stripped), the added variables in order, and the
/// recorded constraints grouped by variable in first-recording order.
#[derive(Clone, Debug)]
pub struct UrlBuilder {
    base_url: String,
    variables: Vec<String>,
    constraints: Vec<(String, Vec<Constraint>)>,
}

impl UrlBuilder {
    /// The stored base URL.
    pub closed spec fn spec_base(self) -> Seq<char> {
        self.base_url@
    }

    /// The added variable names, in order.
    pub closed spec fn spec_vars(self) -> Seq<Seq<char>> {
        self.variables@.map_values(|s: String| s@)
    }

    /// The recorded constraint groups: variable name, then that variable's
    /// constraints in recording order.
    pub closed spec fn spec_entries(self) -> Seq<
        (Seq<char>, Seq<(Seq<char>, Seq<IndexRange>)>),
    > {
        self.constraints@.map_values(
            |p: (String, Vec<Constraint>)| (p.0@, p.1@.map_values(|c: Constraint| c@)),
        )
    }

    /// Stores `base_url`, with one trailing `/` and one trailing `.nc`
    /// removed.
    pub fn new(base_url: &str) -> (r: UrlBuilder)
        ensures
            r.spec_base() == crate::url::spec_strip_base(base_url@),
            r.spec_vars() == Seq::<Seq<char>>::empty(),
            r.spec_entries() == Seq::<(Seq<char>, Seq<(Seq<char>, Seq<IndexRange>)>)>::empty(),
    {
        let stripped = crate::url::strip_base(base_url);
        let r = UrlBuilder { base_url: stripped, variables: Vec::new(), constraints: Vec::new() };
        proof {
            assert(r.spec_vars() =~= Seq::<Seq<char>>::empty());
            assert(r.spec_entries() =~= Seq::<
                (Seq<char>, Seq<(Seq<char>, Seq<IndexRange>)>),
            >::empty());
        }
        r
    }

    /// The DAS endpoint: `<base>.das`.
    pub fn das_url(&self) -> (r: String)
        ensures
            r@ == self.spec_base() + ".das"@,
    {
        let mut acc = self.base_url.clone();
        acc.append(".das");
        acc
    }

    /// The DDS endpoint: `<base>.dds`.
    pub fn dds_url(&self) -> (r: String)
        ensures
            r@ == self.spec_base() + ".dds"@,
    {
        let mut acc = self.base_url.clone();
        acc.append(".dds");
        acc
    }

    /// Adds a variable to the projection.
    pub fn add_variable(self, variable: &str) -> (r: UrlBuilder)
        ensures
            r.spec_base() == self.spec_base(),
            r.spec_entries() == self.spec_entries(),
            r.spec_vars() == self.spec_vars().push(variable@),
    {
        let ghost old_vars = self.spec_vars();
        let mut b = self;
        b.variables.push(variable.to_owned());
        proof {
            assert(b.spec_vars() =~= old_vars.push(variable@));
        }
        b
    }

    /// Adds several variables in order.
    pub fn add_variables(self, variables: &[&str]) -> (r: UrlBuilder)
        ensures
            r.spec_base() == self.spec_base(),
            r.spec_entries() == self.spec_entries(),
            r.spec_vars() == self.spec_vars() + variables@.map_values(|s: &str| s@),
    {
        let ghost nm = variables@.map_values(|s: &str| s@);
        let ghost base_vars = self.spec_vars();
        let mut b = self;
        let n = variables.len();
        let mut i: usize = 0;
        while i < n
            invariant
                i <= n,
                n == nm.len(),
                n == variables@.len(),
                forall|k: int| 0 <= k < n ==> nm[k] == (#[trigger] variables@[k])@,
                b.spec_base() == self.spec_base(),
                b.spec_entries() == self.spec_entries(),
                b.spec_vars() == base_vars + nm.subrange(0, i as int),
            decreases n - i,
        {
            proof {
                assert(base_vars + nm.subrange(0, i as int) =~= (base_vars + nm.subrange(
                    0,
                    i as int,
                )));
            }
            b = b.add_variable(variables[i]);
            proof {
                assert(base_vars + nm.subrange(0, i + 1) =~= (base_vars + nm.subrange(
                    0,
                    i as int,
                )).push(nm[i as int]));
            }
            i += 1;
        }
        proof {
            assert(nm.subrange(0, n as int) =~= nm);
        }
        b
    }

    /// Records a constraint under its variable: appended to the variable's
    /// existing group, or opening a new group at the end.
    pub fn add_constraint(self, constraint: Constraint) -> (r: UrlBuilder)
        ensures
            r.spec_base() == self.spec_base(),
            r.spec_vars() == self.spec_vars(),
            r.spec_entries() == (match find_entry(self.spec_entries(), constraint@.0, 0) {
                Some(i) => self.spec_entries().update(
                    i,
                    (
                        self.spec_entries()[i].0,
                        self.spec_entries()[i].1.push(constraint@),
                    ),
                ),
                None => self.spec_entries().push(
                    (constraint@.0, seq![constraint@]),
                ),
            }),
    {
        let ghost es = self.spec_entries();
        let ghost cv = constraint@;
        let mut b = self;
        let n = b.constraints.len();
        let mut i: usize = 0;
        while i < n
            invariant
                i <= n,
                n == b.constraints@.len(),
                b.spec_base() == self.spec_base(),
                b.spec_vars() == self.spec_vars(),
                b.spec_entries() == es,
                es == self.spec_entries(),
                es.len() == n,
                cv == constraint@,
                forall|k: int| 0 <= k < n ==> es[k] == ((#[trigger] b.constraints@[k]).0@,
                b.constraints@[k].1@.map_values(|c: Constraint| c@)),
                forall|k: int| 0 <= k < i ==> (#[trigger] es[k]).0 != cv.0,
            decreases n - i,
        {
            if crate::text::str_eq(b.constraints[i].0.as_str(), constraint.variable.as_str()) {
                proof {
                    assert(es[i as int].0 == cv.0);
                    lemma_find_entry_skip(es, cv.0, 0, i as int);
                }
                let (nm0, mut group) = b.constraints.remove(i);
                group.push(constraint);
                b.constraints.insert(i, (nm0, group));
                proof {
                    assert(b.spec_entries() =~~= es.update(
                        i as int,
                        (es[i as int].0, es[i as int].1.push(cv)),
                    ));
                }
                return b;
            }
            i += 1;
        }
        proof {
            lemma_find_entry_skip(es, cv.0, 0, n as int);
        }
        let key = constraint.variable.clone();
        let mut group: Vec<Constraint> = Vec::new();
        group.push(constraint);
        b.constraints.push((key, group));
        proof {
            assert(b.spec_entries() =~~= es.push((cv.0, seq![cv])));
        }
        b
    }

    /// Records explicit bracket selections for a variable.
    pub fn add_index_constraint(self, variable: &str, indices: Vec<IndexRange>) -> (r: UrlBuilder)
        ensures
            r.spec_base() == self.spec_base(),
            r.spec_vars() == self.spec_vars(),
            r.spec_entries() == (match find_entry(self.spec_entries(), variable@, 0) {
                Some(i) => self.spec_entries().update(
                    i,
                    (
                        self.spec_entries()[i].0,
                        self.spec_entries()[i].1.push((variable@, indices@)),
                    ),
                ),
                None => self.spec_entries().push(
                    (variable@, seq![(variable@, indices@)]),
                ),
            }),
    {
        self.add_constraint(Constraint::new(variable, indices))
    }

    /// Records one single-index bracket for a variable.
    pub fn add_single_index(self, variable: &str, index: isize) -> (r: UrlBuilder)
        ensures
            r.spec_base() == self.spec_base(),
            r.spec_vars() == self.spec_vars(),
            r.spec_entries() == (match find_entry(self.spec_entries(), variable@, 0) {
                Some(i) => self.spec_entries().update(
                    i,
                    (
                        self.spec_entries()[i].0,
                        self.spec_entries()[i].1.push(
                            (variable@, seq![IndexRange::Single(index)]),
                        ),
                    ),
                ),
                None => self.spec_entries().push(
                    (variable@, seq![(variable@, seq![IndexRange::Single(index)])]),
                ),
            }),
    {
        self.add_constraint(Constraint::single(variable, index))
    }

    /// Records one span bracket for a variable.
    pub fn add_range(self, variable: &str, start: isize, end: isize, stride: Option<isize>) -> (r:
        UrlBuilder)
        ensures
            r.spec_base() == self.spec_base(),
            r.spec_vars() == self.spec_vars(),
            r.spec_entries() == (match find_entry(self.spec_entries(), variable@, 0) {
                Some(i) => self.spec_entries().update(
                    i,
                    (
                        self.spec_entries()[i].0,
                        self.spec_entries()[i].1.push(
                            (variable@, seq![IndexRange::Range { start, end, stride }]),
                        ),
                    ),
                ),
                None => self.spec_entries().push(
                    (
                        variable@,
                        seq![(variable@, seq![IndexRange::Range { start, end, stride }])],
                    ),
                ),
            }),
    {
        self.add_constraint(Constraint::range(variable, start, end, stride))
    }

    /// Records several brackets at once for a variable (one per
    /// dimension).
    pub fn add_multidimensional_constraint(self, variable: &str, indices: Vec<IndexRange>) -> (r:
        UrlBuilder)
        ensures
            r.spec_base() == self.spec_base(),
            r.spec_vars() == self.spec_vars(),
            r.spec_entries() == (match find_entry(self.spec_entries(), variable@, 0) {
                Some(i) => self.spec_entries().update(
                    i,
                    (
                        self.spec_entries()[i].0,
                        self.spec_entries()[i].1.push((variable@, indices@)),
                    ),
                ),
                None => self.spec_entries().push(
                    (variable@, seq![(variable@, indices@)]),
                ),
            }),
    {
        self.add_index_constraint(variable, indices)
    }

    /// Forgets the added variables (recorded constraints stay).
    pub fn clear_variables(self) -> (r: UrlBuilder)
        ensures
            r.spec_base() == self.spec_base(),
            r.spec_entries() == self.spec_entries(),
            r.spec_vars() == Seq::<Seq<char>>::empty(),
    {
        let mut b = self;
        b.variables = Vec::new();
        proof {
            assert(b.spec_vars() =~= Seq::<Seq<char>>::empty());
        }
        b
    }

    /// Forgets the recorded constraints (added variables stay).
    pub fn clear_constraints(self) -> (r: UrlBuilder)
        ensures
            r.spec_base() == self.spec_base(),
            r.spec_vars() == self.spec_vars(),
            r.spec_entries() == Seq::<(Seq<char>, Seq<(Seq<char>, Seq<IndexRange>)>)>::empty(),
    {
        let mut b = self;
        b.constraints = Vec::new();
        proof {
            assert(b.spec_entries() =~= Seq::<
                (Seq<char>, Seq<(Seq<char>, Seq<IndexRange>)>),
            >::empty());
        }
        b
    }

    /// Forgets both the variables and the constraints.
    pub fn clear_all(self) -> (r: UrlBuilder)
        ensures
            r.spec_base() == self.spec_base(),
            r.spec_vars() == Seq::<Seq<char>>::empty(),
            r.spec_entries() == Seq::<(Seq<char>, Seq<(Seq<char>, Seq<IndexRange>)>)>::empty(),
    {
        self.clear_variables().clear_constraints()
    }

    /// The DODS endpoint with the projection: `<base>.dods`, then `?` and
    /// the comma-separated parts when anything was added — first each
    /// added variable with its bracket groups, then each constraint whose
    /// variable was never added.
    pub fn dods_url(&self) -> (r: Result<String, Error>)
        ensures
            r matches Ok(u) && u@ == self.spec_base() + ".dods"@ + (if self.spec_vars().len()
                > 0 || self.spec_entries().len() > 0 {
                "?"@ + join_comma(
                    parts_of_vars(self.spec_vars(), self.spec_entries()) + parts_of_extras(
                        self.spec_entries(),
                        self.spec_vars(),
                    ),
                )
            } else {
                Seq::<char>::empty()
            }),
    {
        let ghost vars = self.spec_vars();
        let ghost es = self.spec_entries();
        let mut parts: Vec<String> = Vec::new();
        let vn = self.variables.len();
        let mut i: usize = 0;
        proof {
            assert(parts@.map_values(|s: String| s@) =~= parts_of_vars(
                vars.subrange(0, 0),
                es,
            ));
        }
        while i < vn
            invariant
                i <= vn,
                vn == self.variables@.len(),
                vars == self.spec_vars(),
                es == self.spec_entries(),
                vars.len() == vn,
                forall|k: int| 0 <= k < vn ==> vars[k] == (#[trigger] self.variables@[k])@,
                parts@.map_values(|s: String| s@) == parts_of_vars(
                    vars.subrange(0, i as int),
                    es,
                ),
            decreases vn - i,
        {
            proof {
                assert(vars.subrange(0, i + 1).drop_last() =~= vars.subrange(0, i as int));
                assert(vars.subrange(0, i + 1).last() == vars[i as int]);
            }
            let ghost parts_old = parts@;
            let piece = self.render_var_part(&self.variables[i]);
            parts.push(piece);
            proof {
                assert(parts@.map_values(|s: String| s@) =~= parts_old.map_values(
                    |s: String| s@,
                ).push(var_part(es, vars[i as int])));
            }
            i += 1;
        }
        proof {
            assert(vars.subrange(0, vn as int) =~= vars);
        }
        let en = self.constraints.len();
        let mut j: usize = 0;
        proof {
            assert(parts_of_extras(es.subrange(0, 0), vars) =~= Seq::<Seq<char>>::empty());
            assert(parts@.map_values(|s: String| s@) =~= parts_of_vars(vars, es)
                + parts_of_extras(es.subrange(0, 0), vars));
        }
        while j < en
            invariant
                j <= en,
                en == self.constraints@.len(),
                vars == self.spec_vars(),
                es == self.spec_entries(),
                es.len() == en,
                forall|k: int| 0 <= k < en ==> es[k] == ((#[trigger] self.constraints@[k]).0@,
                self.constraints@[k].1@.map_values(|c: Constraint| c@)),
                parts@.map_values(|s: String| s@) == parts_of_vars(vars, es) + parts_of_extras(
                    es.subrange(0, j as int),
                    vars,
                ),
            decreases en - j,
        {
            proof {
                assert(es.subrange(0, j + 1).drop_last() =~= es.subrange(0, j as int));
                assert(es.subrange(0, j + 1).last() == es[j as int]);
            }
            if !contains_name(&self.variables, self.constraints[j].0.as_str()) {
                let group = &self.constraints[j].1;
                let gn = group.len();
                let ghost gview = es[j as int].1;
                let mut t: usize = 0;
                while t < gn
                    invariant
                        t <= gn,
                        gn == group@.len(),
                        gview == es[j as int].1,
                        gview.len() == gn,
                        forall|k: int| 0 <= k < gn ==> gview[k] == (#[trigger] group@[k])@,
                        parts@.map_values(|s: String| s@) == parts_of_vars(vars, es)
                            + parts_of_extras(es.subrange(0, j as int), vars)
                            + gview.subrange(0, t as int).map_values(
                            |c: (Seq<char>, Seq<IndexRange>)| c.0 + render_ranges(c.1),
                        ),
                    decreases gn - t,
                {
                    let ghost parts_old = parts@;
                    parts.push(group[t].render());
                    proof {
                        assert(gview.subrange(0, t + 1) =~= gview.subrange(0, t as int).push(
                            gview[t as int],
                        ));
                        assert(parts@.map_values(|s: String| s@) =~= parts_old.map_values(
                            |s: String| s@,
                        ).push(gview[t as int].0 + render_ranges(gview[t as int].1)));
                        assert(gview.subrange(0, t + 1).map_values(
                            |c: (Seq<char>, Seq<IndexRange>)| c.0 + render_ranges(c.1),
                        ) =~= gview.subrange(0, t as int).map_values(
                            |c: (Seq<char>, Seq<IndexRange>)| c.0 + render_ranges(c.1),
                        ).push(gview[t as int].0 + render_ranges(gview[t as int].1)));
                    }
                    t += 1;
                }
                proof {
                    assert(gview.subrange(0, gn as int) =~= gview);
                    assert(parts_of_extras(es.subrange(0, j + 1), vars) =~= parts_of_extras(
                        es.subrange(0, j as int),
                        vars,
                    ) + gview.map_values(
                        |c: (Seq<char>, Seq<IndexRange>)| c.0 + render_ranges(c.1),
                    ));
                    assert(parts@.map_values(|s: String| s@) =~= parts_of_vars(vars, es)
                        + parts_of_extras(es.subrange(0, j + 1), vars));
                }
            } else {
                proof {
                    assert(parts_of_extras(es.subrange(0, j + 1), vars) =~= parts_of_extras(
                        es.subrange(0, j as int),
                        vars,
                    ));
                }
            }
            j += 1;
        }
        proof {
            assert(es.subrange(0, en as int) =~= es);
        }
        let mut url = self.base_url.clone();
        url.append(".dods");
        if self.variables.len() > 0 || self.constraints.len() > 0 {
            url.append("?");
            let ghost plist = parts@.map_values(|s: String| s@);
            let pn = parts.len();
            let mut p: usize = 0;
            while p < pn
                invariant
                    p <= pn,
                    pn == parts@.len(),
                    plist == parts@.map_values(|s: String| s@),
                    plist.len() == pn,
                    url@ == self.spec_base() + ".dods"@ + "?"@ + join_comma(
                        plist.subrange(0, p as int),
                    ),
                decreases pn - p,
            {
                proof {
                    assert(plist.subrange(0, p + 1).drop_last() =~= plist.subrange(
                        0,
                        p as int,
                    ));
                    assert(plist.subrange(0, p + 1).last() == plist[p as int]);
                    assert(plist[p as int] == (#[trigger] parts@[p as int])@);
                }
                if p > 0 {
                    url.append(",");
                }
                url.append(parts[p].as_str());
                p += 1;
            }
            proof {
                assert(plist.subrange(0, pn as int) =~= plist);
            }
        }
        Ok(url)
    }

    fn render_var_part(&self, v: &String) -> (r: String)
        ensures
            r@ == var_part(self.spec_entries(), v@),
    {
        let ghost es = self.spec_entries();
        let mut acc = v.clone();
        let n = self.constraints.len();
        let mut i: usize = 0;
        while i < n
            invariant
                i <= n,
                n == self.constraints@.len(),
                es == self.spec_entries(),
                es.len() == n,
                acc@ == v@,
                forall|k: int| 0 <= k < n ==> es[k] == ((#[trigger] self.constraints@[k]).0@,
                self.constraints@[k].1@.map_values(|c: Constraint| c@)),
                forall|k: int| 0 <= k < i ==> (#[trigger] es[k]).0 != v@,
            decreases n - i,
        {
            if crate::text::str_eq(self.constraints[i].0.as_str(), v.as_str()) {
                proof {
                    assert(es[i as int].0 == v@);
                    lemma_find_entry_skip(es, v@, 0, i as int);
                }
                let group = &self.constraints[i].1;
                let gn = group.len();
                let ghost gview = es[i as int].1;
                let mut t: usize = 0;
                while t < gn
                    invariant
                        t <= gn,
                        gn == group@.len(),
                        gview.len() == gn,
                        forall|k: int| 0 <= k < gn ==> gview[k] == (#[trigger] group@[k])@,
                        acc@ == v@ + entry_brackets(gview.subrange(0, t as int)),
                    decreases gn - t,
                {
                    proof {
                        assert(gview.subrange(0, t + 1).drop_last() =~= gview.subrange(
                            0,
                            t as int,
                        ));
                        assert(gview.subrange(0, t + 1).last() == gview[t as int]);
                    }
                    acc.append(render_ranges_exec(&group[t].indices).as_str());
                    t += 1;
                }
                proof {
                    assert(gview.subrange(0, gn as int) =~= gview);
                }
                return acc;
            }
            i += 1;
        }
        proof {
            lemma_find_entry_skip(es, v@, 0, n as int);
            assert(acc@ =~= v@ + Seq::<char>::empty());
        }
        acc
    }
}

fn contains_name(v: &Vec<String>, s: &str) -> (r: bool)
    ensures
        r == v@.map_values(|x: String| x@).contains(s@),
{
    let ghost sel = v@.map_values(|x: String| x@);
    let n = v.len();
    let mut i: usize = 0;
    while i < n
        invariant
            i <= n,
            n == v@.len(),
            sel == v@.map_values(|x: String| x@),
            forall|k: int| 0 <= k < i ==> (#[trigger] v@[k])@ != s@,
        decreases n - i,
    {
        if crate::text::str_eq(v[i].as_str(), s) {
            proof {
                assert(sel[i as int] == s@);
            }
            return true;
        }
        i += 1;
    }
    proof {
        if sel.contains(s@) {
            let k = choose|k: int| 0 <= k < sel.len() && sel[k] == s@;
            assert((v@[k])@ == s@);
        }
    }
    false
}

} // verus!
