//! The tensors that a checkpoint lists, and what a model needs of them.
//!
//! A loader states its needs in the order in which it reads; the first one that
//! the checkpoint does not meet is the error that the load ends with.

use vstd::prelude::*;
use vstd::string::*;

use crate::error::{bad_shape, is_bad_shape, is_missing, two, ModelError, Result};
use crate::text::join2;

verus! {

/// A tensor of a checkpoint: its name and its shape.
#[derive(Debug)]
pub struct TensorEntry {
    /// Name of the tensor.
    pub name: String,
    /// Shape of the tensor.
    pub shape: Vec<usize>,
}

/// The tensors of a checkpoint.
#[derive(Debug)]
pub struct Catalog {
    /// In the order of the checkpoint.
    pub entries: Vec<TensorEntry>,
}

/// The shape of the first tensor called `name`, if there is one.
pub open spec fn lookup(entries: Seq<TensorEntry>, name: Seq<char>) -> Option<Seq<usize>>
    decreases entries.len(),
{
    if entries.len() == 0 {
        None
    } else if entries[0].name@ == name {
        Some(entries[0].shape@)
    } else {
        lookup(entries.skip(1), name)
    }
}

/// What a loader needs of a tensor.
#[verifier::ext_equal]
pub enum Need {
    /// The tensor is there, with this many dimensions.
    Present {
        /// Name of the tensor.
        name: Seq<char>,
        /// Dimensions.
        rank: int,
    },
    /// The tensor may be absent, or has this many dimensions.
    Optional {
        /// Name of the tensor.
        name: Seq<char>,
        /// Dimensions.
        rank: int,
    },
    /// The tensor has this shape; `label` names it in the error.
    Shape {
        /// Name in the error.
        label: Seq<char>,
        /// Name of the tensor.
        name: Seq<char>,
        /// Expected shape.
        expected: Seq<usize>,
    },
    /// The tensor has this many rows.
    Rows {
        /// Name of the tensor.
        name: Seq<char>,
        /// Expected rows.
        rows: usize,
    },
    /// The tensor may be absent, or has this many rows.
    OptionalRows {
        /// Name of the tensor.
        name: Seq<char>,
        /// Expected rows.
        rows: usize,
    },
    /// A part of `rows` rows of the tensor has the shape `[rows, cols]`; `label`
    /// names the part in the error.
    PartShape {
        /// Name in the error.
        label: Seq<char>,
        /// Name of the tensor.
        name: Seq<char>,
        /// Rows of the part.
        rows: usize,
        /// Expected columns.
        cols: usize,
    },
}

/// The shape with its first number replaced.
pub open spec fn with_rows(shape: Seq<usize>, rows: usize) -> Seq<usize> {
    shape.update(0, rows)
}

/// `entries` meet a need.
pub open spec fn meets(entries: Seq<TensorEntry>, need: Need) -> bool {
    match need {
        Need::Present { name, rank } => lookup(entries, name) matches Some(shape) && shape.len()
            == rank,
        Need::Optional { name, rank } => lookup(entries, name) matches Some(shape) ==> shape.len()
            == rank,
        Need::Shape { label, name, expected } => lookup(entries, name) == Some(expected),
        Need::Rows { name, rows } => lookup(entries, name) matches Some(shape) && shape.len() > 0
            && shape[0] == rows,
        Need::OptionalRows { name, rows } => lookup(entries, name) matches Some(shape)
            ==> shape.len() > 0 && shape[0] == rows,
        Need::PartShape { label, name, rows, cols } => lookup(entries, name) matches Some(shape)
            && shape.len() == 2 && shape[1] == cols,
    }
}

/// What is said of a tensor with the wrong number of dimensions.
pub open spec fn wrong_rank_text(name: Seq<char>) -> Seq<char> {
    "unexpected rank of tensor "@ + name
}

/// `error` is what a load ends with when `entries` do not meet `need`.
pub open spec fn unmet(entries: Seq<TensorEntry>, need: Need, error: ModelError) -> bool {
    match need {
        Need::Present { name, rank } => match lookup(entries, name) {
            None => is_missing(error, name),
            Some(_) => error matches ModelError::Format(t) && t@ == wrong_rank_text(name),
        },
        Need::Optional { name, rank } => error matches ModelError::Format(t) && t@
            == wrong_rank_text(name),
        Need::Shape { label, name, expected } => match lookup(entries, name) {
            None => is_missing(error, name),
            Some(shape) => is_bad_shape(error, label, expected, shape),
        },
        Need::Rows { name, rows } | Need::OptionalRows { name, rows } => match lookup(
            entries,
            name,
        ) {
            None => is_missing(error, name),
            Some(shape) => if shape.len() == 0 {
                error matches ModelError::Format(t) && t@ == wrong_rank_text(name)
            } else {
                is_bad_shape(error, name, with_rows(shape, rows), shape)
            },
        },
        Need::PartShape { label, name, rows, cols } => match lookup(entries, name) {
            None => is_missing(error, name),
            Some(shape) => if shape.len() != 2 {
                error matches ModelError::Format(t) && t@ == wrong_rank_text(name)
            } else {
                is_bad_shape(error, label, seq![rows, cols], seq![rows, shape[1]])
            },
        },
    }
}

/// All needs are met.
pub open spec fn meets_all(entries: Seq<TensorEntry>, needs: Seq<Need>) -> bool {
    forall|i: int| 0 <= i < needs.len() ==> meets(entries, #[trigger] needs[i])
}

/// `error` is that of the first need that is not met.
pub open spec fn first_unmet(entries: Seq<TensorEntry>, needs: Seq<Need>, error: ModelError) -> bool {
    exists|i: int|
        0 <= i < needs.len() && meets_all(entries, needs.take(i)) && !meets(
            entries,
            #[trigger] needs[i],
        ) && unmet(entries, needs[i], error)
}

/// `result` is `Ok` exactly when all needs are met, and else the error of the
/// first that is not.
pub open spec fn settles<T>(
    entries: Seq<TensorEntry>,
    needs: Seq<Need>,
    result: std::result::Result<T, ModelError>,
) -> bool {
    match result {
        Ok(_) => meets_all(entries, needs),
        Err(error) => !meets_all(entries, needs) && first_unmet(entries, needs, error),
    }
}

impl Catalog {
    /// The tensors listed.
    pub open spec fn listed(&self) -> Seq<TensorEntry> {
        self.entries@
    }

    /// Finds a tensor by its name.
    pub fn find(&self, name: &str) -> (shape: Option<&Vec<usize>>)
        ensures
            match shape {
                Some(shape) => lookup(self.listed(), name@) == Some(shape@),
                None => lookup(self.listed(), name@) is None,
            },
            shape is Some <==> exists|i: int|
                0 <= i < self.entries@.len() && (#[trigger] self.entries@[i]).name@ == name@,
    {
        proof {
            law_lookup_finds_the_first(self.entries@, name@);
        }
        let wanted: String = name.to_owned();
        let mut i: usize = 0;
        assert(self.entries@.skip(0) =~= self.entries@);
        while i < self.entries.len()
            invariant
                i <= self.entries@.len(),
                wanted@ == name@,
                lookup(self.entries@, name@) == lookup(self.entries@.skip(i as int), name@),
            decreases self.entries@.len() - i,
        {
            assert(self.entries@.skip(i as int).skip(1) =~= self.entries@.skip(i + 1));
            if self.entries[i].name == wanted {
                return Some(&self.entries[i].shape);
            }
            i = i + 1;
        }
        None
    }

    /// Whether a tensor is listed.
    pub fn has(&self, name: &str) -> (yes: bool)
        ensures
            yes == lookup(self.listed(), name@) is Some,
            yes <==> exists|i: int|
                0 <= i < self.entries@.len() && (#[trigger] self.entries@[i]).name@ == name@,
    {
        self.find(name).is_some()
    }

    /// The error for a wrong number of dimensions.
    fn wrong_rank(name: &str) -> (error: ModelError)
        ensures
            error matches ModelError::Format(t) && t@ == wrong_rank_text(name@),
    {
        ModelError::Format(join2("unexpected rank of tensor ", name))
    }

    /// The tensor must be there, with `rank` dimensions.
    fn present(&self, name: &str, rank: usize) -> (r: Result<()>)
        ensures
            settles_one(self.listed(), Need::Present { name: name@, rank: rank as int }, r),
    {
        match self.find(name) {
            None => Err(ModelError::MissingTensor(name.to_owned())),
            Some(shape) => if shape.len() == rank {
                Ok(())
            } else {
                Err(Catalog::wrong_rank(name))
            },
        }
    }

    /// The tensor may be absent; else it must have `rank` dimensions.
    fn optional(&self, name: &str, rank: usize) -> (r: Result<()>)
        ensures
            settles_one(self.listed(), Need::Optional { name: name@, rank: rank as int }, r),
    {
        match self.find(name) {
            None => Ok(()),
            Some(shape) => if shape.len() == rank {
                Ok(())
            } else {
                Err(Catalog::wrong_rank(name))
            },
        }
    }

    /// The tensor must have a shape.
    fn shape(&self, label: &str, name: &str, expected: Vec<usize>) -> (r: Result<()>)
        ensures
            settles_one(
                self.listed(),
                Need::Shape { label: label@, name: name@, expected: expected@ },
                r,
            ),
    {
        match self.find(name) {
            None => Err(ModelError::MissingTensor(name.to_owned())),
            Some(shape) => expect_shape(label, shape, &expected),
        }
    }

    /// The tensor must have `rows` rows.
    fn rows(&self, name: &str, rows: usize) -> (r: Result<()>)
        ensures
            settles_one(self.listed(), Need::Rows { name: name@, rows }, r),
    {
        match self.find(name) {
            None => Err(ModelError::MissingTensor(name.to_owned())),
            Some(shape) => check_rows(name, shape, rows),
        }
    }

    /// The tensor may be absent; else it must have `rows` rows.
    fn optional_rows(&self, name: &str, rows: usize) -> (r: Result<()>)
        ensures
            settles_one(self.listed(), Need::OptionalRows { name: name@, rows }, r),
    {
        match self.find(name) {
            None => Ok(()),
            Some(shape) => check_rows(name, shape, rows),
        }
    }

    /// A part of the rows of the tensor must have `cols` columns.
    fn part_shape(&self, label: &str, name: &str, rows: usize, cols: usize) -> (r: Result<()>)
        ensures
            settles_one(
                self.listed(),
                Need::PartShape { label: label@, name: name@, rows, cols },
                r,
            ),
    {
        match self.find(name) {
            None => Err(ModelError::MissingTensor(name.to_owned())),
            Some(shape) => {
                if shape.len() != 2 {
                    Err(Catalog::wrong_rank(name))
                } else if shape[1] == cols {
                    Ok(())
                } else {
                    Err(bad_shape(label, two(rows, cols), two(rows, shape[1])))
                }
            },
        }
    }
}

/// `result` is `Ok` exactly when one need is met, and else its error.
pub open spec fn settles_one(
    entries: Seq<TensorEntry>,
    need: Need,
    result: std::result::Result<(), ModelError>,
) -> bool {
    match result {
        Ok(_) => meets(entries, need),
        Err(error) => !meets(entries, need) && unmet(entries, need, error),
    }
}

/// Copies a list of numbers.
pub fn copied(list: &Vec<usize>) -> (copy: Vec<usize>)
    ensures
        copy@ == list@,
{
    let mut copy: Vec<usize> = Vec::new();
    let mut i: usize = 0;
    while i < list.len()
        invariant
            i <= list@.len(),
            copy@ == list@.take(i as int),
        decreases list@.len() - i,
    {
        copy.push(list[i]);
        i = i + 1;
        assert(copy@ =~= list@.take(i as int));
    }
    assert(list@.take(i as int) =~= list@);
    copy
}

/// Whether two lists hold the same numbers.
pub fn same_list(a: &Vec<usize>, b: &Vec<usize>) -> (same: bool)
    ensures
        same == (a@ == b@),
{
    if a.len() != b.len() {
        return false;
    }
    let mut i: usize = 0;
    while i < a.len()
        invariant
            i <= a@.len(),
            a@.len() == b@.len(),
            forall|j: int| 0 <= j < i ==> a@[j] == b@[j],
        decreases a@.len() - i,
    {
        if a[i] != b[i] {
            assert(a@[i as int] != b@[i as int]);
            return false;
        }
        i = i + 1;
    }
    assert(a@ =~= b@);
    true
}

/// Checks a shape against the expected one.
pub fn expect_shape(name: &str, got: &Vec<usize>, expected: &Vec<usize>) -> (r: Result<()>)
    ensures
        r is Ok <==> got@ == expected@,
        r matches Err(e) ==> is_bad_shape(e, name@, expected@, got@),
{
    if same_list(got, expected) {
        Ok(())
    } else {
        Err(bad_shape(name, copied(expected), copied(got)))
    }
}

/// Checks the rows of a tensor that stands for several.
fn check_rows(name: &str, shape: &Vec<usize>, rows: usize) -> (r: Result<()>)
    ensures
        r is Ok <==> shape@.len() > 0 && shape@[0] == rows,
        r matches Err(e) ==> if shape@.len() == 0 {
            e matches ModelError::Format(t) && t@ == wrong_rank_text(name@)
        } else {
            is_bad_shape(e, name@, with_rows(shape@, rows), shape@)
        },
{
    if shape.len() == 0 {
        return Err(Catalog::wrong_rank(name));
    }
    if shape[0] == rows {
        Ok(())
    } else {
        let mut expected: Vec<usize> = copied(shape);
        expected.set(0, rows);
        Err(bad_shape(name, expected, copied(shape)))
    }
}

/// One more need, settled after those before it, settles them together.
proof fn lemma_settles_next(
    entries: Seq<TensorEntry>,
    before: Seq<Need>,
    need: Need,
    result: std::result::Result<(), ModelError>,
)
    requires
        meets_all(entries, before),
        settles_one(entries, need, result),
    ensures
        settles(entries, before.push(need), result),
{
    let all = before.push(need);
    match result {
        Ok(_) => {
            assert forall|i: int| 0 <= i < all.len() implies meets(entries, #[trigger] all[i]) by {
                if i < before.len() {
                    assert(all[i] == before[i]);
                }
            }
        },
        Err(error) => {
            let i = before.len() as int;
            assert(all.take(i) =~= before);
            assert(!meets(entries, all[i]));
        },
    }
}

/// An error that settles the first needs settles all of them.
proof fn lemma_settles_early(
    entries: Seq<TensorEntry>,
    before: Seq<Need>,
    rest: Seq<Need>,
    error: ModelError,
)
    requires
        !meets_all(entries, before),
        first_unmet(entries, before, error),
    ensures
        !meets_all(entries, before + rest),
        first_unmet(entries, before + rest, error),
{
    let all = before + rest;
    let i = choose|i: int|
        0 <= i < before.len() && meets_all(entries, before.take(i)) && !meets(
            entries,
            #[trigger] before[i],
        ) && unmet(entries, before[i], error);
    assert(all[i] == before[i]);
    assert(all.take(i) =~= before.take(i));
}

/// A need as the loaders write it down.
#[derive(Debug)]
pub enum Demand {
    /// See [`Need::Present`].
    Present(String, usize),
    /// See [`Need::Optional`].
    Optional(String, usize),
    /// See [`Need::Shape`].
    Shape(String, String, Vec<usize>),
    /// See [`Need::Rows`].
    Rows(String, usize),
    /// See [`Need::OptionalRows`].
    OptionalRows(String, usize),
    /// See [`Need::PartShape`].
    PartShape(String, String, usize, usize),
}

/// The need that a demand writes down.
pub open spec fn need_of(demand: Demand) -> Need {
    match demand {
        Demand::Present(name, rank) => Need::Present { name: name@, rank: rank as int },
        Demand::Optional(name, rank) => Need::Optional { name: name@, rank: rank as int },
        Demand::Shape(label, name, expected) => Need::Shape {
            label: label@,
            name: name@,
            expected: expected@,
        },
        Demand::Rows(name, rows) => Need::Rows { name: name@, rows },
        Demand::OptionalRows(name, rows) => Need::OptionalRows { name: name@, rows },
        Demand::PartShape(label, name, rows, cols) => Need::PartShape {
            label: label@,
            name: name@,
            rows,
            cols,
        },
    }
}

/// The needs of a loader, in order.
#[derive(Debug)]
pub struct Demands {
    list: Vec<Demand>,
}

impl View for Demands {
    type V = Seq<Need>;

    closed spec fn view(&self) -> Seq<Need> {
        Seq::new(self.list@.len(), |i: int| need_of(self.list@[i]))
    }
}

impl Demands {
    /// No needs yet.
    pub fn new() -> (demands: Self)
        ensures
            demands@ == Seq::<Need>::empty(),
    {
        let demands = Demands { list: Vec::new() };
        assert(demands@ =~= Seq::<Need>::empty());
        demands
    }

    /// Adds a need.
    fn add_demand(&mut self, demand: Demand)
        ensures
            final(self)@ == old(self)@.push(need_of(demand)),
    {
        let ghost before = self@;
        self.list.push(demand);
        assert(self@ =~= before.push(need_of(demand)));
    }

    /// The tensor must be there, with `rank` dimensions.
    pub fn present(&mut self, name: String, rank: usize)
        ensures
            final(self)@ == old(self)@.push(Need::Present { name: name@, rank: rank as int }),
    {
        self.add_demand(Demand::Present(name, rank));
    }

    /// The tensor may be absent; else it must have `rank` dimensions.
    pub fn optional(&mut self, name: String, rank: usize)
        ensures
            final(self)@ == old(self)@.push(Need::Optional { name: name@, rank: rank as int }),
    {
        self.add_demand(Demand::Optional(name, rank));
    }

    /// The tensor must have a shape.
    pub fn shape(&mut self, label: String, name: String, expected: Vec<usize>)
        ensures
            final(self)@ == old(self)@.push(
                Need::Shape { label: label@, name: name@, expected: expected@ },
            ),
    {
        self.add_demand(Demand::Shape(label, name, expected));
    }

    /// The tensor must have `rows` rows.
    pub fn rows(&mut self, name: String, rows: usize)
        ensures
            final(self)@ == old(self)@.push(Need::Rows { name: name@, rows }),
    {
        self.add_demand(Demand::Rows(name, rows));
    }

    /// The tensor may be absent; else it must have `rows` rows.
    pub fn optional_rows(&mut self, name: String, rows: usize)
        ensures
            final(self)@ == old(self)@.push(Need::OptionalRows { name: name@, rows }),
    {
        self.add_demand(Demand::OptionalRows(name, rows));
    }

    /// A part of the rows of the tensor must have `cols` columns.
    pub fn part_shape(&mut self, label: String, name: String, rows: usize, cols: usize)
        ensures
            final(self)@ == old(self)@.push(
                Need::PartShape { label: label@, name: name@, rows, cols },
            ),
    {
        self.add_demand(Demand::PartShape(label, name, rows, cols));
    }
}

impl Catalog {
    /// Checks one need.
    fn settle_one(&self, demand: &Demand) -> (r: Result<()>)
        ensures
            settles_one(self.listed(), need_of(*demand), r),
    {
        match demand {
            Demand::Present(name, rank) => self.present(name.as_str(), *rank),
            Demand::Optional(name, rank) => self.optional(name.as_str(), *rank),
            Demand::Shape(label, name, expected) => self.shape(
                label.as_str(),
                name.as_str(),
                copied(expected),
            ),
            Demand::Rows(name, rows) => self.rows(name.as_str(), *rows),
            Demand::OptionalRows(name, rows) => self.optional_rows(name.as_str(), *rows),
            Demand::PartShape(label, name, rows, cols) => self.part_shape(
                label.as_str(),
                name.as_str(),
                *rows,
                *cols,
            ),
        }
    }

    /// Checks the needs of a loader, in order, and stops at the first that is
    /// not met.
    pub fn settle(&self, demands: &Demands) -> (r: Result<()>)
        ensures
            settles(self.listed(), demands@, r),
    {
        let ghost all = demands@;
        let mut i: usize = 0;
        while i < demands.list.len()
            invariant
                all == demands@,
                all.len() == demands.list@.len(),
                i <= all.len(),
                meets_all(self.listed(), all.take(i as int)),
            decreases all.len() - i,
        {
            let checked = self.settle_one(&demands.list[i]);
            proof {
                assert(all[i as int] == need_of(demands.list@[i as int]));
                assert(all.take(i as int).push(all[i as int]) =~= all.take(i + 1));
                lemma_settles_next(self.listed(), all.take(i as int), all[i as int], checked);
            }
            match checked {
                Ok(()) => {},
                Err(error) => {
                    proof {
                        assert(all.take(i + 1) + all.skip(i + 1) =~= all);
                        lemma_settles_early(
                            self.listed(),
                            all.take(i + 1),
                            all.skip(i + 1),
                            error,
                        );
                    }
                    return Err(error);
                },
            }
            i = i + 1;
        }
        assert(all.take(i as int) =~= all);
        Ok(())
    }
}

/// Of needs that settle in different orders, the first that is not met decides:
/// two errors for the same needs are errors of the same need.
pub proof fn law_first_unmet_is_one(
    entries: Seq<TensorEntry>,
    needs: Seq<Need>,
    a: ModelError,
    b: ModelError,
)
    requires
        first_unmet(entries, needs, a),
        first_unmet(entries, needs, b),
    ensures
        exists|i: int|
            0 <= i < needs.len() && unmet(entries, #[trigger] needs[i], a) && unmet(
                entries,
                needs[i],
                b,
            ),
{
    let i = choose|i: int|
        0 <= i < needs.len() && meets_all(entries, needs.take(i)) && !meets(
            entries,
            #[trigger] needs[i],
        ) && unmet(entries, needs[i], a);
    let j = choose|j: int|
        0 <= j < needs.len() && meets_all(entries, needs.take(j)) && !meets(
            entries,
            #[trigger] needs[j],
        ) && unmet(entries, needs[j], b);
    if i < j {
        assert(needs.take(j)[i] == needs[i]);
    } else if j < i {
        assert(needs.take(i)[j] == needs[j]);
    }
}

/// A tensor is found by its whole name, and of several with one name it is the
/// first.
pub proof fn law_lookup_finds_the_first(entries: Seq<TensorEntry>, name: Seq<char>)
    ensures
        lookup(entries, name) is None ==> forall|i: int|
            0 <= i < entries.len() ==> (#[trigger] entries[i]).name@ != name,
        lookup(entries, name) matches Some(shape) ==> exists|i: int|
            0 <= i < entries.len() && (#[trigger] entries[i]).name@ == name && entries[i].shape@
                == shape && forall|j: int| 0 <= j < i ==> (#[trigger] entries[j]).name@ != name,
    decreases entries.len(),
{
    if entries.len() > 0 && entries[0].name@ != name {
        let rest = entries.skip(1);
        law_lookup_finds_the_first(rest, name);
        match lookup(rest, name) {
            None => {
                assert forall|i: int| 0 <= i < entries.len() implies (#[trigger] entries[i]).name@
                    != name by {
                    if i > 0 {
                        assert(rest[i - 1] == entries[i]);
                    }
                }
            },
            Some(shape) => {
                let k = choose|i: int|
                    0 <= i < rest.len() && (#[trigger] rest[i]).name@ == name && rest[i].shape@
                        == shape && forall|j: int|
                        0 <= j < i ==> (#[trigger] rest[j]).name@ != name;
                assert(entries[k + 1] == rest[k]);
                assert forall|j: int| 0 <= j < k + 1 implies (#[trigger] entries[j]).name@
                    != name by {
                    if j > 0 {
                        assert(rest[j - 1] == entries[j]);
                    }
                }
            },
        }
    }
}

/// A load that fails tells the truth: a tensor that it calls missing is not in the
/// checkpoint, and of a shape that it calls bad what it expected is not what it
/// got. It fails in no other way but for a wrong number of dimensions.
pub proof fn law_refusals_are_true<T>(
    entries: Seq<TensorEntry>,
    needs: Seq<Need>,
    r: std::result::Result<T, ModelError>,
    error: ModelError,
)
    requires
        settles(entries, needs, r),
        r matches Err(e) && e == error,
    ensures
        match error {
            ModelError::MissingTensor(name) => forall|i: int|
                0 <= i < entries.len() ==> (#[trigger] entries[i]).name@ != name@,
            ModelError::BadShape { tensor, expected, got } => expected@ != got@,
            ModelError::Format(_) => true,
            _ => false,
        },
{
    let i = choose|i: int|
        0 <= i < needs.len() && meets_all(entries, needs.take(i)) && !meets(
            entries,
            #[trigger] needs[i],
        ) && unmet(entries, needs[i], error);
    if let ModelError::MissingTensor(name) = error {
        law_lookup_finds_the_first(entries, name@);
    }
    match needs[i] {
        Need::Rows { name, rows } | Need::OptionalRows { name, rows } => {
            if let Some(shape) = lookup(entries, name) {
                if shape.len() > 0 {
                    assert(with_rows(shape, rows)[0] == rows);
                }
            }
        },
        Need::PartShape { label, name, rows, cols } => {
            if let Some(shape) = lookup(entries, name) {
                assert(seq![rows, cols][1] == cols);
                assert(seq![rows, shape[1]][1] == shape[1]);
            }
        },
        _ => {},
    }
}

/// What a load says of a need that is not met: a tensor that is not there is
/// missing; one of the wrong shape has a bad shape, with what was expected and what
/// is there; one with the wrong number of dimensions is told by its name.
pub proof fn law_unmet_needs_are_blamed(
    entries: Seq<TensorEntry>,
    need: Need,
    error: ModelError,
)
    requires
        !meets(entries, need),
        unmet(entries, need, error),
    ensures
        match need {
            Need::Present { name, rank } => match (lookup(entries, name), error) {
                (None, ModelError::MissingTensor(t)) => t@ == name,
                (Some(_), ModelError::Format(t)) => t@ == "unexpected rank of tensor "@ + name,
                _ => false,
            },
            Need::Optional { name, rank } => match error {
                ModelError::Format(t) => t@ == "unexpected rank of tensor "@ + name,
                _ => false,
            },
            Need::Shape { label, name, expected } => match (lookup(entries, name), error) {
                (None, ModelError::MissingTensor(t)) => t@ == name,
                (Some(shape), ModelError::BadShape { tensor: t, expected: e, got: g }) => t@
                    == label && e@ == expected && g@ == shape,
                _ => false,
            },
            Need::Rows { name, rows } | Need::OptionalRows { name, rows } => match (
                lookup(entries, name),
                error,
            ) {
                (None, ModelError::MissingTensor(t)) => t@ == name,
                (Some(shape), ModelError::Format(t)) => shape.len() == 0 && t@
                    == "unexpected rank of tensor "@ + name,
                (Some(shape), ModelError::BadShape { tensor: t, expected: e, got: g }) => t@
                    == name && g@ == shape && e@.len() == shape.len() && shape.len() > 0 && e@[0]
                    == rows && e@.skip(1) == shape.skip(1),
                _ => false,
            },
            Need::PartShape { label, name, rows, cols } => match (lookup(entries, name), error) {
                (None, ModelError::MissingTensor(t)) => t@ == name,
                (Some(shape), ModelError::Format(t)) => shape.len() != 2 && t@
                    == "unexpected rank of tensor "@ + name,
                (Some(shape), ModelError::BadShape { tensor: t, expected: e, got: g }) => t@
                    == label && shape.len() == 2 && e@ == seq![rows, cols] && g@ == seq![
                    rows,
                    shape[1],
                ],
                _ => false,
            },
        },
{
    match need {
        Need::Rows { name, rows } | Need::OptionalRows { name, rows } => {
            if let Some(shape) = lookup(entries, name) {
                if shape.len() > 0 {
                    assert(with_rows(shape, rows).skip(1) =~= shape.skip(1));
                }
            }
        },
        _ => {},
    }
}

/// A need is met by what is listed: the tensor is there with that many dimensions,
/// that shape, that many rows or that many columns; one that may be absent is met
/// where it is.
pub proof fn law_needs_are_met_by_what_is_listed(entries: Seq<TensorEntry>, need: Need)
    ensures
        meets(entries, need) == match need {
            Need::Present { name, rank } => match lookup(entries, name) {
                Some(shape) => shape.len() == rank,
                None => false,
            },
            Need::Optional { name, rank } => match lookup(entries, name) {
                Some(shape) => shape.len() == rank,
                None => true,
            },
            Need::Shape { label, name, expected } => match lookup(entries, name) {
                Some(shape) => shape == expected,
                None => false,
            },
            Need::Rows { name, rows } => match lookup(entries, name) {
                Some(shape) => shape.len() > 0 && shape[0] == rows,
                None => false,
            },
            Need::OptionalRows { name, rows } => match lookup(entries, name) {
                Some(shape) => shape.len() > 0 && shape[0] == rows,
                None => true,
            },
            Need::PartShape { label, name, rows, cols } => match lookup(entries, name) {
                Some(shape) => shape.len() == 2 && shape[1] == cols,
                None => false,
            },
        },
{
}

/// A load succeeds exactly when all needs are met. Where those before one are met
/// and it is not, the load fails with what is said of that one, whatever comes
/// behind it.
pub proof fn law_first_gap_is_reported<T>(
    entries: Seq<TensorEntry>,
    before: Seq<Need>,
    need: Need,
    after: Seq<Need>,
    r: std::result::Result<T, ModelError>,
)
    requires
        settles(entries, before + seq![need] + after, r),
        forall|i: int| 0 <= i < before.len() ==> meets(entries, #[trigger] before[i]),
    ensures
        !meets(entries, need) ==> r is Err && unmet(entries, need, r->Err_0),
        meets(entries, need) && (forall|i: int|
            0 <= i < after.len() ==> meets(entries, #[trigger] after[i])) ==> r is Ok,
        r is Ok ==> meets(entries, need),
{
    let all = before + seq![need] + after;
    let at = before.len() as int;
    assert(all[at] == need);
    if !meets(entries, need) {
        assert(!meets_all(entries, all));
        let error = r->Err_0;
        let i = choose|i: int|
            0 <= i < all.len() && meets_all(entries, all.take(i)) && !meets(
                entries,
                #[trigger] all[i],
            ) && unmet(entries, all[i], error);
        if i < at {
            assert(all[i] == before[i]);
        }
        if i > at {
            assert(all.take(i)[at] == need);
        }
    } else if forall|i: int| 0 <= i < after.len() ==> meets(entries, #[trigger] after[i]) {
        assert forall|i: int| 0 <= i < all.len() implies meets(entries, #[trigger] all[i]) by {
            if i < at {
                assert(all[i] == before[i]);
            } else if i > at {
                assert(all[i] == after[i - at - 1]);
            }
        }
    }
}

} // verus!
