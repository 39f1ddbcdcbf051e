//! Weights that are placed as their bytes arrive.
//!
//! A streamed checkpoint is met in the order of its bytes, so each tensor is
//! placed while it is in hand; the loader then asks for what was placed. Every
//! name is placed once, and what it became is not decided again.

use vstd::prelude::*;
use vstd::string::*;

use crate::catalog::{copied, lookup, wrong_rank_text, TensorEntry};
use crate::error::{is_missing, is_unsupported, list_text, listed, ModelError, Result};
use crate::metadata::ModelMetadata;
use crate::text::{decimal, decimal_text, join2, same_text};

verus! {

/// What a tensor is placed as.
#[derive(Debug, Clone, Copy, PartialEq, Eq, Structural)]
pub enum StageStep {
    /// It has been placed already.
    Skip,
    /// The embedding table, with the output head that shares it where it stays
    /// packed.
    Embedding,
    /// A packed weight where the kernels take it, and else a dense tensor.
    Weight,
}

/// `s` ends with `end`.
pub open spec fn ends_with(s: Seq<char>, end: Seq<char>) -> bool {
    s.len() >= end.len() && s.skip(s.len() - end.len()) == end
}

/// The name of an embedding table.
pub open spec fn names_embedding(name: Seq<char>) -> bool {
    ends_with(name, "embed_tokens.weight"@) || ends_with(name, "embed_tokens"@)
}

/// `name` is one of `names`.
pub open spec fn contains_name(names: Seq<Seq<char>>, name: Seq<char>) -> bool {
    exists|i: int| 0 <= i < names.len() && #[trigger] names[i] == name
}

/// The texts of a list.
pub open spec fn texts(names: Seq<String>) -> Seq<Seq<char>> {
    Seq::new(names.len(), |i: int| names[i]@)
}

/// The state of the weights placed so far.
#[verifier::ext_equal]
pub struct StagedState {
    /// Names placed, in the order of arrival.
    pub names: Seq<Seq<char>>,
    /// Names of packed weights that have not been taken.
    pub packed: Seq<Seq<char>>,
    /// Dense tensors.
    pub dense: Seq<TensorEntry>,
    /// The embedding table, if it has been placed and not been taken: whether it
    /// is packed.
    pub embed: Option<bool>,
    /// The configuration of the checkpoint.
    pub metadata: ModelMetadata,
}

/// Weights placed so far.
#[derive(Debug)]
pub struct StagedWeights {
    names: Vec<String>,
    packed: Vec<String>,
    dense: Vec<TensorEntry>,
    embed: Option<bool>,
    metadata: ModelMetadata,
}

impl View for StagedWeights {
    type V = StagedState;

    closed spec fn view(&self) -> StagedState {
        StagedState {
            names: texts(self.names@),
            packed: texts(self.packed@),
            dense: self.dense@,
            embed: self.embed,
            metadata: self.metadata,
        }
    }
}

/// No name occurs twice.
pub open spec fn no_repeats(names: Seq<Seq<char>>) -> bool {
    forall|i: int, j: int| 0 <= i < j < names.len() ==> #[trigger] names[i] != #[trigger] names[j]
}

/// The names of dense tensors.
pub open spec fn dense_names(dense: Seq<TensorEntry>) -> Seq<Seq<char>> {
    Seq::new(dense.len(), |i: int| dense[i].name@)
}

/// Nothing has been placed twice: no name occurs twice, and each packed weight
/// and each dense tensor has a name of its own among those placed.
pub open spec fn distinct_names(s: StagedState) -> bool {
    &&& no_repeats(s.names)
    &&& no_repeats(s.packed)
    &&& no_repeats(dense_names(s.dense))
    &&& forall|i: int|
        0 <= i < s.packed.len() ==> contains_name(s.names, #[trigger] s.packed[i])
    &&& forall|i: int|
        0 <= i < s.dense.len() ==> contains_name(s.names, (#[trigger] s.dense[i]).name@)
    &&& forall|i: int|
        0 <= i < s.packed.len() ==> !contains_name(dense_names(s.dense), #[trigger] s.packed[i])
}

/// What the source gives for a tensor that is in hand.
#[derive(Debug)]
pub enum Opened {
    /// A packed weight that the kernels took.
    Packed,
    /// A dense tensor of this shape.
    Dense(Vec<usize>),
    /// Nothing: the source has no tensor of this name.
    Absent,
    /// A failure to read, with what is said of it.
    Unreadable(String),
}

/// What becomes of the tensor `name` for which the source gave `opened`: the state
/// before and after, and the result. A name that has been placed changes nothing,
/// and neither does an error; else the name comes behind those placed before.
pub open spec fn staged(
    before: StagedState,
    name: Seq<char>,
    opened: Opened,
    after: StagedState,
    r: Result<()>,
) -> bool {
    if contains_name(before.names, name) {
        r is Ok && after == before
    } else {
        match opened {
            Opened::Packed => {
                &&& r is Ok
                &&& if names_embedding(name) {
                    after == (StagedState {
                        names: before.names.push(name),
                        embed: Some(true),
                        ..before
                    })
                } else {
                    after == (StagedState {
                        names: before.names.push(name),
                        packed: before.packed.push(name),
                        ..before
                    })
                }
            },
            Opened::Dense(shape) => if names_embedding(name) {
                if shape@.len() == 2 {
                    r is Ok && after == (StagedState {
                        names: before.names.push(name),
                        embed: Some(false),
                        ..before
                    })
                } else {
                    after == before && (r matches Err(ModelError::Format(t)) && t@
                        == wrong_rank_text(name))
                }
            } else {
                if shape@.len() == 1 || shape@.len() == 2 {
                    r is Ok && placed_dense(before, name, shape@, after)
                } else {
                    after == before && (r matches Err(e) && is_unsupported(
                        e,
                        rank_text(name, shape@.len() as int),
                    ))
                }
            },
            Opened::Absent => after == before && (r matches Err(e) && is_missing(e, name)),
            Opened::Unreadable(what) => after == before && (r matches Err(ModelError::Format(t))
                && t == what),
        }
    }
}

/// A dense tensor has been placed.
pub open spec fn placed_dense(
    before: StagedState,
    name: Seq<char>,
    shape: Seq<usize>,
    after: StagedState,
) -> bool {
    &&& after.names == before.names.push(name)
    &&& after.packed == before.packed
    &&& after.embed == before.embed
    &&& after.metadata == before.metadata
    &&& after.dense.len() == before.dense.len() + 1
    &&& after.dense.drop_last() == before.dense
    &&& after.dense.last().name@ == name
    &&& after.dense.last().shape@ == shape
}

/// What is contained stays contained when a name comes behind.
proof fn lemma_contained_behind(names: Seq<Seq<char>>, name: Seq<char>, other: Seq<char>)
    ensures
        contains_name(names.push(name), other) == (contains_name(names, other) || other == name),
{
    let all = names.push(name);
    if contains_name(names, other) {
        let i = choose|i: int| 0 <= i < names.len() && #[trigger] names[i] == other;
        assert(all[i] == other);
    }
    if other == name {
        assert(all[names.len() as int] == other);
    }
    if contains_name(all, other) {
        let i = choose|i: int| 0 <= i < all.len() && #[trigger] all[i] == other;
        if i < names.len() {
            assert(names[i] == other);
        }
    }
}

/// A new name behind names without repeats makes none.
proof fn lemma_no_repeats_behind(names: Seq<Seq<char>>, name: Seq<char>)
    requires
        no_repeats(names),
        !contains_name(names, name),
    ensures
        no_repeats(names.push(name)),
{
    let all = names.push(name);
    assert forall|i: int, j: int| 0 <= i < j < all.len() implies #[trigger] all[i]
        != #[trigger] all[j] by {
        assert(all[i] == names[i]);
        if j < names.len() {
            assert(all[j] == names[j]);
        }
    }
}

/// The embedding table under a new name.
proof fn lemma_embedding_keeps_names(s: StagedState, name: Seq<char>, packed: bool)
    requires
        distinct_names(s),
        !contains_name(s.names, name),
    ensures
        distinct_names(
            (StagedState { names: s.names.push(name), embed: Some(packed), ..s }),
        ),
{
    let t = StagedState { names: s.names.push(name), embed: Some(packed), ..s };
    lemma_no_repeats_behind(s.names, name);
    assert forall|i: int| 0 <= i < t.packed.len() implies contains_name(
        t.names,
        #[trigger] t.packed[i],
    ) by {
        lemma_contained_behind(s.names, name, s.packed[i]);
    }
    assert forall|i: int| 0 <= i < t.dense.len() implies contains_name(
        t.names,
        (#[trigger] t.dense[i]).name@,
    ) by {
        lemma_contained_behind(s.names, name, s.dense[i].name@);
    }
}

/// A packed weight under a new name.
proof fn lemma_packed_keeps_names(s: StagedState, name: Seq<char>)
    requires
        distinct_names(s),
        !contains_name(s.names, name),
    ensures
        distinct_names(
            (StagedState { names: s.names.push(name), packed: s.packed.push(name), ..s }),
        ),
{
    let t = StagedState { names: s.names.push(name), packed: s.packed.push(name), ..s };
    lemma_no_repeats_behind(s.names, name);
    assert(!contains_name(s.packed, name)) by {
        assert forall|i: int| 0 <= i < s.packed.len() implies #[trigger] s.packed[i] != name by {
            assert(contains_name(s.names, s.packed[i]));
        }
    }
    lemma_no_repeats_behind(s.packed, name);
    assert forall|i: int| 0 <= i < t.packed.len() implies contains_name(
        t.names,
        #[trigger] t.packed[i],
    ) && !contains_name(dense_names(t.dense), t.packed[i]) by {
        lemma_contained_behind(s.names, name, t.packed[i]);
        if i < s.packed.len() {
            assert(t.packed[i] == s.packed[i]);
        } else {
            assert forall|j: int| 0 <= j < dense_names(s.dense).len() implies #[trigger] dense_names(
                s.dense,
            )[j] != name by {
                assert(contains_name(s.names, s.dense[j].name@));
            }
        }
    }
    assert forall|i: int| 0 <= i < t.dense.len() implies contains_name(
        t.names,
        (#[trigger] t.dense[i]).name@,
    ) by {
        lemma_contained_behind(s.names, name, s.dense[i].name@);
    }
}

/// A dense tensor under a new name.
proof fn lemma_dense_keeps_names(
    s: StagedState,
    name: Seq<char>,
    shape: Seq<usize>,
    t: StagedState,
)
    requires
        distinct_names(s),
        !contains_name(s.names, name),
        placed_dense(s, name, shape, t),
    ensures
        distinct_names(t),
{
    lemma_no_repeats_behind(s.names, name);
    let less = dense_names(s.dense);
    assert(dense_names(t.dense) =~= less.push(name)) by {
        assert forall|i: int| 0 <= i < less.len() implies dense_names(t.dense)[i] == less[i] by {
            assert(t.dense.drop_last()[i] == t.dense[i]);
        }
    }
    assert(!contains_name(less, name)) by {
        assert forall|i: int| 0 <= i < less.len() implies #[trigger] less[i] != name by {
            assert(contains_name(s.names, s.dense[i].name@));
        }
    }
    lemma_no_repeats_behind(less, name);
    assert forall|i: int| 0 <= i < t.packed.len() implies contains_name(
        t.names,
        #[trigger] t.packed[i],
    ) && !contains_name(dense_names(t.dense), t.packed[i]) by {
        assert(contains_name(s.names, s.packed[i]));
        lemma_contained_behind(s.names, name, s.packed[i]);
        lemma_contained_behind(less, name, s.packed[i]);
    }
    assert forall|i: int| 0 <= i < t.dense.len() implies contains_name(
        t.names,
        (#[trigger] t.dense[i]).name@,
    ) by {
        lemma_contained_behind(s.names, name, t.dense[i].name@);
        if i < s.dense.len() {
            assert(t.dense.drop_last()[i] == t.dense[i]);
            assert(contains_name(s.names, s.dense[i].name@));
        }
    }
}

/// What is left of a list once a name is taken was there before, in its order.
proof fn lemma_left_over(names: Seq<Seq<char>>, name: Seq<char>)
    ensures
        forall|i: int|
            0 <= i < without_first(names, name).len() ==> contains_name(
                names,
                #[trigger] without_first(names, name)[i],
            ),
        no_repeats(names) ==> no_repeats(without_first(names, name)),
        no_repeats(names) ==> !contains_name(without_first(names, name), name),
    decreases names.len(),
{
    let left = without_first(names, name);
    if names.len() > 0 {
        let rest = names.skip(1);
        let less = without_first(rest, name);
        lemma_left_over(rest, name);
        assert forall|i: int| 0 <= i < left.len() implies contains_name(
            names,
            #[trigger] left[i],
        ) by {
            if names[0] == name {
                assert(names[i + 1] == left[i]);
            } else if i == 0 {
                assert(names[0] == left[0]);
            } else {
                assert(left[i] == less[i - 1]);
                let j = choose|j: int| 0 <= j < rest.len() && #[trigger] rest[j] == less[i - 1];
                assert(names[j + 1] == left[i]);
            }
        }
        if no_repeats(names) {
            assert forall|i: int, j: int| 0 <= i < j < rest.len() implies #[trigger] rest[i]
                != #[trigger] rest[j] by {
                assert(names[i + 1] != names[j + 1]);
            }
            if names[0] == name {
                assert forall|i: int| 0 <= i < left.len() implies #[trigger] left[i] != name by {
                    assert(names[0] != names[i + 1]);
                }
            } else {
                assert forall|i: int, j: int| 0 <= i < j < left.len() implies #[trigger] left[i]
                    != #[trigger] left[j] by {
                    assert(left[j] == less[j - 1]);
                    if i > 0 {
                        assert(left[i] == less[i - 1]);
                    } else {
                        let k = choose|k: int|
                            0 <= k < rest.len() && #[trigger] rest[k] == less[j - 1];
                        assert(names[0] != names[k + 1]);
                    }
                }
                assert forall|i: int| 0 <= i < left.len() implies #[trigger] left[i] != name by {
                    if i > 0 {
                        assert(left[i] == less[i - 1]);
                    }
                }
            }
        }
    }
}

/// Whether a text ends with another.
fn text_ends_with(text: &str, end: &str) -> (yes: bool)
    ensures
        yes == ends_with(text@, end@),
{
    let n: usize = text.unicode_len();
    let m: usize = end.unicode_len();
    if m > n {
        return false;
    }
    let tail: &str = text.substring_char(n - m, n);
    assert(tail@ =~= text@.skip(n - m));
    same_text(tail, end)
}

/// Where a name is in a list.
fn name_position(names: &Vec<String>, name: &str) -> (at: Option<usize>)
    ensures
        match at {
            Some(i) => i < names@.len() && names@[i as int]@ == name@ && !contains_name(
                texts(names@.take(i as int)),
                name@,
            ) && contains_name(texts(names@), name@),
            None => !contains_name(texts(names@), name@),
        },
{
    let wanted: String = name.to_owned();
    let mut i: usize = 0;
    while i < names.len()
        invariant
            i <= names@.len(),
            wanted@ == name@,
            forall|j: int| 0 <= j < i ==> (#[trigger] names@[j])@ != name@,
        decreases names@.len() - i,
    {
        if names[i] == wanted {
            proof {
                assert(texts(names@)[i as int] == name@);
                assert forall|j: int| 0 <= j < i implies #[trigger] texts(
                    names@.take(i as int),
                )[j] != name@ by {
                    assert(names@[j]@ != name@);
                }
            }
            return Some(i);
        }
        i = i + 1;
    }
    assert forall|j: int| 0 <= j < names@.len() implies #[trigger] texts(names@)[j] != name@ by {
        assert(names@[j]@ != name@);
    }
    None
}

/// The list without its first `name`.
pub open spec fn without_first(names: Seq<Seq<char>>, name: Seq<char>) -> Seq<Seq<char>>
    decreases names.len(),
{
    if names.len() == 0 {
        names
    } else if names[0] == name {
        names.skip(1)
    } else {
        seq![names[0]] + without_first(names.skip(1), name)
    }
}

/// Removing the first occurrence.
proof fn lemma_without_first(names: Seq<Seq<char>>, name: Seq<char>, i: int)
    requires
        0 <= i < names.len(),
        names[i] == name,
        !contains_name(names.take(i), name),
    ensures
        without_first(names, name) == names.remove(i),
    decreases i,
{
    if i == 0 {
        assert(names.remove(0) =~= names.skip(1));
    } else {
        assert(names.take(i)[0] == names[0]);
        assert(names[0] != name);
        let rest = names.skip(1);
        assert(!contains_name(rest.take(i - 1), name)) by {
            assert forall|j: int| 0 <= j < i - 1 implies #[trigger] rest.take(i - 1)[j] != name by {
                assert(names.take(i)[j + 1] == rest.take(i - 1)[j]);
            }
        }
        lemma_without_first(rest, name, i - 1);
        assert(seq![names[0]] + rest.remove(i - 1) =~= names.remove(i));
    }
}

/// What is said of a tensor with too many dimensions to be placed.
pub open spec fn rank_text(name: Seq<char>, rank: int) -> Seq<char> {
    name + ": staging a rank-"@ + decimal(rank) + " tensor is not supported"@
}

/// What is said of a tensor that is asked for with another number of
/// dimensions than it was placed with.
pub open spec fn asked_text(name: Seq<char>, shape: Seq<usize>, rank: int) -> Seq<char> {
    name + " was staged with shape ["@ + listed(shape) + "]; the loader asked for rank "@
        + decimal(rank)
}

/// A weight that the loader gets.
#[derive(Debug)]
pub enum Supplied {
    /// The packed weight of this name.
    Packed,
    /// The dense tensor of this shape.
    Dense(Vec<usize>),
}

impl StagedWeights {
    /// Nothing placed yet of the checkpoint with this configuration.
    pub fn new(metadata: ModelMetadata) -> (weights: Self)
        ensures
            distinct_names(weights@),
            weights@ == (StagedState {
                names: Seq::empty(),
                packed: Seq::empty(),
                dense: Seq::empty(),
                embed: None,
                metadata,
            }),
    {
        let weights = StagedWeights {
            names: Vec::new(),
            packed: Vec::new(),
            dense: Vec::new(),
            embed: None,
            metadata,
        };
        assert(weights@ =~= (StagedState {
            names: Seq::empty(),
            packed: Seq::empty(),
            dense: Seq::empty(),
            embed: None,
            metadata,
        }));
        weights
    }

    /// What to place a tensor as.
    pub fn stage(&self, name: &str) -> (step: StageStep)
        ensures
            step == (if contains_name(self@.names, name@) {
                StageStep::Skip
            } else if names_embedding(name@) {
                StageStep::Embedding
            } else {
                StageStep::Weight
            }),
            step is Skip <==> contains_name(self@.names, name@),
            step is Embedding <==> !contains_name(self@.names, name@) && (ends_with(
                name@,
                "embed_tokens.weight"@,
            ) || ends_with(name@, "embed_tokens"@)),
    {
        if name_position(&self.names, name).is_some() {
            return StageStep::Skip;
        }
        if text_ends_with(name, "embed_tokens.weight") || text_ends_with(name, "embed_tokens") {
            StageStep::Embedding
        } else {
            StageStep::Weight
        }
    }

    /// The embedding table has been placed.
    pub fn placed_embedding(&mut self, name: &str, is_packed: bool)
        requires
            !contains_name(old(self)@.names, name@),
        ensures
            distinct_names(old(self)@) ==> distinct_names(final(self)@),
            final(self)@ == (StagedState {
                names: old(self)@.names.push(name@),
                embed: Some(is_packed),
                ..old(self)@
            }),
    {
        let ghost before = self@;
        self.embed = Some(is_packed);
        self.names.push(name.to_owned());
        assert(self@ =~= (StagedState {
            names: before.names.push(name@),
            embed: Some(is_packed),
            ..before
        }));
        proof {
            if distinct_names(before) {
                lemma_embedding_keeps_names(before, name@, is_packed);
            }
        }
    }

    /// A packed weight has been placed.
    pub fn placed_packed(&mut self, name: &str)
        requires
            !contains_name(old(self)@.names, name@),
        ensures
            distinct_names(old(self)@) ==> distinct_names(final(self)@),
            final(self)@ == (StagedState {
                names: old(self)@.names.push(name@),
                packed: old(self)@.packed.push(name@),
                ..old(self)@
            }),
    {
        let ghost before = self@;
        self.packed.push(name.to_owned());
        self.names.push(name.to_owned());
        assert(self@ =~= (StagedState {
            names: before.names.push(name@),
            packed: before.packed.push(name@),
            ..before
        }));
        proof {
            if distinct_names(before) {
                lemma_packed_keeps_names(before, name@);
            }
        }
    }

    /// A dense tensor is to be placed: vectors and matrices can be, anything
    /// else is refused and changes nothing.
    pub fn place_dense(&mut self, name: &str, shape: &Vec<usize>) -> (r: Result<()>)
        requires
            !contains_name(old(self)@.names, name@),
        ensures
            distinct_names(old(self)@) ==> distinct_names(final(self)@),
            r is Ok <==> shape@.len() == 1 || shape@.len() == 2,
            match r {
                Ok(()) => placed_dense(old(self)@, name@, shape@, final(self)@),
                Err(e) => final(self)@ == old(self)@ && is_unsupported(
                    e,
                    rank_text(name@, shape@.len() as int),
                ),
            },
    {
        if shape.len() != 1 && shape.len() != 2 {
            let mut text: String = join2(name, ": staging a rank-");
            text.append(decimal_text(shape.len()).as_str());
            text.append(" tensor is not supported");
            return Err(ModelError::Unsupported(text));
        }
        let ghost before = self@;
        self.dense.push(TensorEntry { name: name.to_owned(), shape: copied(shape) });
        self.names.push(name.to_owned());
        proof {
            assert(self@.names =~= before.names.push(name@));
            assert(self@.dense.drop_last() =~= before.dense);
            if distinct_names(before) {
                lemma_dense_keeps_names(before, name@, shape@, self@);
            }
        }
        Ok(())
    }

    /// Places the tensor `name` for which the source gave `opened`. A name that has
    /// been placed is left alone.
    pub fn stage_inner(&mut self, name: &str, opened: Opened) -> (r: Result<()>)
        ensures
            distinct_names(old(self)@) ==> distinct_names(final(self)@),
            staged(old(self)@, name@, opened, final(self)@, r),
    {
        match self.stage(name) {
            StageStep::Skip => Ok(()),
            StageStep::Embedding => match opened {
                Opened::Packed => {
                    self.placed_embedding(name, true);
                    Ok(())
                },
                Opened::Dense(shape) => {
                    if shape.len() != 2 {
                        return Err(
                            ModelError::Format(join2("unexpected rank of tensor ", name)),
                        );
                    }
                    self.placed_embedding(name, false);
                    Ok(())
                },
                Opened::Absent => Err(ModelError::MissingTensor(name.to_owned())),
                Opened::Unreadable(what) => Err(ModelError::Format(what)),
            },
            StageStep::Weight => match opened {
                Opened::Packed => {
                    self.placed_packed(name);
                    Ok(())
                },
                Opened::Dense(shape) => self.place_dense(name, &shape),
                Opened::Absent => Err(ModelError::MissingTensor(name.to_owned())),
                Opened::Unreadable(what) => Err(ModelError::Format(what)),
            },
        }
    }

    /// Names placed so far, in the order of arrival.
    pub fn names(&self) -> (names: &Vec<String>)
        ensures
            texts(names@) == self@.names,
            names@.len() == self@.names.len(),
            forall|i: int| 0 <= i < names@.len() ==> (#[trigger] names@[i])@ == self@.names[i],
    {
        &self.names
    }

    /// The configuration of the checkpoint.
    pub fn metadata(&self) -> (metadata: &ModelMetadata)
        ensures
            *metadata == self@.metadata,
    {
        &self.metadata
    }

    /// The whole checkpoint has been met: the output head is the embedding table
    /// exactly if no head of its own has been placed.
    pub fn seal(&mut self)
        ensures
            distinct_names(old(self)@) ==> distinct_names(final(self)@),
            final(self)@ == (StagedState {
                metadata: ModelMetadata {
                    tie_word_embeddings: !contains_name(old(self)@.names, "lm_head.weight"@),
                    ..old(self)@.metadata
                },
                ..old(self)@
            }),
    {
        let ghost before = self@;
        self.metadata.tie_word_embeddings =
            name_position(&self.names, "lm_head.weight").is_none();
        assert(self@ =~= (StagedState {
            metadata: ModelMetadata {
                tie_word_embeddings: !contains_name(before.names, "lm_head.weight"@),
                ..before.metadata
            },
            ..before
        }));
    }

    /// The shape of a dense tensor that was placed.
    fn find_dense(&self, name: &str) -> (shape: Option<&Vec<usize>>)
        ensures
            match shape {
                Some(shape) => lookup(self@.dense, name@) == Some(shape@),
                None => lookup(self@.dense, name@) is None,
            },
    {
        let wanted: String = name.to_owned();
        let mut i: usize = 0;
        assert(self.dense@.skip(0) =~= self.dense@);
        while i < self.dense.len()
            invariant
                i <= self.dense@.len(),
                wanted@ == name@,
                lookup(self.dense@, name@) == lookup(self.dense@.skip(i as int), name@),
            decreases self.dense@.len() - i,
        {
            assert(self.dense@.skip(i as int).skip(1) =~= self.dense@.skip(i + 1));
            if self.dense[i].name == wanted {
                return Some(&self.dense[i].shape);
            }
            i = i + 1;
        }
        None
    }

    /// A dense tensor of `rank` dimensions.
    pub fn weight(&self, name: &str, rank: usize) -> (r: Result<Vec<usize>>)
        ensures
            match lookup(self@.dense, name@) {
                None => r matches Err(e) && is_missing(e, name@),
                Some(shape) => if shape.len() == rank {
                    r matches Ok(got) && got@ == shape
                } else {
                    r matches Err(e) && is_unsupported(
                        e,
                        asked_text(name@, shape, rank as int),
                    )
                },
            },
    {
        match self.find_dense(name) {
            None => Err(ModelError::MissingTensor(name.to_owned())),
            Some(shape) => {
                if shape.len() == rank {
                    Ok(copied(shape))
                } else {
                    let mut text: String = join2(name, " was staged with shape [");
                    text.append(list_text(shape).as_str());
                    text.append("]; the loader asked for rank ");
                    text.append(decimal_text(rank).as_str());
                    Err(ModelError::Unsupported(text))
                }
            },
        }
    }

    /// A projection: the packed weight if there is one, which is then taken, and
    /// else the dense matrix.
    pub fn linear(&mut self, name: &str) -> (r: Result<Supplied>)
        ensures
            distinct_names(old(self)@) ==> distinct_names(final(self)@),
            distinct_names(old(self)@) ==> !contains_name(final(self)@.packed, name@),
            if contains_name(old(self)@.packed, name@) {
                &&& r matches Ok(Supplied::Packed)
                &&& final(self)@ == (StagedState {
                    packed: without_first(old(self)@.packed, name@),
                    ..old(self)@
                })
            } else {
                &&& final(self)@ == old(self)@
                &&& match lookup(old(self)@.dense, name@) {
                    None => r matches Err(e) && is_missing(e, name@),
                    Some(shape) => if shape.len() == 2 {
                        r matches Ok(Supplied::Dense(got)) && got@ == shape
                    } else {
                        r matches Err(e) && is_unsupported(e, asked_text(name@, shape, 2))
                    },
                }
            },
    {
        let ghost before = self@;
        match name_position(&self.packed, name) {
            Some(i) => {
                let ghost list = self.packed@;
                self.packed.remove(i);
                proof {
                    assert(texts(list).take(i as int) =~= texts(list.take(i as int)));
                    lemma_without_first(texts(list), name@, i as int);
                    assert(self.packed@ =~= list.remove(i as int));
                    assert(texts(self.packed@) =~= texts(list).remove(i as int));
                    assert(self@ =~= (StagedState {
                        packed: without_first(before.packed, name@),
                        ..before
                    }));
                    if distinct_names(before) {
                        law_packed_is_taken_once(before, name@);
                    }
                }
                Ok(Supplied::Packed)
            },
            None => match self.weight(name, 2) {
                Ok(shape) => Ok(Supplied::Dense(shape)),
                Err(e) => Err(e),
            },
        }
    }

    /// A vector that the model may or may not have.
    pub fn optional(&self, name: &str) -> (r: Result<Option<Vec<usize>>>)
        ensures
            match lookup(self@.dense, name@) {
                None => r matches Ok(None),
                Some(shape) => if shape.len() == 1 {
                    r matches Ok(Some(got)) && got@ == shape
                } else {
                    r matches Err(e) && is_unsupported(e, asked_text(name@, shape, 1))
                },
            },
    {
        match self.weight(name, 1) {
            Ok(shape) => Ok(Some(shape)),
            Err(ModelError::MissingTensor(_)) => Ok(None),
            Err(e) => Err(e),
        }
    }

    /// The embedding table, which is then taken: whether it is packed.
    pub fn embedding(&mut self, name: &str) -> (r: Result<bool>)
        ensures
            distinct_names(old(self)@) ==> distinct_names(final(self)@),
            final(self)@ == (StagedState { embed: None, ..old(self)@ }),
            match old(self)@.embed {
                Some(is_packed) => r matches Ok(p) && p == is_packed,
                None => r matches Err(e) && is_missing(e, name@),
            },
    {
        let ghost before = self@;
        let placed: Option<bool> = self.embed;
        self.embed = None;
        assert(self@ =~= (StagedState { embed: None, ..before }));
        match placed {
            Some(is_packed) => Ok(is_packed),
            None => Err(ModelError::MissingTensor(name.to_owned())),
        }
    }
}

/// One tensor keeps the names apart, and adds its name behind the others or
/// nothing.
pub proof fn law_staging_keeps_names(
    s: StagedState,
    name: Seq<char>,
    opened: Opened,
    t: StagedState,
    r: Result<()>,
)
    requires
        distinct_names(s),
        staged(s, name, opened, t, r),
    ensures
        distinct_names(t),
        r is Err ==> t == s,
        r is Ok ==> contains_name(t.names, name),
        t.names == (if r is Ok && !contains_name(s.names, name) {
            s.names.push(name)
        } else {
            s.names
        }),
{
    lemma_contained_behind(s.names, name, name);
    if !contains_name(s.names, name) && r is Ok {
        match opened {
            Opened::Packed => if names_embedding(name) {
                lemma_embedding_keeps_names(s, name, true);
            } else {
                lemma_packed_keeps_names(s, name);
            },
            Opened::Dense(shape) => if names_embedding(name) {
                lemma_embedding_keeps_names(s, name, false);
            } else {
                lemma_dense_keeps_names(s, name, shape@, t);
            },
            _ => {},
        }
    }
}

/// Staging a name twice is staging it once, whatever the source gives the second
/// time.
pub proof fn law_placed_once(
    s: StagedState,
    name: Seq<char>,
    first: Opened,
    t: StagedState,
    second: Opened,
    u: StagedState,
    r: Result<()>,
    again: Result<()>,
)
    requires
        staged(s, name, first, t, r),
        r is Ok,
        staged(t, name, second, u, again),
    ensures
        again is Ok,
        u == t,
{
    lemma_contained_behind(s.names, name, name);
}

/// However many tensors are staged, in whatever order, with whatever the source
/// gives and whichever fail, no name is ever held twice.
pub proof fn law_names_never_repeat(
    states: Seq<StagedState>,
    names: Seq<Seq<char>>,
    opened: Seq<Opened>,
    results: Seq<Result<()>>,
    at: int,
)
    requires
        states.len() == names.len() + 1,
        opened.len() == names.len(),
        results.len() == names.len(),
        distinct_names(states[0]),
        forall|i: int|
            0 <= i < names.len() ==> staged(
                states[i],
                #[trigger] names[i],
                opened[i],
                states[i + 1],
                results[i],
            ),
        0 <= at < states.len(),
    ensures
        distinct_names(states[at]),
        no_repeats(states[at].names),
    decreases at,
{
    if at > 0 {
        law_names_never_repeat(states, names, opened, results, at - 1);
        assert(staged(
            states[at - 1],
            names[at - 1],
            opened[at - 1],
            states[at],
            results[at - 1],
        ));
        law_staging_keeps_names(
            states[at - 1],
            names[at - 1],
            opened[at - 1],
            states[at],
            results[at - 1],
        );
    }
}

/// Taking a packed weight leaves none of its name to take, and keeps the names
/// apart.
pub proof fn law_packed_is_taken_once(s: StagedState, name: Seq<char>)
    requires
        distinct_names(s),
    ensures
        !contains_name(without_first(s.packed, name), name),
        distinct_names((StagedState { packed: without_first(s.packed, name), ..s })),
{
    let t = StagedState { packed: without_first(s.packed, name), ..s };
    lemma_left_over(s.packed, name);
    assert forall|i: int| 0 <= i < t.packed.len() implies contains_name(
        t.names,
        #[trigger] t.packed[i],
    ) && !contains_name(dense_names(t.dense), t.packed[i]) by {
        let j = choose|j: int| 0 <= j < s.packed.len() && #[trigger] s.packed[j] == t.packed[i];
        assert(contains_name(s.names, s.packed[j]));
    }
}

/// A text ends with another exactly if it is something in front of it.
pub proof fn law_ends_with(s: Seq<char>, front: Seq<char>, end: Seq<char>)
    ensures
        ends_with(front + end, end),
        ends_with(s, end) ==> s == s.take(s.len() - end.len()) + end,
        s.len() < end.len() ==> !ends_with(s, end),
{
    assert((front + end).skip(front.len() as int) =~= end);
    if ends_with(s, end) {
        assert(s =~= s.take(s.len() - end.len()) + s.skip(s.len() - end.len()));
    }
}

/// Taking a packed weight takes one, and no other name.
pub proof fn law_taking_is_local(names: Seq<Seq<char>>, name: Seq<char>, other: Seq<char>)
    ensures
        contains_name(names, name) ==> without_first(names, name).len() == names.len() - 1,
        !contains_name(names, name) ==> without_first(names, name) == names,
        other != name ==> contains_name(without_first(names, name), other) == contains_name(
            names,
            other,
        ),
    decreases names.len(),
{
    let left = without_first(names, name);
    if names.len() > 0 {
        let rest = names.skip(1);
        let less = without_first(rest, name);
        law_taking_is_local(rest, name, other);
        assert(contains_name(names, other) == (names[0] == other || contains_name(rest, other)))
            by {
            lemma_contained_in_front(names, other);
        }
        lemma_contained_in_front(names, name);
        if names[0] != name {
            assert(left.skip(1) =~= less);
            lemma_contained_in_front(left, other);
            if !contains_name(names, name) {
                assert(left =~= names);
            }
        }
    }
}

/// What is contained is the first name or stands behind it.
proof fn lemma_contained_in_front(names: Seq<Seq<char>>, other: Seq<char>)
    requires
        names.len() > 0,
    ensures
        contains_name(names, other) == (names[0] == other || contains_name(names.skip(1), other)),
{
    let rest = names.skip(1);
    if contains_name(names, other) {
        let i = choose|i: int| 0 <= i < names.len() && #[trigger] names[i] == other;
        if i > 0 {
            assert(rest[i - 1] == other);
        }
    }
    if contains_name(rest, other) {
        let i = choose|i: int| 0 <= i < rest.len() && #[trigger] rest[i] == other;
        assert(names[i + 1] == other);
    }
}

/// A tensor behind others is found where none of them has its name.
proof fn lemma_lookup_behind(entries: Seq<TensorEntry>, entry: TensorEntry, name: Seq<char>)
    ensures
        lookup(entries.push(entry), name) == (if lookup(entries, name) is Some {
            lookup(entries, name)
        } else if entry.name@ == name {
            Some(entry.shape@)
        } else {
            None
        }),
    decreases entries.len(),
{
    let all = entries.push(entry);
    if entries.len() == 0 {
        assert(all.skip(1) =~= Seq::empty());
        assert(lookup(all.skip(1), name) is None);
    } else {
        lemma_lookup_behind(entries.skip(1), entry, name);
        assert(all.skip(1) =~= entries.skip(1).push(entry));
    }
}

/// A name that is not among those of some tensors is not found.
proof fn lemma_lookup_none(entries: Seq<TensorEntry>, name: Seq<char>)
    requires
        !contains_name(dense_names(entries), name),
    ensures
        lookup(entries, name) is None,
{
    crate::catalog::law_lookup_finds_the_first(entries, name);
    if lookup(entries, name) is Some {
        let i = choose|i: int|
            0 <= i < entries.len() && (#[trigger] entries[i]).name@ == name && entries[i].shape@
                == lookup(entries, name)->0 && forall|j: int|
                0 <= j < i ==> (#[trigger] entries[j]).name@ != name;
        assert(dense_names(entries)[i] == name);
    }
}

/// What is placed is what the loader finds: a packed weight among the packed ones,
/// a dense tensor with its shape, the embedding table in its place. No other
/// tensor is touched.
pub proof fn law_placed_tensors_are_found(
    s: StagedState,
    name: Seq<char>,
    opened: Opened,
    t: StagedState,
    r: Result<()>,
    other: Seq<char>,
)
    requires
        distinct_names(s),
        staged(s, name, opened, t, r),
        !contains_name(s.names, name),
        other != name,
    ensures
        ({
            let table = ends_with(name, "embed_tokens.weight"@) || ends_with(
                name,
                "embed_tokens"@,
            );
            &&& r is Ok <==> match opened {
                Opened::Packed => true,
                Opened::Dense(shape) => shape@.len() == 2 || (!table && shape@.len() == 1),
                _ => false,
            }
            &&& r is Ok && table ==> t.embed == Some(opened is Packed)
            &&& !table || r is Err ==> t.embed == s.embed
            &&& r is Ok && !table && opened is Packed ==> contains_name(t.packed, name)
            &&& r is Ok && !table ==> (opened matches Opened::Dense(shape) ==> lookup(t.dense, name)
                == Some(shape@) && !contains_name(t.packed, name))
        }),
        contains_name(t.packed, other) == contains_name(s.packed, other),
        contains_name(t.names, other) == contains_name(s.names, other),
        lookup(t.dense, other) == lookup(s.dense, other),
        t.metadata == s.metadata,
{
    lemma_contained_behind(s.names, name, other);
    lemma_contained_behind(s.packed, name, other);
    lemma_contained_behind(s.packed, name, name);
    assert(!contains_name(s.packed, name)) by {
        assert forall|i: int| 0 <= i < s.packed.len() implies #[trigger] s.packed[i] != name by {
            assert(contains_name(s.names, s.packed[i]));
        }
    }
    assert(!contains_name(dense_names(s.dense), name)) by {
        let names = dense_names(s.dense);
        assert forall|i: int| 0 <= i < names.len() implies #[trigger] names[i] != name by {
            assert(contains_name(s.names, s.dense[i].name@));
        }
    }
    lemma_lookup_none(s.dense, name);
    if t.dense.len() > s.dense.len() {
        let last = t.dense.last();
        assert(t.dense =~= s.dense.push(last));
        lemma_lookup_behind(s.dense, last, name);
        lemma_lookup_behind(s.dense, last, other);
    }
}

/// What is said of tensors that cannot be placed or are asked for otherwise than
/// they were placed.
pub proof fn law_staging_complaints(name: Seq<char>, shape: Seq<usize>, rank: int)
    ensures
        rank_text(name, rank) == name + ": staging a rank-"@ + decimal(rank)
            + " tensor is not supported"@,
        asked_text(name, shape, rank) == name + " was staged with shape ["@ + listed(shape)
            + "]; the loader asked for rank "@ + decimal(rank),
{
}

} // verus!
