//! Which loader an architecture has.

use vstd::prelude::*;
use vstd::string::*;

use crate::error::{is_unsupported_architecture, ModelError, Result};
use crate::numerals::characters;

verus! {

/// A loader of models.
#[derive(Debug, Clone, Copy, PartialEq, Eq, Structural)]
pub enum Loader {
    /// The universal decoder.
    Llama,
    /// A vision tower in front of the universal decoder.
    SmolVlm,
    /// One that was registered from outside, by its number.
    Custom(usize),
}

/// `a` comes before `b` in the order of texts: at the first difference it has
/// the smaller character, or it ends there.
pub open spec fn precedes(a: Seq<char>, b: Seq<char>) -> bool
    decreases b.len(),
{
    if b.len() == 0 {
        false
    } else if a.len() == 0 {
        true
    } else if a[0] != b[0] {
        a[0] < b[0]
    } else {
        precedes(a.skip(1), b.skip(1))
    }
}

/// The order is transitive.
proof fn lemma_precedes_transitive(a: Seq<char>, b: Seq<char>, c: Seq<char>)
    requires
        precedes(a, b),
        precedes(b, c),
    ensures
        precedes(a, c),
    decreases b.len(),
{
    if a.len() > 0 && b.len() > 0 && c.len() > 0 && a[0] == b[0] && b[0] == c[0] {
        lemma_precedes_transitive(a.skip(1), b.skip(1), c.skip(1));
    }
}

/// Of two different texts one comes first.
proof fn lemma_precedes_total(a: Seq<char>, b: Seq<char>)
    requires
        a != b,
    ensures
        precedes(a, b) || precedes(b, a),
    decreases a.len(),
{
    if a.len() > 0 && b.len() > 0 && a[0] == b[0] {
        if a.skip(1) == b.skip(1) {
            assert(a =~= seq![a[0]] + a.skip(1));
            assert(b =~= seq![b[0]] + b.skip(1));
        }
        lemma_precedes_total(a.skip(1), b.skip(1));
    } else if a.len() == 0 && b.len() == 0 {
        assert(a =~= b);
    }
}

/// Whether `a` comes before `b`.
fn text_before(a: &str, b: &str) -> (before: bool)
    ensures
        before == precedes(a@, b@),
{
    let left: Vec<char> = characters(a);
    let right: Vec<char> = characters(b);
    let mut i: usize = 0;
    assert(left@.skip(0) =~= a@);
    assert(right@.skip(0) =~= b@);
    while i < left.len() && i < right.len()
        invariant
            i <= left@.len(),
            i <= right@.len(),
            precedes(a@, b@) == precedes(left@.skip(i as int), right@.skip(i as int)),
        decreases left@.len() - i,
    {
        assert(left@.skip(i as int).skip(1) =~= left@.skip(i + 1));
        assert(right@.skip(i as int).skip(1) =~= right@.skip(i + 1));
        if left[i] != right[i] {
            return left[i] < right[i];
        }
        i = i + 1;
    }
    i < right.len()
}

/// An entry of the registry.
pub type Registered = (Seq<char>, Loader);

/// The loader of `architecture`, if it is registered.
pub open spec fn loader_of(entries: Seq<Registered>, architecture: Seq<char>) -> Option<Loader>
    decreases entries.len(),
{
    if entries.len() == 0 {
        None
    } else if entries.last().0 == architecture {
        Some(entries.last().1)
    } else {
        loader_of(entries.drop_last(), architecture)
    }
}

/// No architecture is registered twice.
pub open spec fn unique(entries: Seq<Registered>) -> bool {
    forall|i: int, j: int|
        0 <= i < j < entries.len() ==> (#[trigger] entries[i]).0 != (#[trigger] entries[j]).0
}

/// The loader of a listed architecture is the one listed with it.
proof fn lemma_loader_of(entries: Seq<Registered>, i: int)
    requires
        unique(entries),
        0 <= i < entries.len(),
    ensures
        loader_of(entries, entries[i].0) == Some(entries[i].1),
    decreases entries.len(),
{
    if i < entries.len() - 1 {
        assert(entries[i].0 != entries[entries.len() - 1].0);
        let less = entries.drop_last();
        assert(unique(less)) by {
            assert forall|a: int, b: int| 0 <= a < b < less.len() implies (#[trigger] less[a]).0
                != (#[trigger] less[b]).0 by {
                assert(entries[a].0 != entries[b].0);
            }
        }
        lemma_loader_of(less, i);
    }
}

/// An architecture that is not listed has no loader.
proof fn lemma_no_loader(entries: Seq<Registered>, architecture: Seq<char>)
    requires
        forall|i: int| 0 <= i < entries.len() ==> (#[trigger] entries[i]).0 != architecture,
    ensures
        loader_of(entries, architecture) is None,
    decreases entries.len(),
{
    if entries.len() > 0 {
        lemma_no_loader(entries.drop_last(), architecture);
    }
}

/// The architectures and their loaders.
pub struct ModelRegistry {
    loaders: Vec<(String, Loader)>,
}

impl View for ModelRegistry {
    type V = Seq<Registered>;

    closed spec fn view(&self) -> Seq<Registered> {
        Seq::new(self.loaders@.len(), |i: int| (self.loaders@[i].0@, self.loaders@[i].1))
    }
}

/// What is registered once `architecture` has `loader`.
pub open spec fn registers(
    before: Seq<Registered>,
    after: Seq<Registered>,
    architecture: Seq<char>,
    loader: Loader,
) -> bool {
    forall|name: Seq<char>|
        #![trigger loader_of(after, name)]
        loader_of(after, name) == (if name == architecture {
            Some(loader)
        } else {
            loader_of(before, name)
        })
}

/// The loader that a fresh registry has for an architecture.
pub open spec fn builtin(architecture: Seq<char>) -> Option<Loader> {
    if architecture == "idefics3"@ {
        Some(Loader::SmolVlm)
    } else if architecture == "llama"@ || architecture == "smollm2"@ || architecture == "qwen2"@
        || architecture == "qwen3"@ || architecture == "mistral"@ || architecture == "phi3"@
        || architecture == "gemma3_text"@ || architecture == "gemma3"@ {
        Some(Loader::Llama)
    } else {
        None
    }
}

impl ModelRegistry {
    /// A registry with the built-in architectures.
    pub fn new() -> (registry: Self)
        ensures
            unique(registry@),
            forall|name: Seq<char>|
                #![trigger loader_of(registry@, name)]
                loader_of(registry@, name) == builtin(name),
            loader_of(registry@, "llama"@) == Some(Loader::Llama),
            loader_of(registry@, "smollm2"@) == Some(Loader::Llama),
            loader_of(registry@, "qwen2"@) == Some(Loader::Llama),
            loader_of(registry@, "qwen3"@) == Some(Loader::Llama),
            loader_of(registry@, "mistral"@) == Some(Loader::Llama),
            loader_of(registry@, "phi3"@) == Some(Loader::Llama),
            loader_of(registry@, "gemma3_text"@) == Some(Loader::Llama),
            loader_of(registry@, "gemma3"@) == Some(Loader::Llama),
            loader_of(registry@, "idefics3"@) == Some(Loader::SmolVlm),
            forall|i: int|
                0 <= i < registry@.len() ==> {
                    let name = (#[trigger] registry@[i]).0;
                    ||| name == "llama"@
                    ||| name == "smollm2"@
                    ||| name == "qwen2"@
                    ||| name == "qwen3"@
                    ||| name == "mistral"@
                    ||| name == "phi3"@
                    ||| name == "gemma3_text"@
                    ||| name == "gemma3"@
                    ||| name == "idefics3"@
                },
    {
        let mut registry = ModelRegistry { loaders: Vec::new() };
        assert(registry@ =~= Seq::empty());
        registry.register("llama", Loader::Llama);
        registry.register("smollm2", Loader::Llama);
        registry.register("qwen2", Loader::Llama);
        registry.register("qwen3", Loader::Llama);
        registry.register("mistral", Loader::Llama);
        registry.register("phi3", Loader::Llama);
        registry.register("gemma3_text", Loader::Llama);
        registry.register("gemma3", Loader::Llama);
        registry.register("idefics3", Loader::SmolVlm);
        proof {
            lemma_architectures_differ();
            assert forall|i: int| 0 <= i < registry@.len() implies builtin(
                (#[trigger] registry@[i]).0,
            ) is Some by {
                lemma_loader_of(registry@, i);
            }
        }
        registry
    }

    /// Where an architecture is listed.
    fn position(&self, architecture: &str) -> (at: Option<usize>)
        requires
            unique(self@),
        ensures
            match at {
                Some(i) => i < self@.len() && self@[i as int].0 == architecture@ && loader_of(
                    self@,
                    architecture@,
                ) == Some(self@[i as int].1),
                None => loader_of(self@, architecture@) is None && forall|i: int|
                    0 <= i < self@.len() ==> (#[trigger] self@[i]).0 != architecture@,
            },
    {
        let wanted: String = architecture.to_owned();
        let mut i: usize = 0;
        while i < self.loaders.len()
            invariant
                unique(self@),
                wanted@ == architecture@,
                i <= self.loaders@.len(),
                self@.len() == self.loaders@.len(),
                forall|j: int| 0 <= j < i ==> (#[trigger] self@[j]).0 != architecture@,
            decreases self.loaders@.len() - i,
        {
            assert(self@[i as int].0 == self.loaders@[i as int].0@);
            if self.loaders[i].0 == wanted {
                proof {
                    lemma_loader_of(self@, i as int);
                }
                return Some(i);
            }
            i = i + 1;
        }
        proof {
            lemma_no_loader(self@, architecture@);
        }
        None
    }

    /// Registers the loader of an architecture, or replaces it.
    pub fn register(&mut self, architecture: &str, loader: Loader)
        requires
            unique(old(self)@),
        ensures
            unique(final(self)@),
            registers(old(self)@, final(self)@, architecture@, loader),
    {
        let ghost before = self@;
        match self.position(architecture) {
            Some(i) => {
                self.loaders.set(i, (architecture.to_owned(), loader));
                proof {
                    let after = self@;
                    assert forall|k: int| 0 <= k < after.len() implies #[trigger] after[k]
                        == (if k == i {
                        (architecture@, loader)
                    } else {
                        before[k]
                    }) by {}
                    assert(unique(after)) by {
                        assert forall|a: int, b: int| 0 <= a < b < after.len() implies (
                        #[trigger] after[a]).0 != (#[trigger] after[b]).0 by {
                            assert(before[a].0 != before[b].0);
                        }
                    }
                    assert(after[i as int] == (architecture@, loader));
                    lemma_registers(before, after, architecture@, loader);
                }
            },
            None => {
                self.loaders.push((architecture.to_owned(), loader));
                proof {
                    let after = self@;
                    assert(after =~= before.push((architecture@, loader)));
                    assert(unique(after)) by {
                        assert forall|a: int, b: int| 0 <= a < b < after.len() implies (
                        #[trigger] after[a]).0 != (#[trigger] after[b]).0 by {
                            assert(before[a].0 != architecture@);
                            if b < before.len() {
                                assert(before[a].0 != before[b].0);
                            }
                        }
                    }
                    assert(after[before.len() as int] == (architecture@, loader));
                    lemma_registers(before, after, architecture@, loader);
                }
            },
        }
    }

    /// Whether an architecture has a loader.
    pub fn supports(&self, architecture: &str) -> (yes: bool)
        requires
            unique(self@),
        ensures
            yes == loader_of(self@, architecture@) is Some,
    {
        self.position(architecture).is_some()
    }

    /// The loader of an architecture.
    pub fn load(&self, architecture: &str) -> (r: Result<Loader>)
        requires
            unique(self@),
        ensures
            match loader_of(self@, architecture@) {
                Some(loader) => r matches Ok(l) && l == loader,
                None => r matches Err(e) && is_unsupported_architecture(e, architecture@),
            },
    {
        match self.position(architecture) {
            Some(i) => Ok(self.loaders[i].1),
            None => Err(ModelError::UnsupportedArchitecture(architecture.to_owned())),
        }
    }

    /// The registered architectures, in order.
    pub fn architectures(&self) -> (names: Vec<String>)
        requires
            unique(self@),
        ensures
            forall|i: int, j: int|
                0 <= i < j < names@.len() ==> precedes(
                    (#[trigger] names@[i])@,
                    (#[trigger] names@[j])@,
                ),
            forall|name: Seq<char>|
                #![trigger loader_of(self@, name)]
                loader_of(self@, name) is Some <==> among(names@, name),
    {
        let mut names: Vec<String> = Vec::new();
        let mut i: usize = 0;
        while i < self.loaders.len()
            invariant
                unique(self@),
                self@.len() == self.loaders@.len(),
                i <= self@.len(),
                names@.len() == i,
                sorted(names@),
                forall|name: Seq<char>|
                    #![trigger among(names@, name)]
                    among(names@, name) <==> listed_before(self@, i as int, name),
            decreases self.loaders@.len() - i,
        {
            let next: String = self.loaders[i].0.clone();
            let ghost before = names@;
            proof {
                assert(self@[i as int].0 == next@);
                assert(!listed_before(self@, i as int, next@)) by {
                    assert forall|k: int| 0 <= k < i implies (#[trigger] self@[k]).0 != next@ by {
                        assert(self@[k].0 != self@[i as int].0);
                    }
                }
                assert(!among(before, next@));
            }
            let mut p: usize = names.len();
            while p > 0 && text_before(next.as_str(), names[p - 1].as_str())
                invariant
                    p <= names@.len(),
                    names@ == before,
                    sorted(before),
                    forall|k: int|
                        p <= k < before.len() ==> precedes(next@, (#[trigger] before[k])@),
                decreases p,
            {
                p = p - 1;
            }
            names.insert(p, next);
            proof {
                lemma_inserted(before, next, p as int);
                assert(names@ =~= before.insert(p as int, next));
                assert forall|name: Seq<char>|
                    #![trigger among(names@, name)]
                    among(names@, name) <==> listed_before(self@, i + 1, name) by {
                    assert(among(names@, name) <==> name == next@ || among(before, name));
                    assert(listed_before(self@, i + 1, name) <==> name == next@ || listed_before(
                        self@,
                        i as int,
                        name,
                    )) by {
                        if listed_before(self@, i as int, name) {
                            let k = choose|k: int|
                                0 <= k < i && (#[trigger] self@[k]).0 == name;
                            assert(self@[k].0 == name);
                        }
                    }
                }
            }
            i = i + 1;
        }
        proof {
            assert forall|name: Seq<char>|
                #![trigger loader_of(self@, name)]
                loader_of(self@, name) is Some <==> among(names@, name) by {
                if listed_before(self@, i as int, name) {
                    let k = choose|k: int| 0 <= k < i && (#[trigger] self@[k]).0 == name;
                    lemma_loader_of(self@, k);
                } else {
                    assert forall|k: int| 0 <= k < self@.len() implies (#[trigger] self@[k]).0
                        != name by {}
                    lemma_no_loader(self@, name);
                }
            }
        }
        names
    }
}

/// `name` is one of `names`.
pub open spec fn among(names: Seq<String>, name: Seq<char>) -> bool {
    exists|i: int| 0 <= i < names.len() && (#[trigger] names[i])@ == name
}

/// `name` is listed in one of the first `count` entries.
spec fn listed_before(entries: Seq<Registered>, count: int, name: Seq<char>) -> bool {
    exists|k: int| 0 <= k < count && (#[trigger] entries[k]).0 == name
}

/// The names are in order, none twice.
spec fn sorted(names: Seq<String>) -> bool {
    forall|i: int, j: int|
        0 <= i < j < names.len() ==> precedes((#[trigger] names[i])@, (#[trigger] names[j])@)
}

/// Inserting a new name before all that it precedes, and behind all others,
/// keeps the order.
proof fn lemma_inserted(names: Seq<String>, next: String, p: int)
    requires
        sorted(names),
        !among(names, next@),
        0 <= p <= names.len(),
        forall|k: int| p <= k < names.len() ==> precedes(next@, (#[trigger] names[k])@),
        p > 0 ==> !precedes(next@, names[p - 1]@),
    ensures
        sorted(names.insert(p, next)),
        forall|name: Seq<char>|
            #![trigger among(names.insert(p, next), name)]
            among(names.insert(p, next), name) <==> name == next@ || among(names, name),
{
    let more = names.insert(p, next);
    assert forall|k: int| 0 <= k < p implies precedes((#[trigger] names[k])@, next@) by {
        assert(names[p - 1]@ != next@);
        lemma_precedes_total(names[p - 1]@, next@);
        if k < p - 1 {
            lemma_precedes_transitive(names[k]@, names[p - 1]@, next@);
        }
    }
    assert forall|i: int, j: int| 0 <= i < j < more.len() implies precedes(
        (#[trigger] more[i])@,
        (#[trigger] more[j])@,
    ) by {
        let a = if i < p {
            i
        } else {
            i - 1
        };
        let b = if j < p {
            j
        } else {
            j - 1
        };
        if i != p && j != p {
            assert(more[i] == names[a] && more[j] == names[b]);
        } else if i == p {
            assert(more[j] == names[b]);
        } else {
            assert(more[i] == names[a]);
        }
    }
    assert forall|name: Seq<char>|
        #![trigger among(more, name)]
        among(more, name) <==> name == next@ || among(names, name) by {
        if among(more, name) {
            let i = choose|i: int| 0 <= i < more.len() && (#[trigger] more[i])@ == name;
            if i < p {
                assert(names[i]@ == name);
            } else if i > p {
                assert(names[i - 1]@ == name);
            }
        }
        if name == next@ {
            assert(more[p]@ == name);
        }
        if among(names, name) {
            let i = choose|i: int| 0 <= i < names.len() && (#[trigger] names[i])@ == name;
            if i < p {
                assert(more[i]@ == name);
            } else {
                assert(more[i + 1]@ == name);
            }
        }
    }
}

/// Changing or adding one entry registers its loader.
proof fn lemma_registers(
    before: Seq<Registered>,
    after: Seq<Registered>,
    architecture: Seq<char>,
    loader: Loader,
)
    requires
        unique(before),
        unique(after),
        before.len() <= after.len() <= before.len() + 1,
        forall|k: int|
            0 <= k < before.len() && (#[trigger] before[k]).0 != architecture ==> after[k]
                == before[k],
        exists|k: int| 0 <= k < after.len() && #[trigger] after[k] == (architecture, loader),
        forall|k: int|
            0 <= k < after.len() && (#[trigger] after[k]).0 != architecture ==> k < before.len()
                && after[k] == before[k],
    ensures
        registers(before, after, architecture, loader),
{
    assert forall|name: Seq<char>|
        #![trigger loader_of(after, name)]
        loader_of(after, name) == (if name == architecture {
            Some(loader)
        } else {
            loader_of(before, name)
        }) by {
        if name == architecture {
            let k = choose|k: int|
                0 <= k < after.len() && #[trigger] after[k] == (architecture, loader);
            lemma_loader_of(after, k);
        } else if exists|k: int| 0 <= k < before.len() && (#[trigger] before[k]).0 == name {
            let k = choose|k: int| 0 <= k < before.len() && (#[trigger] before[k]).0 == name;
            lemma_loader_of(before, k);
            assert(after[k] == before[k]);
            lemma_loader_of(after, k);
        } else {
            lemma_no_loader(before, name);
            assert forall|k: int| 0 <= k < after.len() implies (#[trigger] after[k]).0
                != name by {}
            lemma_no_loader(after, name);
        }
    }
}

/// Registering an architecture changes its loader and no other.
pub proof fn law_register_is_local(
    before: Seq<Registered>,
    after: Seq<Registered>,
    architecture: Seq<char>,
    loader: Loader,
    other: Seq<char>,
)
    requires
        registers(before, after, architecture, loader),
    ensures
        loader_of(after, architecture) == Some(loader),
        other != architecture ==> loader_of(after, other) == loader_of(before, other),
{
}

/// A vision language model goes by a name of its own.
proof fn lemma_architectures_differ()
    ensures
        "idefics3"@ != "llama"@,
        "idefics3"@ != "smollm2"@,
        "idefics3"@ != "qwen2"@,
        "idefics3"@ != "qwen3"@,
        "idefics3"@ != "mistral"@,
        "idefics3"@ != "phi3"@,
        "idefics3"@ != "gemma3_text"@,
        "idefics3"@ != "gemma3"@,
{
    reveal_strlit("idefics3");
    reveal_strlit("llama");
    reveal_strlit("smollm2");
    reveal_strlit("qwen2");
    reveal_strlit("qwen3");
    reveal_strlit("mistral");
    reveal_strlit("phi3");
    reveal_strlit("gemma3_text");
    reveal_strlit("gemma3");
    assert("idefics3"@[0] == 'i');
}

/// The loader of an architecture is the one listed with its name, and an
/// architecture that is not listed has none.
pub proof fn law_loader_is_the_listed_one(
    entries: Seq<Registered>,
    architecture: Seq<char>,
    i: int,
)
    requires
        unique(entries),
        0 <= i < entries.len(),
    ensures
        loader_of(entries, entries[i].0) == Some(entries[i].1),
        (forall|k: int| 0 <= k < entries.len() ==> (#[trigger] entries[k]).0 != architecture)
            ==> loader_of(entries, architecture) is None,
{
    lemma_loader_of(entries, i);
    if forall|k: int| 0 <= k < entries.len() ==> (#[trigger] entries[k]).0 != architecture {
        lemma_no_loader(entries, architecture);
    }
}

/// Names are ordered as in a dictionary: what they begin with in common does not
/// count, then the smaller character comes first, and a name comes before those
/// that it is the beginning of.
pub proof fn law_names_are_in_dictionary_order(front: Seq<char>, a: Seq<char>, b: Seq<char>)
    ensures
        precedes(front + a, front + b) == precedes(a, b),
        a.len() > 0 && b.len() > 0 && a[0] != b[0] ==> (precedes(a, b) <==> a[0] < b[0]),
        a.len() == 0 ==> (precedes(a, b) <==> b.len() > 0),
        b.len() == 0 ==> !precedes(a, b),
        !precedes(a, a),
    decreases front.len() + a.len(),
{
    if front.len() > 0 {
        law_names_are_in_dictionary_order(front.skip(1), a, b);
        assert((front + a).skip(1) =~= front.skip(1) + a);
        assert((front + b).skip(1) =~= front.skip(1) + b);
    } else {
        assert(front + a =~= a);
        assert(front + b =~= b);
        if a.len() > 0 {
            law_names_are_in_dictionary_order(front, a.skip(1), a.skip(1));
        }
    }
}

} // verus!
