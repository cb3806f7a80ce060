//! Allocation genomes of the genetic optimisation: which component each
//! function of the architecture is placed on, and the operators that
//! recombine two parents. The random draws are made by `rand`; what is done
//! with a draw is stated for every value it may take.
use vstd::prelude::*;
use rand::Rng;
use crate::json::{jvs, lemma_jvs, JVal, JsonValue};

verus! {

/// `rand::rng().random_range(low..high)`: some number of `[low, high)`;
/// nothing more is stated of which.
#[verifier::external_body]
fn random_index(low: usize, high: usize) -> (r: usize)
    requires
        low < high,
    ensures
        low <= r < high,
{
    rand::rng().random_range(low..high)
}

/// `rand::rng().random::<bool>()`: a fair coin; nothing is stated of its
/// side.
#[verifier::external_body]
fn random_coin() -> (b: bool) {
    rand::rng().random::<bool>()
}

/// The child that takes the genes of `parent1` before `split` and those of
/// `parent2` from `split` on.
pub fn single_point_crossover_at<T: Copy>(parent1: &[T], parent2: &[T], split: usize) -> (child: Vec<T>)
    requires
        parent1@.len() == parent2@.len(),
        split <= parent1@.len(),
    ensures
        child@ == parent1@.subrange(0, split as int) + parent2@.subrange(split as int, parent2@.len() as int),
{
    let mut child: Vec<T> = Vec::new();
    let mut i: usize = 0;
    while i < parent1.len()
        invariant
            i <= parent1@.len(),
            parent1@.len() == parent2@.len(),
            split <= parent1@.len(),
            child@ == (if i <= split {
                parent1@.subrange(0, i as int)
            } else {
                parent1@.subrange(0, split as int) + parent2@.subrange(split as int, i as int)
            }),
        decreases parent1.len() - i,
    {
        if i < split {
            child.push(parent1[i]);
            assert(parent1@.subrange(0, i + 1) =~= parent1@.subrange(0, i as int).push(parent1@[i as int]));
        } else {
            child.push(parent2[i]);
            assert(parent2@.subrange(split as int, i + 1) =~= parent2@.subrange(split as int, i as int).push(
                parent2@[i as int],
            ));
            if i == split {
                assert(parent2@.subrange(split as int, split as int) =~= Seq::<T>::empty());
                assert(parent1@.subrange(0, split as int) + Seq::<T>::empty() =~= parent1@.subrange(
                    0,
                    split as int,
                ));
            }
        }
        i = i + 1;
    }
    if parent1.len() <= split {
        assert(parent2@.subrange(split as int, parent2@.len() as int) =~= Seq::<T>::empty());
        assert(parent1@.subrange(0, split as int) + Seq::<T>::empty() =~= parent1@.subrange(0, split as int));
    }
    child
}

/// Single-point crossover: the child takes the first genes of `parent1`
/// and the rest of `parent2`, cut at a random point that leaves at least
/// one gene of `parent1`; no genes for empty parents.
pub fn single_point_crossover<T: Copy>(parent1: &[T], parent2: &[T]) -> (child: Vec<T>)
    requires
        parent1@.len() == parent2@.len(),
        parent1@.len() != 1,
    ensures
        parent1@.len() == 0 ==> child@.len() == 0,
        parent1@.len() > 0 ==> exists|split: int|
            1 <= split < parent1@.len() && child@ == parent1@.subrange(0, split) + parent2@.subrange(
                split,
                parent2@.len() as int,
            ),
{
    let len = parent1.len();
    if len == 0 {
        return Vec::new();
    }
    let split = random_index(1, len);
    single_point_crossover_at(parent1, parent2, split)
}

/// The child that takes each gene from `parent1` where `picks` says so, and
/// from `parent2` elsewhere.
pub fn uniform_crossover_with<T: Copy>(parent1: &[T], parent2: &[T], picks: &[bool]) -> (child: Vec<T>)
    requires
        parent1@.len() == parent2@.len(),
        picks@.len() == parent1@.len(),
    ensures
        child@.len() == parent1@.len(),
        forall|i: int| 0 <= i < child@.len() ==> #[trigger] child@[i] == if picks@[i] {
            parent1@[i]
        } else {
            parent2@[i]
        },
{
    let mut child: Vec<T> = Vec::new();
    let mut i: usize = 0;
    while i < parent1.len()
        invariant
            i <= parent1@.len(),
            parent1@.len() == parent2@.len(),
            picks@.len() == parent1@.len(),
            child@.len() == i,
            forall|j: int| 0 <= j < i ==> #[trigger] child@[j] == if picks@[j] {
                parent1@[j]
            } else {
                parent2@[j]
            },
        decreases parent1.len() - i,
    {
        if picks[i] {
            child.push(parent1[i]);
        } else {
            child.push(parent2[i]);
        }
        i = i + 1;
    }
    child
}

/// Uniform crossover: each gene of the child comes from one parent or the
/// other at the same position, by a fair coin.
pub fn uniform_crossover<T: Copy>(parent1: &[T], parent2: &[T]) -> (child: Vec<T>)
    requires
        parent1@.len() == parent2@.len(),
    ensures
        child@.len() == parent1@.len(),
        forall|i: int| 0 <= i < child@.len() ==> #[trigger] child@[i] == parent1@[i] || child@[i] == parent2@[i],
{
    let mut picks: Vec<bool> = Vec::new();
    let mut i: usize = 0;
    while i < parent1.len()
        invariant
            i <= parent1@.len(),
            picks@.len() == i,
        decreases parent1.len() - i,
    {
        picks.push(random_coin());
        i = i + 1;
    }
    uniform_crossover_with(parent1, parent2, picks.as_slice())
}

/// A placement of functions on components: the gene of a function is the
/// position of its component.
#[derive(Debug)]
pub struct SystemAllocationGenome {
    pub genes: Vec<usize>,
    pub function_ids: Vec<String>,
    pub available_component_ids: Vec<String>,
}

/// The number of positions, below the shorter length, where two gene lists
/// differ.
pub open spec fn differing(a: Seq<usize>, b: Seq<usize>, n: int) -> int
    decreases n,
{
    if n <= 0 {
        0
    } else {
        differing(a, b, n - 1) + if a[n - 1] != b[n - 1] {
            1int
        } else {
            0int
        }
    }
}

fn clone_strings(v: &Vec<String>) -> (r: Vec<String>)
    ensures
        r@.len() == v@.len(),
        forall|i: int| 0 <= i < v@.len() ==> #[trigger] r@[i]@ == v@[i]@,
{
    let mut out: Vec<String> = Vec::new();
    let mut i: usize = 0;
    while i < v.len()
        invariant
            i <= v@.len(),
            out@.len() == i,
            forall|j: int| 0 <= j < i ==> #[trigger] out@[j]@ == v@[j]@,
        decreases v.len() - i,
    {
        out.push(v[i].clone());
        i = i + 1;
    }
    out
}

impl SystemAllocationGenome {
    /// Every function on the first component.
    pub fn new_template(function_ids: Vec<String>, component_ids: Vec<String>) -> (g: SystemAllocationGenome)
        ensures
            g.genes@.len() == function_ids@.len(),
            forall|i: int| 0 <= i < g.genes@.len() ==> #[trigger] g.genes@[i] == 0,
            g.function_ids == function_ids,
            g.available_component_ids == component_ids,
    {
        let mut genes: Vec<usize> = Vec::new();
        let mut i: usize = 0;
        while i < function_ids.len()
            invariant
                i <= function_ids@.len(),
                genes@.len() == i,
                forall|j: int| 0 <= j < i ==> #[trigger] genes@[j] == 0,
            decreases function_ids.len() - i,
        {
            genes.push(0);
            i = i + 1;
        }
        SystemAllocationGenome { genes, function_ids, available_component_ids: component_ids }
    }

    /// Every function on a random component.
    pub fn new_random(function_ids: Vec<String>, component_ids: Vec<String>) -> (g: SystemAllocationGenome)
        requires
            function_ids@.len() == 0 || component_ids@.len() > 0,
        ensures
            g.genes@.len() == function_ids@.len(),
            forall|i: int| 0 <= i < g.genes@.len() ==> #[trigger] g.genes@[i] < component_ids@.len(),
            g.function_ids == function_ids,
            g.available_component_ids == component_ids,
    {
        let mut genes: Vec<usize> = Vec::new();
        let mut i: usize = 0;
        while i < function_ids.len()
            invariant
                i <= function_ids@.len(),
                function_ids@.len() == 0 || component_ids@.len() > 0,
                genes@.len() == i,
                forall|j: int| 0 <= j < i ==> #[trigger] genes@[j] < component_ids@.len(),
            decreases function_ids.len() - i,
        {
            genes.push(random_index(0, component_ids.len()));
            i = i + 1;
        }
        SystemAllocationGenome { genes, function_ids, available_component_ids: component_ids }
    }

    /// Each function (up to the shorter of functions and genes) with the
    /// component it is placed on.
    pub fn get_allocations(&self) -> (r: Vec<(String, String)>)
        requires
            forall|i: int|
                0 <= i < self.genes@.len() && i < self.function_ids@.len() ==> #[trigger] self.genes@[i]
                    < self.available_component_ids@.len(),
        ensures
            r@.len() == if self.genes@.len() < self.function_ids@.len() {
                self.genes@.len()
            } else {
                self.function_ids@.len()
            },
            forall|i: int|
                0 <= i < r@.len() ==> (#[trigger] r@[i]).0@ == self.function_ids@[i]@ && r@[i].1@
                    == self.available_component_ids@[self.genes@[i] as int]@,
    {
        let n = if self.genes.len() < self.function_ids.len() {
            self.genes.len()
        } else {
            self.function_ids.len()
        };
        let mut out: Vec<(String, String)> = Vec::new();
        let mut i: usize = 0;
        while i < n
            invariant
                i <= n,
                n <= self.genes@.len(),
                n <= self.function_ids@.len(),
                forall|j: int|
                    0 <= j < self.genes@.len() && j < self.function_ids@.len() ==> #[trigger] self.genes@[j]
                        < self.available_component_ids@.len(),
                out@.len() == i,
                forall|j: int|
                    0 <= j < i ==> (#[trigger] out@[j]).0@ == self.function_ids@[j]@ && out@[j].1@
                        == self.available_component_ids@[self.genes@[j] as int]@,
            decreases n - i,
        {
            let g = self.genes[i];
            out.push((self.function_ids[i].clone(), self.available_component_ids[g].clone()));
            i = i + 1;
        }
        out
    }

    /// The number of functions the two genomes place differently (compared
    /// up to the shorter genome).
    pub fn distance(&self, other: &SystemAllocationGenome) -> (d: usize)
        ensures
            d == differing(
                self.genes@,
                other.genes@,
                if self.genes@.len() < other.genes@.len() {
                    self.genes@.len() as int
                } else {
                    other.genes@.len() as int
                },
            ),
    {
        let n = if self.genes.len() < other.genes.len() {
            self.genes.len()
        } else {
            other.genes.len()
        };
        let mut d: usize = 0;
        let mut i: usize = 0;
        while i < n
            invariant
                i <= n,
                n <= self.genes@.len(),
                n <= other.genes@.len(),
                d == differing(self.genes@, other.genes@, i as int),
                d <= i,
            decreases n - i,
        {
            if self.genes[i] != other.genes[i] {
                d = d + 1;
            }
            i = i + 1;
        }
        d
    }

    /// A child of two genomes of the same length: uniform crossover of
    /// their genes, the functions and components of `self`.
    pub fn crossover(&self, other: &SystemAllocationGenome) -> (child: SystemAllocationGenome)
        requires
            self.genes@.len() == other.genes@.len(),
        ensures
            child.genes@.len() == self.genes@.len(),
            forall|i: int|
                0 <= i < child.genes@.len() ==> #[trigger] child.genes@[i] == self.genes@[i]
                    || child.genes@[i] == other.genes@[i],
            child.function_ids@.len() == self.function_ids@.len(),
            forall|i: int| 0 <= i < self.function_ids@.len() ==> #[trigger] child.function_ids@[i]@ == self.function_ids@[i]@,
            child.available_component_ids@.len() == self.available_component_ids@.len(),
            forall|i: int|
                0 <= i < self.available_component_ids@.len() ==> #[trigger] child.available_component_ids@[i]@
                    == self.available_component_ids@[i]@,
    {
        let genes = uniform_crossover(self.genes.as_slice(), other.genes.as_slice());
        SystemAllocationGenome {
            genes,
            function_ids: clone_strings(&self.function_ids),
            available_component_ids: clone_strings(&self.available_component_ids),
        }
    }
}

/// The artifact that records that function `f` is realized by component
/// `c`.
pub open spec fn realization_spec(f: Seq<char>, c: Seq<char>) -> JVal {
    JVal::Obj(
        seq![
            ("@type"@, JVal::Str("arcadia:realizes"@)),
            ("source"@, JVal::Str(f)),
            ("target"@, JVal::Str(c)),
            ("generated_by"@, JVal::Str("RaiseGeneticsEngine"@)),
        ],
    )
}

/// The generated artifacts after an optimisation: those already there (an
/// array, else none), then one realization per allocation, in order.
pub open spec fn artifacts_spec(existing: Option<JVal>, allocations: Seq<(Seq<char>, Seq<char>)>) -> Seq<
    JVal,
> {
    let prior = match existing {
        Some(JVal::Arr(a)) => a,
        _ => Seq::empty(),
    };
    prior + allocations.map_values(|p: (Seq<char>, Seq<char>)| realization_spec(p.0, p.1))
}

/// The generated artifacts after an optimisation (see `artifacts_spec`).
pub fn generated_artifacts(existing: Option<&JsonValue>, allocations: &Vec<(String, String)>) -> (r:
    JsonValue)
    ensures
        r@ == JVal::Arr(
            artifacts_spec(
                match existing {
                    Some(e) => Some(e@),
                    None => None,
                },
                allocations@.map_values(|p: (String, String)| (p.0@, p.1@)),
            ),
        ),
{
    let mut out: Vec<JsonValue> = Vec::new();
    match existing {
        Some(JsonValue::Array(a)) => {
            let mut i: usize = 0;
            proof {
                lemma_jvs(a@);
            }
            while i < a.len()
                invariant
                    i <= a@.len(),
                    jvs(a@).len() == a@.len(),
                    forall|m: int| 0 <= m < a@.len() ==> #[trigger] jvs(a@)[m] == a@[m]@,
                    jvs(out@) == jvs(a@).take(i as int),
                decreases a.len() - i,
            {
                let ghost before = out@;
                out.push(a[i].deep_clone());
                proof {
                    lemma_jvs(out@);
                    lemma_jvs(before);
                    assert(jvs(out@) =~= jvs(a@).take(i + 1));
                }
                i = i + 1;
            }
            assert(jvs(a@).take(a@.len() as int) =~= jvs(a@));
        },
        _ => {
            proof {
                lemma_jvs(out@);
            }
        },
    }
    let ghost prior = jvs(out@);
    let ghost al = allocations@.map_values(|p: (String, String)| (p.0@, p.1@));
    let mut k: usize = 0;
    while k < allocations.len()
        invariant
            k <= allocations@.len(),
            al == allocations@.map_values(|p: (String, String)| (p.0@, p.1@)),
            jvs(out@) == prior + al.take(k as int).map_values(
                |p: (Seq<char>, Seq<char>)| realization_spec(p.0, p.1),
            ),
        decreases allocations.len() - k,
    {
        let art = crate::dev_setup::o4(
            "@type",
            crate::dev_setup::s("arcadia:realizes"),
            "source",
            crate::dev_setup::s(allocations[k].0.as_str()),
            "target",
            crate::dev_setup::s(allocations[k].1.as_str()),
            "generated_by",
            crate::dev_setup::s("RaiseGeneticsEngine"),
        );
        let ghost before = out@;
        out.push(art);
        proof {
            lemma_jvs(out@);
            lemma_jvs(before);
            assert(al.take(k + 1) =~= al.take(k as int).push(al[k as int]));
            assert(jvs(out@) =~= jvs(before).push(art@));
            assert(al.take(k + 1).map_values(|p: (Seq<char>, Seq<char>)| realization_spec(p.0, p.1))
                =~= al.take(k as int).map_values(
                |p: (Seq<char>, Seq<char>)| realization_spec(p.0, p.1),
            ).push(realization_spec(al[k as int].0, al[k as int].1)));
        }
        k = k + 1;
    }
    assert(al.take(allocations@.len() as int) =~= al);
    JsonValue::Array(out)
}

} // verus!
