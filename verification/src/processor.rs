//! JSON-LD processing of Arcadia documents: expansion and compaction of
//! keys and types, type and identifier lookup, required-field checks, and
//! N-Triples export.
use vstd::prelude::*;
use crate::context::{ContextManager, compact_with, expand_term_at};
use crate::json::{
    JVal, JsonValue, entries_insert, entries_remove, entry_get, jents, jvs, lemma_jents, lemma_jvs,
    object_insert, object_remove,
};
use crate::parser::strings_view;
use crate::text::{chars_less, lemma_lex_asymmetric, lemma_lex_irreflexive, lemma_lex_total,
    lemma_lex_transitive, lex_lt, str_equal, to_chars};
use crate::vocabulary::{VocabularyRegistry, pairs_view};

verus! {

/// A node of an RDF triple: an IRI, a literal or a blank node.
#[derive(Debug, Clone)]
pub enum RdfNode {
    IRI(String),
    Literal(String),
    BlankNode(String),
}

/// A list of RDF triples.
#[derive(Debug)]
pub struct RdfGraph {
    triples: Vec<(String, String, RdfNode)>,
}

/// Whether the strings are in strictly increasing order.
pub open spec fn sorted_strict(s: Seq<Seq<char>>) -> bool {
    forall|i: int, j: int| 0 <= i < j < s.len() ==> lex_lt(#[trigger] s[i], #[trigger] s[j])
}

/// The subjects of the triples, in order.
pub open spec fn subjects_of(t: Seq<(String, String, RdfNode)>) -> Seq<Seq<char>> {
    t.map_values(|x: (String, String, RdfNode)| x.0@)
}

pub(crate) fn insert_sorted(out: &mut Vec<String>, s: &String)
    requires
        sorted_strict(strings_view(old(out)@)),
    ensures
        sorted_strict(strings_view(final(out)@)),
        forall|x: Seq<char>|
            strings_view(final(out)@).contains(x) <==> (strings_view(old(out)@).contains(x) || x
                == s@),
{
    let t = to_chars(s.as_str());
    let mut p: usize = 0;
    while p < out.len()
        invariant
            p <= out@.len(),
            out@ == old(out)@,
            t@ == s@,
            forall|j: int| 0 <= j < p ==> lex_lt(#[trigger] out@[j]@, s@),
        ensures
            p <= out@.len(),
            out@ == old(out)@,
            forall|j: int| 0 <= j < p ==> lex_lt(#[trigger] out@[j]@, s@),
            p < out@.len() ==> !lex_lt(out@[p as int]@, s@),
        decreases out.len() - p,
    {
        let u = to_chars(out[p].as_str());
        if !chars_less(u.as_slice(), t.as_slice()) {
            break;
        }
        p = p + 1;
    }
    let ghost sv = strings_view(out@);
    if p < out.len() && str_equal(out[p].as_str(), s.as_str()) {
        proof {
            assert(sv[p as int] == s@);
        }
        return;
    }
    proof {
        if p < out@.len() {
            lemma_lex_total(out@[p as int]@, s@);
            assert(lex_lt(s@, sv[p as int]));
        }
    }
    out.insert(p, s.clone());
    proof {
        let nv = strings_view(out@);
        assert(nv =~= sv.insert(p as int, s@));
        assert forall|i: int, j: int| 0 <= i < j < nv.len() implies lex_lt(
            #[trigger] nv[i],
            #[trigger] nv[j],
        ) by {
            if j < p {
                assert(nv[i] == sv[i] && nv[j] == sv[j]);
            } else if j == p {
                assert(nv[i] == sv[i]);
                assert(lex_lt(old(out)@[i]@, s@));
            } else if i == p {
                assert(nv[j] == sv[j - 1]);
                if j - 1 > p {
                    assert(lex_lt(sv[p as int], sv[j - 1]));
                    lemma_lex_transitive(s@, sv[p as int], sv[j - 1]);
                }
            } else if i < p {
                assert(nv[i] == sv[i] && nv[j] == sv[j - 1]);
                assert(lex_lt(old(out)@[i]@, s@));
                if j - 1 > p {
                    assert(lex_lt(sv[p as int], sv[j - 1]));
                    lemma_lex_transitive(s@, sv[p as int], sv[j - 1]);
                }
                lemma_lex_transitive(sv[i], s@, sv[j - 1]);
            } else {
                assert(nv[i] == sv[i - 1] && nv[j] == sv[j - 1]);
            }
        }
        assert forall|x: Seq<char>| nv.contains(x) <==> (sv.contains(x) || x == s@) by {
            if nv.contains(x) {
                let k = choose|k: int| 0 <= k < nv.len() && nv[k] == x;
                if k < p {
                    assert(sv[k] == x);
                } else if k > p {
                    assert(sv[k - 1] == x);
                }
            }
            if sv.contains(x) {
                let k = choose|k: int| 0 <= k < sv.len() && sv[k] == x;
                if k < p {
                    assert(nv[k] == x);
                } else {
                    assert(nv[k + 1] == x);
                }
            }
            if x == s@ {
                assert(nv[p as int] == x);
            }
        }
    }
}

impl RdfGraph {
    /// An empty graph.
    pub fn new() -> (g: RdfGraph)
        ensures
            g.triples_view().len() == 0,
    {
        RdfGraph { triples: Vec::new() }
    }

    /// The triples, in the order they were added.
    pub closed spec fn triples_view(&self) -> Seq<(String, String, RdfNode)> {
        self.triples@
    }

    /// Appends a triple.
    pub fn add_triple(&mut self, subject: String, predicate: String, object: RdfNode)
        ensures
            final(self).triples_view() == old(self).triples_view().push((subject, predicate, object)),
    {
        self.triples.push((subject, predicate, object));
    }

    /// The triples, in the order they were added.
    pub fn triples(&self) -> (r: &Vec<(String, String, RdfNode)>)
        ensures
            r@ == self.triples_view(),
    {
        &self.triples
    }

    /// The distinct subjects, in increasing order.
    pub fn subjects(&self) -> (r: Vec<String>)
        ensures
            sorted_strict(strings_view(r@)),
            forall|x: Seq<char>|
                strings_view(r@).contains(x) <==> subjects_of(self.triples_view()).contains(x),
    {
        let mut out: Vec<String> = Vec::new();
        let mut i: usize = 0;
        while i < self.triples.len()
            invariant
                i <= self.triples@.len(),
                sorted_strict(strings_view(out@)),
                forall|x: Seq<char>|
                    strings_view(out@).contains(x) <==> subjects_of(self.triples@).take(
                        i as int,
                    ).contains(x),
            decreases self.triples.len() - i,
        {
            insert_sorted(&mut out, &self.triples[i].0);
            proof {
                let before = subjects_of(self.triples@).take(i as int);
                let after = subjects_of(self.triples@).take(i + 1);
                assert(after =~= before.push(self.triples@[i as int].0@));
                assert forall|x: Seq<char>| after.contains(x) <==> (before.contains(x) || x
                    == self.triples@[i as int].0@) by {
                    if after.contains(x) {
                        let k = choose|k: int| 0 <= k < after.len() && after[k] == x;
                        if k < i {
                            assert(before[k] == x);
                        }
                    }
                    if before.contains(x) {
                        let k = choose|k: int| 0 <= k < before.len() && before[k] == x;
                        assert(after[k] == x);
                    }
                    if x == self.triples@[i as int].0@ {
                        assert(after[i as int] == x);
                    }
                }
            }
            i = i + 1;
        }
        proof {
            assert(subjects_of(self.triples@).take(self.triples@.len() as int) =~= subjects_of(
                self.triples@,
            ));
        }
        out
    }
}

/// A key or type mapped by expansion (`expand`) or compaction.
pub open spec fn term_map(m: Seq<(Seq<char>, Seq<char>)>, t: Seq<char>, expand: bool) -> Seq<
    char,
> {
    if expand {
        expand_term_at(m, t, 0)
    } else {
        compact_with(m, t)
    }
}

/// A type value mapped: a string, or the strings of an array recursively.
pub open spec fn iri_val(m: Seq<(Seq<char>, Seq<char>)>, v: JVal, expand: bool) -> JVal
    decreases v, 0nat,
{
    match v {
        JVal::Str(s) => JVal::Str(term_map(m, s, expand)),
        JVal::Arr(a) => JVal::Arr(iri_items(m, a, expand)),
        _ => v,
    }
}

pub open spec fn iri_items(m: Seq<(Seq<char>, Seq<char>)>, a: Seq<JVal>, expand: bool) -> Seq<
    JVal,
>
    decreases a, 1nat,
{
    if a.len() == 0 {
        Seq::empty()
    } else {
        proof {
            vstd::seq::axiom_seq_index_decreases(a, a.len() - 1);
            vstd::seq::axiom_seq_subrange_decreases(a, 0, a.len() - 1);
        }
        iri_items(m, a.subrange(0, a.len() - 1), expand).push(iri_val(m, a[a.len() - 1], expand))
    }
}

/// Whether the values under key `k` are types.
pub open spec fn is_type_key(m: Seq<(Seq<char>, Seq<char>)>, k: Seq<char>, expand: bool) -> bool {
    term_map(m, k, expand) == "@type"@ || k == "@type"@
}

/// A document rewritten by expansion or compaction: every key but
/// `@context` is mapped, type values are mapped as IRIs, other values are
/// rewritten recursively.
pub open spec fn rewrite_val(m: Seq<(Seq<char>, Seq<char>)>, v: JVal, expand: bool) -> JVal
    decreases v, 0nat,
{
    match v {
        JVal::Obj(e) => JVal::Obj(
            apply_renames(rewrite_entries(m, e, expand), renames_of(m, e, expand)),
        ),
        JVal::Arr(a) => JVal::Arr(rewrite_items(m, a, expand)),
        _ => v,
    }
}

pub open spec fn rewrite_items(m: Seq<(Seq<char>, Seq<char>)>, a: Seq<JVal>, expand: bool) -> Seq<
    JVal,
>
    decreases a, 1nat,
{
    if a.len() == 0 {
        Seq::empty()
    } else {
        proof {
            vstd::seq::axiom_seq_index_decreases(a, a.len() - 1);
            vstd::seq::axiom_seq_subrange_decreases(a, 0, a.len() - 1);
        }
        rewrite_items(m, a.subrange(0, a.len() - 1), expand).push(
            rewrite_val(m, a[a.len() - 1], expand),
        )
    }
}

/// The entries with their values rewritten (keys unchanged yet).
pub open spec fn rewrite_entries(
    m: Seq<(Seq<char>, Seq<char>)>,
    e: Seq<(Seq<char>, JVal)>,
    expand: bool,
) -> Seq<(Seq<char>, JVal)>
    decreases e, 1nat,
{
    if e.len() == 0 {
        Seq::empty()
    } else {
        proof {
            vstd::seq::axiom_seq_index_decreases(e, e.len() - 1);
            vstd::seq::axiom_seq_subrange_decreases(e, 0, e.len() - 1);
        }
        let k = e[e.len() - 1].0;
        let v = e[e.len() - 1].1;
        let nv = if k == "@context"@ {
            v
        } else if is_type_key(m, k, expand) {
            iri_val(m, v, expand)
        } else {
            rewrite_val(m, v, expand)
        };
        rewrite_entries(m, e.subrange(0, e.len() - 1), expand).push((k, nv))
    }
}

/// The keys to rename, in order: every key but `@context` whose mapping
/// differs from it.
pub open spec fn renames_of(
    m: Seq<(Seq<char>, Seq<char>)>,
    e: Seq<(Seq<char>, JVal)>,
    expand: bool,
) -> Seq<(Seq<char>, Seq<char>)>
    decreases e.len(),
{
    if e.len() == 0 {
        Seq::empty()
    } else {
        let rest = renames_of(m, e.drop_last(), expand);
        let k = e.last().0;
        if k != "@context"@ && term_map(m, k, expand) != k {
            rest.push((k, term_map(m, k, expand)))
        } else {
            rest
        }
    }
}

/// The entries with each rename applied in order: the value under the old
/// key is removed and stored under the new key.
pub open spec fn apply_renames(e: Seq<(Seq<char>, JVal)>, r: Seq<(Seq<char>, Seq<char>)>) -> Seq<
    (Seq<char>, JVal),
>
    decreases r.len(),
{
    if r.len() == 0 {
        e
    } else {
        let before = apply_renames(e, r.drop_last());
        match entry_get(before, r.last().0) {
            Some(val) => entries_insert(entries_remove(before, r.last().0), r.last().1, val),
            None => before,
        }
    }
}

/// JSON-LD processing with a context manager.
#[derive(Debug, Clone)]
pub struct JsonLdProcessor {
    pub context_manager: ContextManager,
}

impl JsonLdProcessor {
    /// The active term mappings.
    pub open spec fn mappings(&self) -> Seq<(Seq<char>, Seq<char>)> {
        pairs_view(self.context_manager.active_mappings@)
    }

    /// A processor over the registry's default prefixes.
    pub fn new(registry: &VocabularyRegistry) -> (p: JsonLdProcessor)
        ensures
            p.mappings() == pairs_view(registry.default_context@),
    {
        JsonLdProcessor { context_manager: ContextManager::new(registry) }
    }

    pub fn with_context_manager(context_manager: ContextManager) -> (p: JsonLdProcessor)
        ensures
            p.context_manager == context_manager,
    {
        JsonLdProcessor { context_manager }
    }

    /// The processor with a document's `@context` added.
    pub fn with_doc_context(self, doc: &JsonValue) -> (p: JsonLdProcessor)
        ensures
            match crate::json::member(doc@, "@context"@) {
                Some(ctx) => p.mappings() == crate::ontology::assoc_insert_all(
                    self.mappings(),
                    crate::context::block_pairs(ctx),
                ),
                None => p.mappings() == self.mappings(),
            },
    {
        let mut p = self;
        p.context_manager.load_from_doc(doc);
        p
    }

    /// Adds the `@context` the registry holds for a layer.
    pub fn load_layer_context(&mut self, registry: &VocabularyRegistry, layer: &str)
        ensures
            match entry_get(jents(registry.layer_contexts@), layer@) {
                Some(ctx) => final(self).mappings() == crate::ontology::assoc_insert_all(
                    old(self).mappings(),
                    crate::context::block_pairs(ctx),
                ),
                None => final(self).mappings() == old(self).mappings(),
            },
    {
        self.context_manager.load_layer_context(registry, layer);
    }

    pub fn context_manager(&self) -> (r: &ContextManager)
        ensures
            *r == self.context_manager,
    {
        &self.context_manager
    }

    fn map_term(&self, t: &str, expand: bool) -> (r: String)
        ensures
            r@ == term_map(self.mappings(), t@, expand),
    {
        if expand {
            self.context_manager.expand_term(t)
        } else {
            self.context_manager.compact_iri(t)
        }
    }

    fn rewrite_iri(&self, v: &JsonValue, expand: bool) -> (r: JsonValue)
        ensures
            r@ == iri_val(self.mappings(), v@, expand),
        decreases v,
    {
        match v {
            JsonValue::String(s) => JsonValue::String(self.map_term(s.as_str(), expand)),
            JsonValue::Array(a) => {
                let mut out: Vec<JsonValue> = Vec::new();
                let mut i: usize = 0;
                proof {
                    lemma_jvs(a@);
                }
                while i < a.len()
                    invariant
                        *v == JsonValue::Array(*a),
                        i <= a@.len(),
                        jvs(out@) == iri_items(self.mappings(), jvs(a@).subrange(0, i as int), expand),
                        jvs(a@).len() == a@.len(),
                        forall|j: int| 0 <= j < a@.len() ==> #[trigger] jvs(a@)[j] == a@[j]@,
                    decreases a.len() - i,
                {
                    proof {
                        vstd::std_specs::vec::axiom_vec_decreases_to_view(*a);
                        vstd::seq::axiom_seq_index_decreases(a@, i as int);
                        assert(decreases_to!(*v => v->Array_0));
                        assert(decreases_to!(*a => a@));
                        assert(decreases_to!(a@ => a@[i as int]));
                        assert(decreases_to!(*v => a@[i as int]));
                    }
                    let x = self.rewrite_iri(&a[i], expand);
                    let ghost before = out@;
                    out.push(x);
                    proof {
                        lemma_jvs(out@);
                        lemma_jvs(before);
                        let s = jvs(a@).subrange(0, i + 1);
                        assert(s.subrange(0, s.len() - 1) =~= jvs(a@).subrange(0, i as int));
                        assert(jvs(out@) =~= jvs(before).push(x@));
                    }
                    i = i + 1;
                }
                proof {
                    assert(jvs(a@).subrange(0, a@.len() as int) =~= jvs(a@));
                }
                JsonValue::Array(out)
            },
            _ => v.deep_clone(),
        }
    }

    fn rewrite(&self, v: &JsonValue, expand: bool) -> (r: JsonValue)
        ensures
            r@ == rewrite_val(self.mappings(), v@, expand),
        decreases v,
    {
        match v {
            JsonValue::Object(o) => {
                let mut ents: Vec<(String, JsonValue)> = Vec::new();
                let mut renames: Vec<(String, String)> = Vec::new();
                let mut i: usize = 0;
                proof {
                    lemma_jents(o@);
                }
                while i < o.len()
                    invariant
                        *v == JsonValue::Object(*o),
                        i <= o@.len(),
                        jents(o@).len() == o@.len(),
                        forall|j: int|
                            0 <= j < o@.len() ==> #[trigger] jents(o@)[j] == (o@[j].0@, o@[j].1@),
                        jents(ents@) == rewrite_entries(
                            self.mappings(),
                            jents(o@).subrange(0, i as int),
                            expand,
                        ),
                        pairs_view(renames@) == renames_of(
                            self.mappings(),
                            jents(o@).subrange(0, i as int),
                            expand,
                        ),
                    decreases o.len() - i,
                {
                    proof {
                        vstd::std_specs::vec::axiom_vec_decreases_to_view(*o);
                        vstd::seq::axiom_seq_index_decreases(o@, i as int);
                        assert(decreases_to!(*v => v->Object_0));
                        assert(decreases_to!(*o => o@));
                        assert(decreases_to!(o@ => o@[i as int]));
                        assert(decreases_to!(o@[i as int] => o@[i as int].1));
                        assert(decreases_to!(*v => o@[i as int].1));
                    }
                    let ghost e = jents(o@);
                    let ghost s = e.subrange(0, i + 1);
                    proof {
                        assert(s.subrange(0, s.len() - 1) =~= e.subrange(0, i as int));
                        assert(s.drop_last() =~= e.subrange(0, i as int));
                        assert(s[s.len() - 1] == e[i as int]);
                    }
                    let k = &o[i].0;
                    let val = &o[i].1;
                    let ghost before_e = ents@;
                    let ghost before_r = renames@;
                    if str_equal(k.as_str(), "@context") {
                        ents.push((k.clone(), val.deep_clone()));
                        proof {
                            lemma_jents(ents@);
                            lemma_jents(before_e);
                            assert(jents(ents@) =~= jents(before_e).push((k@, val@)));
                        }
                    } else {
                        let nk = self.map_term(k.as_str(), expand);
                        if !str_equal(nk.as_str(), k.as_str()) {
                            renames.push((k.clone(), nk.clone()));
                            proof {
                                assert(pairs_view(renames@) =~= pairs_view(before_r).push(
                                    (k@, nk@),
                                ));
                            }
                        }
                        let nv = if str_equal(nk.as_str(), "@type") || str_equal(
                            k.as_str(),
                            "@type",
                        ) {
                            self.rewrite_iri(val, expand)
                        } else {
                            self.rewrite(val, expand)
                        };
                        ents.push((k.clone(), nv));
                        proof {
                            lemma_jents(ents@);
                            lemma_jents(before_e);
                            assert(jents(ents@) =~= jents(before_e).push((k@, nv@)));
                        }
                    }
                    i = i + 1;
                }
                proof {
                    assert(jents(o@).subrange(0, o@.len() as int) =~= jents(o@));
                }
                let ghost base = jents(ents@);
                let mut j: usize = 0;
                while j < renames.len()
                    invariant
                        j <= renames@.len(),
                        jents(ents@) == apply_renames(base, pairs_view(renames@).take(j as int)),
                    decreases renames.len() - j,
                {
                    proof {
                        assert(pairs_view(renames@).take(j + 1).drop_last() =~= pairs_view(
                            renames@,
                        ).take(j as int));
                    }
                    match object_remove(&mut ents, renames[j].0.as_str()) {
                        Some(x) => object_insert(&mut ents, renames[j].1.as_str(), x),
                        None => {},
                    }
                    j = j + 1;
                }
                proof {
                    assert(pairs_view(renames@).take(renames@.len() as int) =~= pairs_view(
                        renames@,
                    ));
                }
                JsonValue::Object(ents)
            },
            JsonValue::Array(a) => {
                let mut out: Vec<JsonValue> = Vec::new();
                let mut i: usize = 0;
                proof {
                    lemma_jvs(a@);
                }
                while i < a.len()
                    invariant
                        *v == JsonValue::Array(*a),
                        i <= a@.len(),
                        jvs(out@) == rewrite_items(
                            self.mappings(),
                            jvs(a@).subrange(0, i as int),
                            expand,
                        ),
                        jvs(a@).len() == a@.len(),
                        forall|j: int| 0 <= j < a@.len() ==> #[trigger] jvs(a@)[j] == a@[j]@,
                    decreases a.len() - i,
                {
                    proof {
                        vstd::std_specs::vec::axiom_vec_decreases_to_view(*a);
                        vstd::seq::axiom_seq_index_decreases(a@, i as int);
                        assert(decreases_to!(*v => v->Array_0));
                        assert(decreases_to!(*a => a@));
                        assert(decreases_to!(a@ => a@[i as int]));
                        assert(decreases_to!(*v => a@[i as int]));
                    }
                    let x = self.rewrite(&a[i], expand);
                    let ghost before = out@;
                    out.push(x);
                    proof {
                        lemma_jvs(out@);
                        lemma_jvs(before);
                        let s = jvs(a@).subrange(0, i + 1);
                        assert(s.subrange(0, s.len() - 1) =~= jvs(a@).subrange(0, i as int));
                        assert(jvs(out@) =~= jvs(before).push(x@));
                    }
                    i = i + 1;
                }
                proof {
                    assert(jvs(a@).subrange(0, a@.len() as int) =~= jvs(a@));
                }
                JsonValue::Array(out)
            },
            _ => v.deep_clone(),
        }
    }

    /// Expands the document: keys and types to IRIs (see `rewrite_val`).
    pub fn expand_in_place(&self, doc: &mut JsonValue)
        ensures
            final(doc)@ == rewrite_val(self.mappings(), old(doc)@, true),
    {
        let r = self.rewrite(doc, true);
        *doc = r;
    }

    /// Compacts the document: keys and types to compact IRIs (see
    /// `rewrite_val`).
    pub fn compact_in_place(&self, doc: &mut JsonValue)
        ensures
            final(doc)@ == rewrite_val(self.mappings(), old(doc)@, false),
    {
        let r = self.rewrite(doc, false);
        *doc = r;
    }
}

/// The types a document's members name under `@type` or a key that
/// expands like `@type`, in member order.
pub open spec fn types_of(m: Seq<(Seq<char>, Seq<char>)>, e: Seq<(Seq<char>, JVal)>) -> Seq<
    Seq<char>,
>
    decreases e.len(),
{
    if e.len() == 0 {
        Seq::empty()
    } else {
        let rest = types_of(m, e.drop_last());
        let k = e.last().0;
        if k == "@type"@ || expand_term_at(m, k, 0) == expand_term_at(m, "@type"@, 0) {
            rest + crate::ontology::value_strings(e.last().1)
        } else {
            rest
        }
    }
}

/// The members of an object value (none for other values).
pub open spec fn doc_entries(v: JVal) -> Seq<(Seq<char>, JVal)> {
    match v {
        JVal::Obj(e) => e,
        _ => Seq::empty(),
    }
}

/// Whether a member of `e` expands to the same IRI as `field`.
pub open spec fn field_present(
    m: Seq<(Seq<char>, Seq<char>)>,
    e: Seq<(Seq<char>, JVal)>,
    field: Seq<char>,
) -> bool {
    exists|j: int|
        0 <= j < e.len() && expand_term_at(m, #[trigger] e[j].0, 0) == expand_term_at(m, field, 0)
}

/// A string with each `"` preceded by a backslash.
pub open spec fn escape_quotes(s: Seq<char>) -> Seq<char>
    decreases s.len(),
{
    if s.len() == 0 {
        Seq::empty()
    } else {
        escape_quotes(s.drop_last()) + if s.last() == '"' {
            seq!['\\', '"']
        } else {
            seq![s.last()]
        }
    }
}

/// The N-Triples subject of a document: its `@id` as an IRI, or a blank
/// node.
pub open spec fn subject_of(v: JVal) -> Seq<char> {
    match crate::json::member(v, "@id"@) {
        Some(JVal::Str(id)) => "<"@ + id + ">"@,
        _ => "_:b0"@,
    }
}

/// The N-Triples form of a predicate: IRIs and compact IRIs as they are,
/// other keys expanded, all between angle brackets.
pub open spec fn pred_text(m: Seq<(Seq<char>, Seq<char>)>, p: Seq<char>) -> Seq<char> {
    if crate::text::has_prefix(p, "http"@) || p.contains(':') {
        "<"@ + p + ">"@
    } else {
        "<"@ + expand_term_at(m, p, 0) + ">"@
    }
}

/// The N-Triples form of an object value: IRIs between angle brackets,
/// strings quoted, booleans and numbers as typed literals, anything else
/// as its quoted JSON text.
pub open spec fn object_text(o: JVal) -> Seq<char> {
    match o {
        JVal::Str(s) => if crate::vocabulary::is_iri_spec(s) {
            "<"@ + s + ">"@
        } else {
            "\""@ + escape_quotes(s) + "\""@
        },
        JVal::Bool(b) => "\""@ + (if b {
            "true"@
        } else {
            "false"@
        }) + "\"^^<http://www.w3.org/2001/XMLSchema#boolean>"@,
        JVal::Num(n) => "\""@ + crate::json_text::num_text(n) + "\"^^<http://www.w3.org/2001/XMLSchema#"@
            + (if n.is_float {
            "double"@
        } else {
            "integer"@
        }) + ">"@,
        _ => "\""@ + escape_quotes(crate::json_text::json_text(o)) + "\""@,
    }
}

/// A number is exported as a literal of its JSON text typed `xsd:double`
/// when it is a fraction and `xsd:integer` when it is an integer.
pub proof fn law_number_literal_type(n: crate::json::JsonNumber)
    ensures
        n.is_float ==> object_text(JVal::Num(n)) == "\""@ + crate::json_text::num_text(n)
            + "\"^^<http://www.w3.org/2001/XMLSchema#double>"@,
        !n.is_float ==> object_text(JVal::Num(n)) == "\""@ + crate::json_text::num_text(n)
            + "\"^^<http://www.w3.org/2001/XMLSchema#integer>"@,
{
    reveal_strlit("\"^^<http://www.w3.org/2001/XMLSchema#");
    reveal_strlit("double");
    reveal_strlit("integer");
    reveal_strlit(">");
    reveal_strlit("\"^^<http://www.w3.org/2001/XMLSchema#double>");
    reveal_strlit("\"^^<http://www.w3.org/2001/XMLSchema#integer>");
    let t = crate::json_text::num_text(n);
    if n.is_float {
        assert(object_text(JVal::Num(n)) =~= "\""@ + t + "\"^^<http://www.w3.org/2001/XMLSchema#double>"@);
    } else {
        assert(object_text(JVal::Num(n)) =~= "\""@ + t + "\"^^<http://www.w3.org/2001/XMLSchema#integer>"@);
    }
}

/// A boolean is exported as `"true"` or `"false"` typed `xsd:boolean`.
pub proof fn law_boolean_literal_type(b: bool)
    ensures
        object_text(JVal::Bool(b)) == (if b {
            "\"true\"^^<http://www.w3.org/2001/XMLSchema#boolean>"@
        } else {
            "\"false\"^^<http://www.w3.org/2001/XMLSchema#boolean>"@
        }),
{
    reveal_strlit("\"");
    reveal_strlit("true");
    reveal_strlit("false");
    reveal_strlit("\"^^<http://www.w3.org/2001/XMLSchema#boolean>");
    reveal_strlit("\"true\"^^<http://www.w3.org/2001/XMLSchema#boolean>");
    reveal_strlit("\"false\"^^<http://www.w3.org/2001/XMLSchema#boolean>");
    if b {
        assert(object_text(JVal::Bool(b)) =~= "\"true\"^^<http://www.w3.org/2001/XMLSchema#boolean>"@);
    } else {
        assert(object_text(JVal::Bool(b)) =~= "\"false\"^^<http://www.w3.org/2001/XMLSchema#boolean>"@);
    }
}

/// The objects of a member: the items of an array, or the value itself.
pub open spec fn value_objects(v: JVal) -> Seq<JVal> {
    match v {
        JVal::Arr(a) => a,
        _ => seq![v],
    }
}

/// One triple line.
pub open spec fn triple_line(subject: Seq<char>, pred: Seq<char>, o: JVal) -> Seq<char> {
    subject + " "@ + pred + " "@ + object_text(o) + " ."@
}

pub open spec fn object_lines(subject: Seq<char>, pred: Seq<char>, os: Seq<JVal>) -> Seq<Seq<char>>
    decreases os.len(),
{
    if os.len() == 0 {
        Seq::empty()
    } else {
        object_lines(subject, pred, os.drop_last()).push(triple_line(subject, pred, os.last()))
    }
}

/// The triple lines of the members in order; keyword members (`@...`) give
/// none.
pub open spec fn member_lines(
    m: Seq<(Seq<char>, Seq<char>)>,
    subject: Seq<char>,
    e: Seq<(Seq<char>, JVal)>,
) -> Seq<Seq<char>>
    decreases e.len(),
{
    if e.len() == 0 {
        Seq::empty()
    } else {
        let rest = member_lines(m, subject, e.drop_last());
        let k = e.last().0;
        if k.len() > 0 && k[0] == '@' {
            rest
        } else {
            rest + object_lines(subject, pred_text(m, k), value_objects(e.last().1))
        }
    }
}

/// Lines joined with newlines.
pub open spec fn join_lines(ls: Seq<Seq<char>>) -> Seq<char>
    decreases ls.len(),
{
    if ls.len() == 0 {
        Seq::empty()
    } else if ls.len() == 1 {
        ls[0]
    } else {
        join_lines(ls.drop_last()) + seq!['\n'] + ls.last()
    }
}

/// The N-Triples text of an expanded document.
pub open spec fn ntriples_text(m: Seq<(Seq<char>, Seq<char>)>, doc: JVal) -> Seq<char> {
    join_lines(member_lines(m, subject_of(doc), doc_entries(doc)))
}

fn push_str(s: &str, out: &mut Vec<char>)
    ensures
        final(out)@ == old(out)@ + s@,
{
    let c = to_chars(s);
    crate::json_text::push_all(&c, out);
}

fn push_escaped_quotes(s: &Vec<char>, out: &mut Vec<char>)
    ensures
        final(out)@ == old(out)@ + escape_quotes(s@),
{
    let mut i: usize = 0;
    while i < s.len()
        invariant
            i <= s@.len(),
            out@ == old(out)@ + escape_quotes(s@.take(i as int)),
        decreases s.len() - i,
    {
        proof {
            assert(s@.take(i + 1).drop_last() =~= s@.take(i as int));
        }
        let ghost before = out@;
        if s[i] == '"' {
            out.push('\\');
            out.push('"');
        } else {
            out.push(s[i]);
        }
        proof {
            assert(out@ =~= before + if s@[i as int] == '"' {
                seq!['\\', '"']
            } else {
                seq![s@[i as int]]
            });
        }
        i = i + 1;
    }
    proof {
        assert(s@.take(s@.len() as int) =~= s@);
    }
}

fn push_object_text(o: &JsonValue, out: &mut Vec<char>)
    ensures
        final(out)@ == old(out)@ + object_text(o@),
{
    match o {
        JsonValue::String(s) => {
            if VocabularyRegistry::is_iri(s.as_str()) {
                push_str("<", out);
                push_str(s.as_str(), out);
                push_str(">", out);
            } else {
                push_str("\"", out);
                push_escaped_quotes(&to_chars(s.as_str()), out);
                push_str("\"", out);
            }
        },
        JsonValue::Bool(b) => {
            push_str("\"", out);
            if *b {
                push_str("true", out);
            } else {
                push_str("false", out);
            }
            push_str("\"^^<http://www.w3.org/2001/XMLSchema#boolean>", out);
        },
        JsonValue::Number(n) => {
            push_str("\"", out);
            crate::json_text::push_number(*n, out);
            push_str("\"^^<http://www.w3.org/2001/XMLSchema#", out);
            if n.is_float {
                push_str("double", out);
            } else {
                push_str("integer", out);
            }
            push_str(">", out);
        },
        _ => {
            push_str("\"", out);
            let mut t: Vec<char> = Vec::new();
            crate::json_text::push_json(o, &mut t);
            push_escaped_quotes(&t, out);
            push_str("\"", out);
        },
    }
    proof {
        assert(out@ =~= old(out)@ + object_text(o@));
    }
}

impl JsonLdProcessor {
    /// The document's `@id`, when a string.
    pub fn get_id(&self, doc: &JsonValue) -> (r: Option<String>)
        ensures
            match crate::json::member(doc@, "@id"@) {
                Some(JVal::Str(s)) => r matches Some(x) && x@ == s,
                _ => r is None,
            },
    {
        match doc.get("@id") {
            Some(v) => match v.as_str() {
                Some(s) => Some(s.clone()),
                None => None,
            },
            None => None,
        }
    }

    /// The types the document declares (see `types_of`).
    pub fn get_types(&self, doc: &JsonValue) -> (r: Vec<String>)
        ensures
            strings_view(r@) == types_of(self.mappings(), doc_entries(doc@)),
    {
        let mut types: Vec<String> = Vec::new();
        let type_iri = self.context_manager.expand_term("@type");
        match doc {
            JsonValue::Object(o) => {
                proof {
                    lemma_jents(o@);
                }
                let mut i: usize = 0;
                while i < o.len()
                    invariant
                        i <= o@.len(),
                        *doc == JsonValue::Object(*o),
                        jents(o@).len() == o@.len(),
                        forall|j: int|
                            0 <= j < o@.len() ==> #[trigger] jents(o@)[j] == (o@[j].0@, o@[j].1@),
                        type_iri@ == expand_term_at(self.mappings(), "@type"@, 0),
                        strings_view(types@) == types_of(
                            self.mappings(),
                            jents(o@).take(i as int),
                        ),
                    decreases o.len() - i,
                {
                    proof {
                        assert(jents(o@).take(i + 1).drop_last() =~= jents(o@).take(i as int));
                    }
                    let key = &o[i].0;
                    if str_equal(key.as_str(), "@type") || str_equal(
                        self.context_manager.expand_term(key.as_str()).as_str(),
                        type_iri.as_str(),
                    ) {
                        crate::ontology::push_value_strings(&o[i].1, &mut types);
                    }
                    i = i + 1;
                }
                proof {
                    assert(jents(o@).take(o@.len() as int) =~= jents(o@));
                }
            },
            _ => {
                proof {
                    assert(strings_view(types@) =~= Seq::<Seq<char>>::empty());
                }
            },
        }
        types
    }

    /// The first declared type.
    pub fn get_primary_type(&self, doc: &JsonValue) -> (r: Option<String>)
        ensures
            types_of(self.mappings(), doc_entries(doc@)).len() == 0 ==> r is None,
            types_of(self.mappings(), doc_entries(doc@)).len() > 0 ==> (r matches Some(x) && x@
                == types_of(self.mappings(), doc_entries(doc@))[0]),
    {
        let types = self.get_types(doc);
        if types.len() == 0 {
            None
        } else {
            assert(strings_view(types@)[0] == types@[0]@);
            Some(types[0].clone())
        }
    }

    /// Checks that each required field is present, compared after
    /// expansion; refuses with the first missing field.
    pub fn validate_required_fields(&self, doc: &JsonValue, required: &[&str]) -> (r: Result<
        (),
        crate::error::RaiseError,
    >)
        ensures
            r is Ok <==> forall|i: int|
                0 <= i < required@.len() ==> field_present(
                    self.mappings(),
                    doc_entries(doc@),
                    #[trigger] required@[i]@,
                ),
            r matches Err(e) ==> e.code == crate::error::ErrorCode::SemanticFieldMissing
                && exists|i: int|
                0 <= i < required@.len() && !field_present(
                    self.mappings(),
                    doc_entries(doc@),
                    #[trigger] required@[i]@,
                ) && e.detail@ == required@[i]@ && forall|j: int|
                    0 <= j < i ==> field_present(
                        self.mappings(),
                        doc_entries(doc@),
                        #[trigger] required@[j]@,
                    ),
    {
        let ghost e = doc_entries(doc@);
        let mut f: usize = 0;
        while f < required.len()
            invariant
                f <= required@.len(),
                e == doc_entries(doc@),
                forall|j: int|
                    0 <= j < f ==> field_present(self.mappings(), e, #[trigger] required@[j]@),
            decreases required.len() - f,
        {
            let field: &str = required[f];
            let required_iri = self.context_manager.expand_term(field);
            let mut found = false;
            match doc {
                JsonValue::Object(o) => {
                    proof {
                        lemma_jents(o@);
                    }
                    let mut k: usize = 0;
                    while k < o.len()
                        invariant
                            k <= o@.len(),
                            *doc == JsonValue::Object(*o),
                            e == jents(o@),
                            e.len() == o@.len(),
                            forall|j: int|
                                0 <= j < o@.len() ==> #[trigger] e[j] == (o@[j].0@, o@[j].1@),
                            required_iri@ == expand_term_at(self.mappings(), field@, 0),
                            found ==> field_present(self.mappings(), e, field@),
                            forall|j: int|
                                0 <= j < k ==> expand_term_at(self.mappings(), #[trigger] e[j].0, 0)
                                    != required_iri@,
                        ensures
                            found ==> field_present(self.mappings(), e, field@),
                            !found ==> !field_present(self.mappings(), e, field@),
                        decreases o.len() - k,
                    {
                        let ek = self.context_manager.expand_term(o[k].0.as_str());
                        if str_equal(ek.as_str(), required_iri.as_str()) {
                            found = true;
                            assert(expand_term_at(self.mappings(), e[k as int].0, 0)
                                == required_iri@);
                            break;
                        }
                        k = k + 1;
                    }
                },
                _ => {},
            }
            if !found {
                return Err(crate::error::RaiseError::new(
                    crate::error::ErrorCode::SemanticFieldMissing,
                    field,
                ));
            }
            f = f + 1;
        }
        Ok(())
    }

    /// Expands the document, then writes one N-Triples line per member
    /// value (array items each on a line), joined with newlines.
    pub fn to_ntriples(&self, doc: &mut JsonValue) -> (r: Result<String, crate::error::RaiseError>)
        ensures
            final(doc)@ == rewrite_val(self.mappings(), old(doc)@, true),
            r matches Ok(s) && s@ == ntriples_text(self.mappings(), final(doc)@),
    {
        self.expand_in_place(doc);
        let mut subject: Vec<char> = Vec::new();
        match self.get_id(doc) {
            Some(id) => {
                push_str("<", &mut subject);
                push_str(id.as_str(), &mut subject);
                push_str(">", &mut subject);
            },
            None => {
                push_str("_:b0", &mut subject);
            },
        }
        let mut lines: Vec<Vec<char>> = Vec::new();
        let ghost m = self.mappings();
        match &*doc {
            JsonValue::Object(o) => {
                proof {
                    lemma_jents(o@);
                }
                let mut i: usize = 0;
                while i < o.len()
                    invariant
                        i <= o@.len(),
                        jents(o@).len() == o@.len(),
                        forall|j: int|
                            0 <= j < o@.len() ==> #[trigger] jents(o@)[j] == (o@[j].0@, o@[j].1@),
                        m == self.mappings(),
                        lines@.map_values(|l: Vec<char>| l@) == member_lines(
                            m,
                            subject@,
                            jents(o@).take(i as int),
                        ),
                    decreases o.len() - i,
                {
                    proof {
                        assert(jents(o@).take(i + 1).drop_last() =~= jents(o@).take(i as int));
                    }
                    let pred = &o[i].0;
                    let pc = to_chars(pred.as_str());
                    if !(pc.len() > 0 && pc[0] == '@') {
                        let mut pred_iri: Vec<char> = Vec::new();
                        push_str("<", &mut pred_iri);
                        if crate::text::starts_with(pc.as_slice(), to_chars("http").as_slice())
                            || crate::parser::find_char_pub(pc.as_slice(), ':') < pc.len() {
                            push_str(pred.as_str(), &mut pred_iri);
                        } else {
                            let ex = self.context_manager.expand_term(pred.as_str());
                            push_str(ex.as_str(), &mut pred_iri);
                        }
                        push_str(">", &mut pred_iri);
                        proof {
                            crate::parser::lemma_first_index_of(pc@, ':');
                            if pc@.contains(':') {
                                let w = choose|w: int| 0 <= w < pc@.len() && pc@[w] == ':';
                                assert(pc@[w] == ':');
                            }
                            assert(pred_iri@ =~= pred_text(m, pred@));
                        }
                        let val = &o[i].1;
                        let ghost os = value_objects(val@);
                        let ghost before = lines@.map_values(|l: Vec<char>| l@);
                        match val {
                            JsonValue::Array(a) => {
                                proof {
                                    lemma_jvs(a@);
                                }
                                let mut t: usize = 0;
                                while t < a.len()
                                    invariant
                                        t <= a@.len(),
                                        os == jvs(a@),
                                        os.len() == a@.len(),
                                        forall|j: int|
                                            0 <= j < a@.len() ==> #[trigger] os[j] == a@[j]@,
                                        lines@.map_values(|l: Vec<char>| l@) == before
                                            + object_lines(subject@, pred_iri@, os.take(t as int)),
                                    decreases a.len() - t,
                                {
                                    proof {
                                        assert(os.take(t + 1).drop_last() =~= os.take(t as int));
                                    }
                                    let mut line: Vec<char> = Vec::new();
                                    crate::json_text::push_all(&subject, &mut line);
                                    push_str(" ", &mut line);
                                    crate::json_text::push_all(&pred_iri, &mut line);
                                    push_str(" ", &mut line);
                                    push_object_text(&a[t], &mut line);
                                    push_str(" .", &mut line);
                                    let ghost lb = lines@;
                                    lines.push(line);
                                    proof {
                                        assert(lines@.map_values(|l: Vec<char>| l@)
                                            =~= lb.map_values(|l: Vec<char>| l@).push(line@));
                                    }
                                    t = t + 1;
                                }
                                proof {
                                    assert(os.take(a@.len() as int) =~= os);
                                }
                            },
                            _ => {
                                let mut line: Vec<char> = Vec::new();
                                crate::json_text::push_all(&subject, &mut line);
                                push_str(" ", &mut line);
                                crate::json_text::push_all(&pred_iri, &mut line);
                                push_str(" ", &mut line);
                                push_object_text(val, &mut line);
                                push_str(" .", &mut line);
                                let ghost lb = lines@;
                                lines.push(line);
                                proof {
                                    assert(lines@.map_values(|l: Vec<char>| l@) =~= lb.map_values(
                                        |l: Vec<char>| l@,
                                    ).push(line@));
                                    assert(!(val@ is Arr));
                                    assert(os == seq![val@]);
                                    assert(line@ =~= triple_line(subject@, pred_iri@, val@));
                                    assert(os.drop_last() =~= Seq::<JVal>::empty());
                                    reveal_with_fuel(object_lines, 2);
                                    assert(object_lines(subject@, pred_iri@, os) =~= seq![line@]);
                                }
                            },
                        }
                        proof {
                            let tk = jents(o@).take(i + 1);
                            assert(tk.last() == (pred@, val@));
                            assert(lines@.map_values(|l: Vec<char>| l@) =~= before + object_lines(
                                subject@,
                                pred_iri@,
                                os,
                            ));
                        }
                    } else {
                        proof {
                            let tk = jents(o@).take(i + 1);
                            assert(tk.last().0 == pred@);
                            assert(pc@ == pred@);
                        }
                    }
                    i = i + 1;
                }
                proof {
                    assert(jents(o@).take(o@.len() as int) =~= jents(o@));
                }
            },
            _ => {
                proof {
                    assert(lines@.map_values(|l: Vec<char>| l@) =~= Seq::<Seq<char>>::empty());
                }
            },
        }
        let mut out: Vec<char> = Vec::new();
        let mut i: usize = 0;
        while i < lines.len()
            invariant
                i <= lines@.len(),
                out@ == join_lines(lines@.map_values(|l: Vec<char>| l@).take(i as int)),
            decreases lines.len() - i,
        {
            proof {
                let ls = lines@.map_values(|l: Vec<char>| l@);
                assert(ls.take(i + 1).drop_last() =~= ls.take(i as int));
            }
            if i > 0 {
                out.push('\n');
            }
            crate::json_text::push_all(&lines[i], &mut out);
            proof {
                let ls = lines@.map_values(|l: Vec<char>| l@);
                if i == 0 {
                    assert(out@ =~= ls.take(1)[0]);
                } else {
                    assert(out@ =~= join_lines(ls.take(i as int)) + seq!['\n'] + ls.take(i + 1).last());
                }
            }
            i = i + 1;
        }
        proof {
            assert(lines@.map_values(|l: Vec<char>| l@).take(lines@.len() as int) =~= lines@.map_values(
                |l: Vec<char>| l@,
            ));
        }
        Ok(crate::text::from_chars(out.as_slice()))
    }
}

} // verus!
