//! JSON-LD contexts: the term definitions of a context block, and the
//! manager that expands terms to IRIs and compacts IRIs back to terms.
use vstd::prelude::*;
use crate::json::{JVal, JsonValue, entry_get, jents, jvs, lemma_jents, lemma_jvs, member};
use crate::ontology::{assoc_insert_all, entries_prefixes, law_assoc_insert_all_keeps_keys_distinct};
use crate::parser::{find_char_pub, first_index_of};
use crate::text::{from_chars, slice_chars, to_chars};
use crate::vocabulary::{
    VocabularyRegistry, assoc_get, assoc_insert, assoc_lookup, assoc_store, is_iri_spec,
    keys_distinct, pairs_view,
};

verus! {

/// The methodological layers of the Arcadia architecture.
#[derive(Debug, Clone, Copy, PartialEq, Eq, Hash, Structural)]
pub enum ArcadiaLayer {
    OA,
    SA,
    LA,
    PA,
    EPBS,
    Data,
    Transverse,
}

impl ArcadiaLayer {
    /// The layer's lower-case name.
    pub fn as_str(&self) -> (r: &'static str)
        ensures
            r@ == layer_name(*self),
    {
        match self {
            ArcadiaLayer::OA => "oa",
            ArcadiaLayer::SA => "sa",
            ArcadiaLayer::LA => "la",
            ArcadiaLayer::PA => "pa",
            ArcadiaLayer::EPBS => "epbs",
            ArcadiaLayer::Data => "data",
            ArcadiaLayer::Transverse => "transverse",
        }
    }
}

pub open spec fn layer_name(l: ArcadiaLayer) -> Seq<char> {
    match l {
        ArcadiaLayer::OA => "oa"@,
        ArcadiaLayer::SA => "sa"@,
        ArcadiaLayer::LA => "la"@,
        ArcadiaLayer::PA => "pa"@,
        ArcadiaLayer::EPBS => "epbs"@,
        ArcadiaLayer::Data => "data"@,
        ArcadiaLayer::Transverse => "transverse"@,
    }
}

/// The definition of one term in a context: an IRI, or an expanded
/// definition with its `@id`, `@type`, `@container` and `@language`.
#[derive(Debug, Clone)]
pub enum ContextJsonValue {
    Simple(String),
    Expanded {
        id: Option<String>,
        type_: Option<String>,
        container: Option<String>,
        language: Option<String>,
    },
}

/// The mathematical value of a term definition.
pub enum CtxVal {
    Simple(Seq<char>),
    Expanded {
        id: Option<Seq<char>>,
        type_: Option<Seq<char>>,
        container: Option<Seq<char>>,
        language: Option<Seq<char>>,
    },
}

impl View for ContextJsonValue {
    type V = CtxVal;

    open spec fn view(&self) -> CtxVal {
        match self {
            ContextJsonValue::Simple(s) => CtxVal::Simple(s@),
            ContextJsonValue::Expanded { id, type_, container, language } => CtxVal::Expanded {
                id: crate::vocabulary::opt_view(*id),
                type_: crate::vocabulary::opt_view(*type_),
                container: crate::vocabulary::opt_view(*container),
                language: crate::vocabulary::opt_view(*language),
            },
        }
    }
}

/// An optional string member of a definition: absent and `null` read as
/// `None`; `None` outside when the member is neither a string nor `null`.
pub open spec fn opt_str_member(e: Seq<(Seq<char>, JVal)>, k: Seq<char>) -> Option<
    Option<Seq<char>>,
> {
    match entry_get(e, k) {
        None => Some(None),
        Some(JVal::Null) => Some(None),
        Some(JVal::Str(s)) => Some(Some(s)),
        _ => None,
    }
}

/// The term definition a JSON value reads as, if any.
pub open spec fn ctx_val_of_json(v: JVal) -> Option<CtxVal> {
    match v {
        JVal::Str(s) => Some(CtxVal::Simple(s)),
        JVal::Obj(e) => {
            if opt_str_member(e, "@id"@) is Some && opt_str_member(e, "@type"@) is Some
                && opt_str_member(e, "@container"@) is Some && opt_str_member(e, "@language"@)
                is Some {
                Some(
                    CtxVal::Expanded {
                        id: opt_str_member(e, "@id"@).unwrap(),
                        type_: opt_str_member(e, "@type"@).unwrap(),
                        container: opt_str_member(e, "@container"@).unwrap(),
                        language: opt_str_member(e, "@language"@).unwrap(),
                    },
                )
            } else {
                None
            }
        },
        _ => None,
    }
}

pub open spec fn opt_json(o: Option<Seq<char>>) -> JVal {
    match o {
        Some(s) => JVal::Str(s),
        None => JVal::Null,
    }
}

/// The JSON form of a term definition.
pub open spec fn ctx_val_json(c: CtxVal) -> JVal {
    match c {
        CtxVal::Simple(s) => JVal::Str(s),
        CtxVal::Expanded { id, type_, container, language } => JVal::Obj(
            seq![
                ("@id"@, opt_json(id)),
                ("@type"@, opt_json(type_)),
                ("@container"@, opt_json(container)),
                ("@language"@, opt_json(language)),
            ],
        ),
    }
}

fn read_opt_str(v: &JsonValue, key: &str) -> (r: Result<Option<String>, ()>)
    requires
        v@ is Obj,
    ensures
        match opt_str_member(v@->Obj_0, key@) {
            Some(o) => r matches Ok(x) && crate::vocabulary::opt_view(x) == o,
            None => r is Err,
        },
{
    match v.get(key) {
        None => Ok(None),
        Some(JsonValue::Null) => Ok(None),
        Some(JsonValue::String(s)) => Ok(Some(s.clone())),
        _ => Err(()),
    }
}

fn opt_to_json(o: &Option<String>) -> (r: JsonValue)
    ensures
        r@ == opt_json(crate::vocabulary::opt_view(*o)),
{
    match o {
        Some(s) => JsonValue::String(s.clone()),
        None => JsonValue::Null,
    }
}

impl ContextJsonValue {
    /// The IRI the term maps to.
    pub fn get_iri(&self) -> (r: Option<&str>)
        ensures
            match self@ {
                CtxVal::Simple(s) => r matches Some(x) && x@ == s,
                CtxVal::Expanded { id, .. } => match id {
                    Some(s) => r matches Some(x) && x@ == s,
                    None => r is None,
                },
            },
    {
        match self {
            ContextJsonValue::Simple(s) => Some(s.as_str()),
            ContextJsonValue::Expanded { id, .. } => match id {
                Some(s) => Some(s.as_str()),
                None => None,
            },
        }
    }

    /// The `@type` of an expanded definition.
    pub fn get_type(&self) -> (r: Option<&str>)
        ensures
            match self@ {
                CtxVal::Expanded { type_: Some(s), .. } => r matches Some(x) && x@ == s,
                _ => r is None,
            },
    {
        match self {
            ContextJsonValue::Expanded { type_, .. } => match type_ {
                Some(s) => Some(s.as_str()),
                None => None,
            },
            _ => None,
        }
    }

    /// Reads a term definition from JSON: a string, or an object whose
    /// `@id`, `@type`, `@container` and `@language` are strings, `null` or
    /// absent. Anything else is refused.
    pub fn from_json(v: &JsonValue) -> (r: Option<ContextJsonValue>)
        ensures
            match ctx_val_of_json(v@) {
                Some(c) => r matches Some(x) && x@ == c,
                None => r is None,
            },
    {
        match v {
            JsonValue::String(s) => Some(ContextJsonValue::Simple(s.clone())),
            JsonValue::Object(_) => {
                let id = read_opt_str(v, "@id");
                let type_ = read_opt_str(v, "@type");
                let container = read_opt_str(v, "@container");
                let language = read_opt_str(v, "@language");
                match (id, type_, container, language) {
                    (Ok(id), Ok(type_), Ok(container), Ok(language)) => Some(
                        ContextJsonValue::Expanded { id, type_, container, language },
                    ),
                    _ => None,
                }
            },
            _ => None,
        }
    }

    /// The JSON form of the definition; an expanded definition writes all
    /// four members, `null` for those it lacks.
    pub fn to_json(&self) -> (r: JsonValue)
        ensures
            r@ == ctx_val_json(self@),
    {
        match self {
            ContextJsonValue::Simple(s) => JsonValue::String(s.clone()),
            ContextJsonValue::Expanded { id, type_, container, language } => {
                let mut o: Vec<(String, JsonValue)> = Vec::new();
                o.push(("@id".to_owned(), opt_to_json(id)));
                o.push(("@type".to_owned(), opt_to_json(type_)));
                o.push(("@container".to_owned(), opt_to_json(container)));
                o.push(("@language".to_owned(), opt_to_json(language)));
                proof {
                    lemma_jents(o@);
                    assert(jents(o@) =~= seq![
                        ("@id"@, opt_json(crate::vocabulary::opt_view(*id))),
                        ("@type"@, opt_json(crate::vocabulary::opt_view(*type_))),
                        ("@container"@, opt_json(crate::vocabulary::opt_view(*container))),
                        ("@language"@, opt_json(crate::vocabulary::opt_view(*language))),
                    ]);
                }
                JsonValue::Object(o)
            },
        }
    }
}

/// A context definition: an IRI, a map of term definitions, or a list of
/// definitions.
#[derive(Debug)]
pub enum ContextDefinition {
    Simple(String),
    Object(Vec<(String, ContextJsonValue)>),
    Array(Vec<ContextDefinition>),
}

/// A document's `@context`.
#[derive(Debug)]
pub struct JsonLdContext {
    pub context: ContextDefinition,
}

/// A structured `@context` block: its version and its term definitions.
#[derive(Debug, Clone)]
pub struct ArcadiaContext {
    pub version: Option<String>,
    pub mappings: Vec<(String, ContextJsonValue)>,
}

impl Default for ArcadiaContext {
    fn default() -> (r: ArcadiaContext)
        ensures
            r.version matches Some(v) && v@ == "1.1"@,
            r.mappings@.len() == 0,
    {
        ArcadiaContext { version: Some("1.1".to_owned()), mappings: Vec::new() }
    }
}

/// The term mappings a context block declares: those of an object (see
/// `entries_prefixes`), or those of the blocks of an array in order.
pub open spec fn block_pairs(v: JVal) -> Seq<(Seq<char>, Seq<char>)>
    decreases v, 0nat,
{
    match v {
        JVal::Obj(e) => entries_prefixes(e),
        JVal::Arr(a) => items_block_pairs(a),
        _ => Seq::empty(),
    }
}

pub open spec fn items_block_pairs(a: Seq<JVal>) -> Seq<(Seq<char>, Seq<char>)>
    decreases a, 1nat,
{
    if a.len() == 0 {
        Seq::empty()
    } else {
        proof {
            vstd::seq::axiom_seq_index_decreases(a, a.len() - 1);
            vstd::seq::axiom_seq_subrange_decreases(a, 0, a.len() - 1);
        }
        items_block_pairs(a.subrange(0, a.len() - 1)) + block_pairs(a[a.len() - 1])
    }
}

/// Recording `a` then `b` is recording `a + b`.
pub proof fn lemma_assoc_insert_all_concat(
    m: Seq<(Seq<char>, Seq<char>)>,
    a: Seq<(Seq<char>, Seq<char>)>,
    b: Seq<(Seq<char>, Seq<char>)>,
)
    ensures
        assoc_insert_all(assoc_insert_all(m, a), b) == assoc_insert_all(m, a + b),
    decreases b.len(),
{
    if b.len() == 0 {
        assert(a + b =~= a);
    } else {
        lemma_assoc_insert_all_concat(m, a, b.drop_last());
        assert((a + b).drop_last() =~= a + b.drop_last());
        assert((a + b).last() == b.last());
    }
}

/// A term expanded with the mappings `m` at recursion depth `depth`:
/// keywords (`@...`), IRIs and terms reached at depth six are kept; a mapped
/// term gives its mapping (expanded again unless an IRI); a compact IRI
/// `prefix:suffix` with a mapped prefix gives the expanded prefix followed
/// by the suffix.
pub open spec fn expand_term_at(m: Seq<(Seq<char>, Seq<char>)>, term: Seq<char>, depth: nat) -> Seq<
    char,
>
    decreases 6 - depth, 1int,
{
    if depth >= 6 || is_iri_spec(term) || (term.len() > 0 && term[0] == '@') {
        term
    } else {
        match assoc_get(m, term) {
            Some(mapped) => if is_iri_spec(mapped) {
                mapped
            } else {
                expand_term_at(m, mapped, depth + 1)
            },
            None => expand_curie_at(m, term, depth),
        }
    }
}

pub open spec fn expand_curie_at(m: Seq<(Seq<char>, Seq<char>)>, term: Seq<char>, depth: nat) -> Seq<
    char,
>
    decreases 6 - depth, 0int,
{
    if depth >= 6 {
        term
    } else {
        let i = first_index_of(term, ':');
        if i >= 0 && assoc_get(m, term.subrange(0, i)) is Some {
            expand_term_at(m, assoc_get(m, term.subrange(0, i)).unwrap(), depth + 1)
                + term.subrange(i + 1, term.len() as int)
        } else {
            term
        }
    }
}

/// Whether a mapping is a namespace (ends with `#` or `/`).
pub open spec fn is_namespace(b: Seq<char>) -> bool {
    b.len() > 0 && (b.last() == '#' || b.last() == '/')
}

/// An IRI compacted with the first namespace mapping it extends strictly:
/// `term:suffix`; the IRI itself when there is none.
pub open spec fn compact_with(m: Seq<(Seq<char>, Seq<char>)>, iri: Seq<char>) -> Seq<char>
    decreases m.len(),
{
    if m.len() == 0 {
        iri
    } else if is_namespace(m[0].1) && crate::text::has_prefix(iri, m[0].1) && iri.len()
        > m[0].1.len() {
        m[0].0 + seq![':'] + iri.subrange(m[0].1.len() as int, iri.len() as int)
    } else {
        compact_with(m.drop_first(), iri)
    }
}

proof fn lemma_first_colon(p: Seq<char>, s: Seq<char>)
    requires
        forall|j: int| 0 <= j < p.len() ==> p[j] != ':',
    ensures
        first_index_of(p + seq![':'] + s, ':') == p.len(),
    decreases p.len(),
{
    let t = p + seq![':'] + s;
    if p.len() > 0 {
        lemma_first_colon(p.drop_first(), s);
        assert(t.drop_first() =~= p.drop_first() + seq![':'] + s);
    } else {
        assert(t[0] == ':');
    }
}

proof fn lemma_compact_skip(m: Seq<(Seq<char>, Seq<char>)>, iri: Seq<char>, j: int)
    requires
        0 <= j <= m.len(),
        forall|i: int|
            0 <= i < j ==> !(is_namespace(#[trigger] m[i].1) && crate::text::has_prefix(
                iri,
                m[i].1,
            ) && iri.len() > m[i].1.len()),
    ensures
        compact_with(m, iri) == compact_with(m.subrange(j, m.len() as int), iri),
    decreases j,
{
    if j > 0 {
        assert(!(is_namespace(m[0].1) && crate::text::has_prefix(iri, m[0].1) && iri.len()
            > m[0].1.len()));
        assert forall|i: int| 0 <= i < j - 1 implies !(is_namespace(
            #[trigger] m.drop_first()[i].1,
        ) && crate::text::has_prefix(iri, m.drop_first()[i].1) && iri.len()
            > m.drop_first()[i].1.len()) by {
            assert(m.drop_first()[i] == m[i + 1]);
        }
        lemma_compact_skip(m.drop_first(), iri, j - 1);
        assert(m.drop_first().subrange(j - 1, m.drop_first().len() as int) =~= m.subrange(
            j,
            m.len() as int,
        ));
    } else {
        assert(m.subrange(0, m.len() as int) =~= m);
    }
}

/// Expanding a compact IRI `p:s` whose prefix `p` is mapped to a namespace
/// IRI gives that IRI followed by `s`, and compacting the result gives
/// `p:s` back (`p` may be empty): where `p:s` is itself neither a mapped
/// term nor an IRI, `p` is no keyword, and no mapping listed before the prefix's is a namespace
/// that the expanded IRI extends.
pub proof fn law_expand_then_compact(m: Seq<(Seq<char>, Seq<char>)>, k: int, s: Seq<char>)
    requires
        0 <= k < m.len(),
        assoc_get(m, m[k].0) == Some(m[k].1),
        m[k].0.len() > 0 ==> m[k].0[0] != '@',
        forall|j: int| 0 <= j < m[k].0.len() ==> m[k].0[j] != ':',
        is_iri_spec(m[k].1),
        is_namespace(m[k].1),
        s.len() > 0,
        !is_iri_spec(m[k].0 + seq![':'] + s),
        assoc_get(m, m[k].0 + seq![':'] + s) is None,
        forall|j: int|
            0 <= j < k ==> !(is_namespace(#[trigger] m[j].1) && crate::text::has_prefix(
                m[k].1 + s,
                m[j].1,
            ) && (m[k].1 + s).len() > m[j].1.len()),
    ensures
        expand_term_at(m, m[k].0 + seq![':'] + s, 0) == m[k].1 + s,
        compact_with(m, expand_term_at(m, m[k].0 + seq![':'] + s, 0)) == m[k].0 + seq![':'] + s,
{
    let p = m[k].0;
    let ns = m[k].1;
    let t = p + seq![':'] + s;
    lemma_first_colon(p, s);
    assert(t.subrange(0, p.len() as int) =~= p);
    assert(t.subrange(p.len() as int + 1, t.len() as int) =~= s);
    if p.len() > 0 {
        assert(t[0] == p[0]);
    } else {
        assert(t[0] == ':');
    }
    assert(expand_term_at(m, ns, 1) == ns);
    assert(expand_curie_at(m, t, 0) == ns + s);
    assert(expand_term_at(m, t, 0) == ns + s);
    let iri = ns + s;
    lemma_compact_skip(m, iri, k);
    let rest = m.subrange(k, m.len() as int);
    assert(rest[0] == m[k]);
    assert(iri.subrange(0, ns.len() as int) =~= ns);
    assert(crate::text::has_prefix(iri, ns));
    assert(iri.subrange(ns.len() as int, iri.len() as int) =~= s);
    assert(compact_with(rest, iri) == p + seq![':'] + s);
}

/// Term expansion and IRI compaction over the active term mappings.
#[derive(Debug, Clone)]
pub struct ContextManager {
    pub contexts: Vec<(ArcadiaLayer, ArcadiaContext)>,
    pub active_mappings: Vec<(String, String)>,
}

fn copy_pairs(v: &Vec<(String, String)>) -> (r: Vec<(String, String)>)
    ensures
        pairs_view(r@) == pairs_view(v@),
{
    let mut out: Vec<(String, String)> = Vec::new();
    let mut i: usize = 0;
    while i < v.len()
        invariant
            i <= v@.len(),
            pairs_view(out@) == pairs_view(v@).take(i as int),
        decreases v.len() - i,
    {
        let ghost before = out@;
        let k = v[i].0.clone();
        let x = v[i].1.clone();
        out.push((k, x));
        proof {
            assert(pairs_view(out@) =~= pairs_view(before).push((k@, x@)));
            assert(pairs_view(v@).take(i + 1) =~= pairs_view(v@).take(i as int).push(
                pairs_view(v@)[i as int],
            ));
        }
        i = i + 1;
    }
    proof {
        assert(pairs_view(v@).take(v@.len() as int) =~= pairs_view(v@));
    }
    out
}

impl ContextManager {
    /// A manager whose active mappings are the registry's default prefixes.
    pub fn new(registry: &VocabularyRegistry) -> (r: ContextManager)
        ensures
            pairs_view(r.active_mappings@) == pairs_view(registry.default_context@),
            r.contexts@.len() == 0,
    {
        ContextManager { contexts: Vec::new(), active_mappings: copy_pairs(&registry.default_context) }
    }

    /// Adds the mappings of the `@context` the registry holds for `layer`;
    /// nothing when it holds none.
    pub fn load_layer_context(&mut self, registry: &VocabularyRegistry, layer: &str)
        ensures
            final(self).contexts == old(self).contexts,
            match entry_get(jents(registry.layer_contexts@), layer@) {
                Some(ctx) => pairs_view(final(self).active_mappings@) == assoc_insert_all(
                    pairs_view(old(self).active_mappings@),
                    block_pairs(ctx),
                ),
                None => final(self).active_mappings == old(self).active_mappings,
            },
            keys_distinct(pairs_view(old(self).active_mappings@)) ==> keys_distinct(
                pairs_view(final(self).active_mappings@),
            ),
    {
        match registry.get_context_for_layer(layer) {
            Some(ctx) => self.parse_context_block(&ctx),
            None => {},
        }
        proof {
            if let Some(c) = entry_get(jents(registry.layer_contexts@), layer@) {
                if keys_distinct(pairs_view(old(self).active_mappings@)) {
                    law_assoc_insert_all_keeps_keys_distinct(
                        pairs_view(old(self).active_mappings@),
                        block_pairs(c),
                    );
                }
            }
        }
    }

    /// Adds the mappings of a document's `@context`, if it has one.
    pub fn load_from_doc(&mut self, doc: &JsonValue)
        ensures
            final(self).contexts == old(self).contexts,
            match member(doc@, "@context"@) {
                Some(ctx) => pairs_view(final(self).active_mappings@) == assoc_insert_all(
                    pairs_view(old(self).active_mappings@),
                    block_pairs(ctx),
                ),
                None => final(self).active_mappings == old(self).active_mappings,
            },
            keys_distinct(pairs_view(old(self).active_mappings@)) ==> keys_distinct(
                pairs_view(final(self).active_mappings@),
            ),
    {
        match doc.get("@context") {
            Some(ctx) => self.parse_context_block(ctx),
            None => {},
        }
        proof {
            if let Some(c) = member(doc@, "@context"@) {
                if keys_distinct(pairs_view(old(self).active_mappings@)) {
                    law_assoc_insert_all_keeps_keys_distinct(
                        pairs_view(old(self).active_mappings@),
                        block_pairs(c),
                    );
                }
            }
        }
    }

    /// Adds the mappings a context block declares, arrays recursively.
    fn parse_context_block(&mut self, ctx: &JsonValue)
        ensures
            final(self).contexts == old(self).contexts,
            pairs_view(final(self).active_mappings@) == assoc_insert_all(
                pairs_view(old(self).active_mappings@),
                block_pairs(ctx@),
            ),
        decreases ctx,
    {
        match ctx {
            JsonValue::Object(_) => {
                let pairs = crate::ontology::context_prefixes(ctx);
                let ghost m0 = pairs_view(self.active_mappings@);
                let mut i: usize = 0;
                while i < pairs.len()
                    invariant
                        i <= pairs@.len(),
                        pairs_view(pairs@) == block_pairs(ctx@),
                        pairs_view(self.active_mappings@) == assoc_insert_all(
                            m0,
                            pairs_view(pairs@).take(i as int),
                        ),
                        m0 == pairs_view(old(self).active_mappings@),
                        self.contexts == old(self).contexts,
                    decreases pairs.len() - i,
                {
                    proof {
                        assert(pairs_view(pairs@).take(i + 1).drop_last() =~= pairs_view(
                            pairs@,
                        ).take(i as int));
                    }
                    assoc_store(
                        &mut self.active_mappings,
                        pairs[i].0.as_str(),
                        pairs[i].1.as_str(),
                    );
                    i = i + 1;
                }
                proof {
                    assert(pairs_view(pairs@).take(pairs@.len() as int) =~= pairs_view(pairs@));
                }
            },
            JsonValue::Array(a) => {
                let ghost m0 = pairs_view(self.active_mappings@);
                let ghost items = jvs(a@);
                proof {
                    lemma_jvs(a@);
                }
                let mut i: usize = 0;
                while i < a.len()
                    invariant
                        *ctx == JsonValue::Array(*a),
                        i <= a@.len(),
                        items == jvs(a@),
                        items.len() == a@.len(),
                        forall|j: int| 0 <= j < a@.len() ==> #[trigger] items[j] == a@[j]@,
                        pairs_view(self.active_mappings@) == assoc_insert_all(
                            m0,
                            items_block_pairs(items.subrange(0, i as int)),
                        ),
                        m0 == pairs_view(old(self).active_mappings@),
                        self.contexts == old(self).contexts,
                    decreases a.len() - i,
                {
                    proof {
                        vstd::std_specs::vec::axiom_vec_decreases_to_view(*a);
                        vstd::seq::axiom_seq_index_decreases(a@, i as int);
                        assert(decreases_to!(*ctx => ctx->Array_0));
                        assert(decreases_to!(*a => a@));
                        assert(decreases_to!(a@ => a@[i as int]));
                        assert(decreases_to!(*ctx => a@[i as int]));
                    }
                    let ghost before = pairs_view(self.active_mappings@);
                    self.parse_context_block(&a[i]);
                    proof {
                        let s = items.subrange(0, i + 1);
                        assert(s.subrange(0, s.len() - 1) =~= items.subrange(0, i as int));
                        assert(s[s.len() - 1] == a@[i as int]@);
                        lemma_assoc_insert_all_concat(
                            m0,
                            items_block_pairs(items.subrange(0, i as int)),
                            block_pairs(a@[i as int]@),
                        );
                    }
                    i = i + 1;
                }
                proof {
                    assert(items.subrange(0, a@.len() as int) =~= items);
                }
            },
            _ => {
                proof {
                    assert(assoc_insert_all(pairs_view(self.active_mappings@), Seq::empty())
                        == pairs_view(self.active_mappings@));
                }
            },
        }
    }

    /// A term or compact IRI expanded to an absolute IRI (see
    /// `expand_term_at`); a cycle of aliases stops after six steps.
    pub fn expand_term(&self, term: &str) -> (r: String)
        ensures
            r@ == expand_term_at(pairs_view(self.active_mappings@), term@, 0),
    {
        self.expand_term_rec(term, 0)
    }

    fn expand_term_rec(&self, term: &str, depth: u8) -> (r: String)
        requires
            depth <= 6,
        ensures
            r@ == expand_term_at(pairs_view(self.active_mappings@), term@, depth as nat),
        decreases 6 - depth, 1int,
    {
        let t = to_chars(term);
        if depth >= 6 || VocabularyRegistry::is_iri(term) || (t.len() > 0 && t[0] == '@') {
            return term.to_owned();
        }
        match assoc_lookup(&self.active_mappings, term) {
            Some(mapped) => {
                if VocabularyRegistry::is_iri(mapped.as_str()) {
                    mapped
                } else {
                    self.expand_term_rec(mapped.as_str(), depth + 1)
                }
            },
            None => self.expand_curie(term, depth),
        }
    }

    fn expand_curie(&self, term: &str, depth: u8) -> (r: String)
        requires
            depth < 6,
        ensures
            r@ == expand_curie_at(pairs_view(self.active_mappings@), term@, depth as nat),
        decreases 6 - depth, 0int,
    {
        let t = to_chars(term);
        let i = find_char_pub(t.as_slice(), ':');
        if i < t.len() {
            let prefix = from_chars(slice_chars(t.as_slice(), 0, i).as_slice());
            match assoc_lookup(&self.active_mappings, prefix.as_str()) {
                Some(base) => {
                    let base_iri = self.expand_term_rec(base.as_str(), depth + 1);
                    let mut out = to_chars(base_iri.as_str());
                    let suffix = slice_chars(t.as_slice(), i + 1, t.len());
                    crate::json_text::push_all(&suffix, &mut out);
                    return from_chars(out.as_slice());
                },
                None => {},
            }
        }
        term.to_owned()
    }

    /// An absolute IRI compacted to `term:suffix` with the first namespace
    /// mapping it extends (see `compact_with`).
    pub fn compact_iri(&self, iri: &str) -> (r: String)
        ensures
            r@ == compact_with(pairs_view(self.active_mappings@), iri@),
    {
        let t = to_chars(iri);
        let mut i: usize = 0;
        proof {
            assert(pairs_view(self.active_mappings@).subrange(
                0,
                self.active_mappings@.len() as int,
            ) =~= pairs_view(self.active_mappings@));
        }
        while i < self.active_mappings.len()
            invariant
                i <= self.active_mappings@.len(),
                t@ == iri@,
                compact_with(pairs_view(self.active_mappings@), iri@) == compact_with(
                    pairs_view(self.active_mappings@).subrange(
                        i as int,
                        self.active_mappings@.len() as int,
                    ),
                    iri@,
                ),
            decreases self.active_mappings.len() - i,
        {
            let ghost rest = pairs_view(self.active_mappings@).subrange(
                i as int,
                self.active_mappings@.len() as int,
            );
            proof {
                assert(rest[0] == (self.active_mappings@[i as int].0@, self.active_mappings@[i as int].1@));
                assert(rest.drop_first() =~= pairs_view(self.active_mappings@).subrange(
                    i + 1,
                    self.active_mappings@.len() as int,
                ));
            }
            let m = to_chars(self.active_mappings[i].1.as_str());
            let ns = m.len() > 0 && (m[m.len() - 1] == '#' || m[m.len() - 1] == '/');
            if ns && crate::text::starts_with(t.as_slice(), m.as_slice()) && t.len() > m.len() {
                let mut out = to_chars(self.active_mappings[i].0.as_str());
                out.push(':');
                let suffix = slice_chars(t.as_slice(), m.len(), t.len());
                crate::json_text::push_all(&suffix, &mut out);
                proof {
                    assert(out@ =~= self.active_mappings@[i as int].0@ + seq![':'] + iri@.subrange(
                        m@.len() as int,
                        iri@.len() as int,
                    ));
                }
                return from_chars(out.as_slice());
            }
            i = i + 1;
        }
        iri.to_owned()
    }
}

} // verus!
