//! Reading an ontology layer (a JSON-LD document) into the vocabulary
//! registry: its prefixes, its classes and its properties.
use vstd::prelude::*;
use crate::error::{ErrorCode, RaiseError};
use crate::json::{JVal, JsonValue, entry_get, jents, jvs, lemma_jents, lemma_jvs, member};
use crate::parser::strings_view;
use crate::text::str_equal;
use crate::vocabulary::{
    ClassView, Class, Property, PropertyType, PropertyView, VocabularyRegistry, assoc_insert,
    class_insert, classes_view, expand_internal_spec, opt_view, pairs_view, properties_view,
    property_insert, keys_distinct, law_assoc_insert_keeps_keys_distinct,
};

verus! {

/// The strings a `@type`-like value names: the string itself, or the
/// strings among the items of an array.
pub open spec fn value_strings(v: JVal) -> Seq<Seq<char>> {
    match v {
        JVal::Str(s) => seq![s],
        JVal::Arr(a) => item_strings(a),
        _ => Seq::empty(),
    }
}

pub open spec fn item_strings(a: Seq<JVal>) -> Seq<Seq<char>>
    decreases a.len(),
{
    if a.len() == 0 {
        Seq::empty()
    } else {
        let rest = item_strings(a.drop_last());
        match a.last() {
            JVal::Str(s) => rest.push(s),
            _ => rest,
        }
    }
}

pub open spec fn opt_value_strings(v: Option<JVal>) -> Seq<Seq<char>> {
    match v {
        Some(x) => value_strings(x),
        None => Seq::empty(),
    }
}

/// The types a node declares, under `@type` and then under the RDF type IRI.
pub open spec fn node_types(node: JVal) -> Seq<Seq<char>> {
    opt_value_strings(member(node, "@type"@)) + opt_value_strings(
        member(node, "http://www.w3.org/1999/02/22-rdf-syntax-ns#type"@),
    )
}

/// The `@id` of an object's entries, or else its `@value`, when a string.
pub open spec fn id_or_value(e: Seq<(Seq<char>, JVal)>) -> Option<Seq<char>> {
    let picked = match entry_get(e, "@id"@) {
        Some(x) => Some(x),
        None => entry_get(e, "@value"@),
    };
    match picked {
        Some(JVal::Str(s)) => Some(s),
        _ => None,
    }
}

/// A property of a node read as a string: a string, an object's `@id` or
/// `@value`, or the same read from the first item of an array.
pub open spec fn string_prop(node: JVal, key: Seq<char>) -> Option<Seq<char>> {
    match member(node, key) {
        Some(JVal::Str(s)) => Some(s),
        Some(JVal::Obj(e)) => id_or_value(e),
        Some(JVal::Arr(a)) => if a.len() == 0 {
            None
        } else {
            match a[0] {
                JVal::Str(s) => Some(s),
                JVal::Obj(e) => id_or_value(e),
                _ => None,
            }
        },
        _ => None,
    }
}

pub open spec fn or_else(o: Option<Seq<char>>, d: Seq<char>) -> Seq<char> {
    match o {
        Some(x) => x,
        None => d,
    }
}

pub open spec fn expand_opt(m: Seq<(Seq<char>, Seq<char>)>, o: Option<Seq<char>>) -> Option<
    Seq<char>,
> {
    match o {
        Some(x) => Some(expand_internal_spec(m, x)),
        None => None,
    }
}

/// The class a graph node declares, with the prefixes `m`.
pub open spec fn node_class(m: Seq<(Seq<char>, Seq<char>)>, node: JVal) -> Option<ClassView> {
    match member(node, "@id"@) {
        Some(JVal::Str(raw)) => {
            let types = node_types(node);
            if types.contains("owl:Class"@) || types.contains("rdfs:Class"@) {
                Some(
                    ClassView {
                        iri: expand_internal_spec(m, raw),
                        label: or_else(string_prop(node, "rdfs:label"@), raw),
                        comment: or_else(string_prop(node, "rdfs:comment"@), Seq::empty()),
                        sub_class_of: expand_opt(m, string_prop(node, "rdfs:subClassOf"@)),
                    },
                )
            } else {
                None
            }
        },
        _ => None,
    }
}

/// The property a graph node declares, with the prefixes `m`.
pub open spec fn node_property(m: Seq<(Seq<char>, Seq<char>)>, node: JVal) -> Option<
    PropertyView,
> {
    match member(node, "@id"@) {
        Some(JVal::Str(raw)) => {
            let types = node_types(node);
            let is_obj = types.contains("owl:ObjectProperty"@);
            let is_data = types.contains("owl:DatatypeProperty"@);
            if is_obj || is_data {
                Some(
                    PropertyView {
                        iri: expand_internal_spec(m, raw),
                        label: or_else(string_prop(node, "rdfs:label"@), raw),
                        property_type: if is_obj {
                            PropertyType::ObjectProperty
                        } else {
                            PropertyType::DatatypeProperty
                        },
                        domain: expand_opt(m, string_prop(node, "rdfs:domain"@)),
                        range: expand_opt(m, string_prop(node, "rdfs:range"@)),
                    },
                )
            } else {
                None
            }
        },
        _ => None,
    }
}

/// The classes after reading the graph nodes in order.
pub open spec fn load_classes(
    cs: Seq<ClassView>,
    m: Seq<(Seq<char>, Seq<char>)>,
    nodes: Seq<JVal>,
) -> Seq<ClassView>
    decreases nodes.len(),
{
    if nodes.len() == 0 {
        cs
    } else {
        let before = load_classes(cs, m, nodes.drop_last());
        match node_class(m, nodes.last()) {
            Some(c) => class_insert(before, c),
            None => before,
        }
    }
}

/// The properties after reading the graph nodes in order.
pub open spec fn load_properties(
    ps: Seq<PropertyView>,
    m: Seq<(Seq<char>, Seq<char>)>,
    nodes: Seq<JVal>,
) -> Seq<PropertyView>
    decreases nodes.len(),
{
    if nodes.len() == 0 {
        ps
    } else {
        let before = load_properties(ps, m, nodes.drop_last());
        match node_property(m, nodes.last()) {
            Some(p) => property_insert(before, p),
            None => before,
        }
    }
}

/// The prefix declared by one `@context` entry: a string IRI, or the `@id`
/// string of an expanded definition.
pub open spec fn entry_prefix(v: JVal) -> Option<Seq<char>> {
    match v {
        JVal::Str(iri) => Some(iri),
        JVal::Obj(d) => match entry_get(d, "@id"@) {
            Some(JVal::Str(id)) => Some(id),
            _ => None,
        },
        _ => None,
    }
}

/// The prefixes declared by `@context` entries, in order.
pub open spec fn entries_prefixes(e: Seq<(Seq<char>, JVal)>) -> Seq<(Seq<char>, Seq<char>)>
    decreases e.len(),
{
    if e.len() == 0 {
        Seq::empty()
    } else {
        let rest = entries_prefixes(e.drop_last());
        match entry_prefix(e.last().1) {
            Some(iri) => rest.push((e.last().0, iri)),
            None => rest,
        }
    }
}

/// The prefixes declared by a `@context` value (an object; nothing else).
pub open spec fn context_prefixes_spec(ctx: JVal) -> Seq<(Seq<char>, Seq<char>)> {
    match ctx {
        JVal::Obj(e) => entries_prefixes(e),
        _ => Seq::empty(),
    }
}

/// The prefixes `m` with each of `pairs` recorded in order.
pub open spec fn assoc_insert_all(
    m: Seq<(Seq<char>, Seq<char>)>,
    pairs: Seq<(Seq<char>, Seq<char>)>,
) -> Seq<(Seq<char>, Seq<char>)>
    decreases pairs.len(),
{
    if pairs.len() == 0 {
        m
    } else {
        assoc_insert(assoc_insert_all(m, pairs.drop_last()), pairs.last().0, pairs.last().1)
    }
}

/// Recording several prefixes in a list where no prefix repeats leaves no
/// prefix repeated.
pub proof fn law_assoc_insert_all_keeps_keys_distinct(
    m: Seq<(Seq<char>, Seq<char>)>,
    pairs: Seq<(Seq<char>, Seq<char>)>,
)
    requires
        keys_distinct(m),
    ensures
        keys_distinct(assoc_insert_all(m, pairs)),
    decreases pairs.len(),
{
    if pairs.len() > 0 {
        law_assoc_insert_all_keeps_keys_distinct(m, pairs.drop_last());
        law_assoc_insert_keeps_keys_distinct(
            assoc_insert_all(m, pairs.drop_last()),
            pairs.last().0,
            pairs.last().1,
        );
    }
}

/// The nodes of a document's `@graph` array (none when absent).
pub open spec fn graph_nodes(doc: JVal) -> Seq<JVal> {
    match member(doc, "@graph"@) {
        Some(JVal::Arr(a)) => a,
        _ => Seq::empty(),
    }
}

pub(crate) fn push_value_strings(v: &JsonValue, out: &mut Vec<String>)
    ensures
        strings_view(final(out)@) == strings_view(old(out)@) + value_strings(v@),
{
    match v {
        JsonValue::String(s) => {
            out.push(s.clone());
            proof {
                assert(strings_view(out@) =~= strings_view(old(out)@) + value_strings(v@));
            }
        },
        JsonValue::Array(a) => {
            let ghost items = jvs(a@);
            proof {
                lemma_jvs(a@);
            }
            let mut i: usize = 0;
            while i < a.len()
                invariant
                    i <= a@.len(),
                    items == jvs(a@),
                    items.len() == a@.len(),
                    forall|j: int| 0 <= j < a@.len() ==> #[trigger] items[j] == a@[j]@,
                    strings_view(out@) == strings_view(old(out)@) + item_strings(
                        items.take(i as int),
                    ),
                decreases a.len() - i,
            {
                proof {
                    assert(items.take(i + 1).drop_last() =~= items.take(i as int));
                }
                match &a[i] {
                    JsonValue::String(s) => {
                        let ghost before = out@;
                        out.push(s.clone());
                        proof {
                            assert(strings_view(out@) =~= strings_view(before).push(s@));
                        }
                    },
                    _ => {},
                }
                i = i + 1;
            }
            proof {
                assert(items.take(a@.len() as int) =~= items);
            }
        },
        _ => {
            proof {
                assert(strings_view(out@) =~= strings_view(old(out)@) + value_strings(v@));
            }
        },
    }
}

/// The types a graph node declares.
pub fn extract_types(node: &JsonValue) -> (r: Vec<String>)
    ensures
        strings_view(r@) == node_types(node@),
{
    let mut types: Vec<String> = Vec::new();
    proof {
        assert(strings_view(types@) =~= Seq::<Seq<char>>::empty());
    }
    match node.get("@type") {
        Some(t) => push_value_strings(t, &mut types),
        None => {},
    }
    let ghost mid = strings_view(types@);
    proof {
        assert(mid =~= opt_value_strings(member(node@, "@type"@)));
    }
    match node.get("http://www.w3.org/1999/02/22-rdf-syntax-ns#type") {
        Some(t) => push_value_strings(t, &mut types),
        None => {},
    }
    proof {
        assert(strings_view(types@) =~= mid + opt_value_strings(
            member(node@, "http://www.w3.org/1999/02/22-rdf-syntax-ns#type"@),
        ));
    }
    types
}

fn id_or_value_of(o: &JsonValue) -> (r: Option<String>)
    ensures
        match o@ {
            JVal::Obj(e) => opt_view(r) == id_or_value(e),
            _ => r is None,
        },
{
    if !o.is_object() {
        return None;
    }
    let picked = match o.get("@id") {
        Some(x) => Some(x),
        None => o.get("@value"),
    };
    match picked {
        Some(x) => match x.as_str() {
            Some(s) => Some(s.clone()),
            None => None,
        },
        None => None,
    }
}

/// A property of a node read as a string (see `string_prop`).
pub fn get_string_prop(node: &JsonValue, key: &str) -> (r: Option<String>)
    ensures
        opt_view(r) == string_prop(node@, key@),
{
    match node.get(key) {
        Some(v) => match v {
            JsonValue::String(s) => Some(s.clone()),
            JsonValue::Object(_) => id_or_value_of(v),
            JsonValue::Array(a) => {
                proof {
                    lemma_jvs(a@);
                }
                if a.len() == 0 {
                    None
                } else {
                    match &a[0] {
                        JsonValue::String(s) => Some(s.clone()),
                        JsonValue::Object(_) => id_or_value_of(&a[0]),
                        _ => None,
                    }
                }
            },
            _ => None,
        },
        None => None,
    }
}

fn contains_string(v: &Vec<String>, s: &str) -> (b: bool)
    ensures
        b == strings_view(v@).contains(s@),
{
    let mut i: usize = 0;
    while i < v.len()
        invariant
            i <= v@.len(),
            forall|j: int| 0 <= j < i ==> v@[j]@ != s@,
        decreases v.len() - i,
    {
        if str_equal(v[i].as_str(), s) {
            assert(strings_view(v@)[i as int] == s@);
            return true;
        }
        i = i + 1;
    }
    proof {
        if strings_view(v@).contains(s@) {
            let k = choose|k: int| 0 <= k < strings_view(v@).len() && strings_view(v@)[k] == s@;
            assert(v@[k]@ == s@);
        }
    }
    false
}

/// The prefixes declared by a `@context` value.
pub fn context_prefixes(ctx: &JsonValue) -> (r: Vec<(String, String)>)
    ensures
        pairs_view(r@) == context_prefixes_spec(ctx@),
{
    let mut out: Vec<(String, String)> = Vec::new();
    match ctx {
        JsonValue::Object(o) => {
            let ghost e = jents(o@);
            proof {
                lemma_jents(o@);
            }
            let mut i: usize = 0;
            while i < o.len()
                invariant
                    i <= o@.len(),
                    e == jents(o@),
                    e.len() == o@.len(),
                    forall|j: int| 0 <= j < o@.len() ==> #[trigger] e[j] == (o@[j].0@, o@[j].1@),
                    pairs_view(out@) == entries_prefixes(e.take(i as int)),
                decreases o.len() - i,
            {
                proof {
                    assert(e.take(i + 1).drop_last() =~= e.take(i as int));
                }
                let val = &o[i].1;
                let found: Option<String> = match val {
                    JsonValue::String(iri) => Some(iri.clone()),
                    JsonValue::Object(_) => match val.get("@id") {
                        Some(x) => match x.as_str() {
                            Some(id) => Some(id.clone()),
                            None => None,
                        },
                        None => None,
                    },
                    _ => None,
                };
                match found {
                    Some(iri) => {
                        let ghost before = out@;
                        out.push((o[i].0.clone(), iri));
                        proof {
                            assert(pairs_view(out@) =~= pairs_view(before).push(
                                (o@[i as int].0@, iri@),
                            ));
                        }
                    },
                    None => {},
                }
                i = i + 1;
            }
            proof {
                assert(e.take(o@.len() as int) =~= e);
            }
        },
        _ => {
            proof {
                assert(pairs_view(out@) =~= Seq::<(Seq<char>, Seq<char>)>::empty());
            }
        },
    }
    out
}

impl VocabularyRegistry {
    /// The class a graph node declares, read with the current prefixes.
    pub fn node_class_of(&self, node: &JsonValue) -> (r: Option<Class>)
        ensures
            match node_class(pairs_view(self.default_context@), node@) {
                Some(c) => r matches Some(x) && x@ == c,
                None => r is None,
            },
    {
        let raw = match node.get("@id") {
            Some(x) => match x.as_str() {
                Some(s) => s,
                None => {
                    return None;
                },
            },
            None => {
                return None;
            },
        };
        let types = extract_types(node);
        if !(contains_string(&types, "owl:Class") || contains_string(&types, "rdfs:Class")) {
            return None;
        }
        let label = match get_string_prop(node, "rdfs:label") {
            Some(l) => l,
            None => raw.clone(),
        };
        let comment = match get_string_prop(node, "rdfs:comment") {
            Some(c) => c,
            None => String::new(),
        };
        let sub_class_of = match get_string_prop(node, "rdfs:subClassOf") {
            Some(p) => Some(self.expand_internal_term(p.as_str())),
            None => None,
        };
        Some(
            Class {
                iri: self.expand_internal_term(raw.as_str()),
                label,
                comment,
                sub_class_of,
            },
        )
    }

    /// The property a graph node declares, read with the current prefixes.
    pub fn node_property_of(&self, node: &JsonValue) -> (r: Option<Property>)
        ensures
            match node_property(pairs_view(self.default_context@), node@) {
                Some(p) => r matches Some(x) && x@ == p,
                None => r is None,
            },
    {
        let raw = match node.get("@id") {
            Some(x) => match x.as_str() {
                Some(s) => s,
                None => {
                    return None;
                },
            },
            None => {
                return None;
            },
        };
        let types = extract_types(node);
        let is_obj = contains_string(&types, "owl:ObjectProperty");
        let is_data = contains_string(&types, "owl:DatatypeProperty");
        if !(is_obj || is_data) {
            return None;
        }
        let label = match get_string_prop(node, "rdfs:label") {
            Some(l) => l,
            None => raw.clone(),
        };
        let domain = match get_string_prop(node, "rdfs:domain") {
            Some(d) => Some(self.expand_internal_term(d.as_str())),
            None => None,
        };
        let range = match get_string_prop(node, "rdfs:range") {
            Some(d) => Some(self.expand_internal_term(d.as_str())),
            None => None,
        };
        Some(
            Property {
                iri: self.expand_internal_term(raw.as_str()),
                label,
                property_type: if is_obj {
                    PropertyType::ObjectProperty
                } else {
                    PropertyType::DatatypeProperty
                },
                domain,
                range,
            },
        )
    }

    /// Reads an ontology layer: caches its `@context`, records the prefixes
    /// it declares, then the classes and properties of its `@graph`. A
    /// document without `@context` is refused and the registry is left as
    /// it was.
    pub fn load_layer_from_json(&mut self, layer: &str, doc: &JsonValue) -> (r: Result<
        (),
        RaiseError,
    >)
        ensures
            match member(doc@, "@context"@) {
                None => r matches Err(e) && e.code == ErrorCode::JsonLdContextMissing
                    && *final(self) == *old(self),
                Some(ctx) => {
                    &&& r is Ok
                    &&& jents(final(self).layer_contexts@) == crate::json::entries_insert(
                        jents(old(self).layer_contexts@),
                        layer@,
                        ctx,
                    )
                    &&& pairs_view(final(self).default_context@) == assoc_insert_all(
                        pairs_view(old(self).default_context@),
                        context_prefixes_spec(ctx),
                    )
                    &&& classes_view(final(self).classes@) == load_classes(
                        classes_view(old(self).classes@),
                        pairs_view(final(self).default_context@),
                        graph_nodes(doc@),
                    )
                    &&& properties_view(final(self).properties@) == load_properties(
                        properties_view(old(self).properties@),
                        pairs_view(final(self).default_context@),
                        graph_nodes(doc@),
                    )
                },
            },
    {
        let ctx = match doc.get("@context") {
            Some(c) => c,
            None => {
                return Err(RaiseError::new(ErrorCode::JsonLdContextMissing, layer));
            },
        };
        self.register_layer_context(layer, ctx.deep_clone());
        let prefixes = context_prefixes(ctx);
        let ghost m0 = pairs_view(self.default_context@);
        let mut i: usize = 0;
        while i < prefixes.len()
            invariant
                i <= prefixes@.len(),
                pairs_view(prefixes@) == context_prefixes_spec(ctx@),
                pairs_view(self.default_context@) == assoc_insert_all(
                    m0,
                    pairs_view(prefixes@).take(i as int),
                ),
                m0 == pairs_view(old(self).default_context@),
                jents(self.layer_contexts@) == crate::json::entries_insert(
                    jents(old(self).layer_contexts@),
                    layer@,
                    ctx@,
                ),
                self.classes == old(self).classes,
                self.properties == old(self).properties,
            decreases prefixes.len() - i,
        {
            proof {
                assert(pairs_view(prefixes@).take(i + 1).drop_last() =~= pairs_view(prefixes@).take(
                    i as int,
                ));
            }
            self.register_prefix(prefixes[i].0.as_str(), prefixes[i].1.as_str());
            i = i + 1;
        }
        proof {
            assert(pairs_view(prefixes@).take(prefixes@.len() as int) =~= pairs_view(prefixes@));
        }
        match doc.get("@graph") {
            Some(g) => match g.as_array() {
                Some(nodes) => {
                    let ghost ns = jvs(nodes@);
                    proof {
                        lemma_jvs(nodes@);
                    }
                    let ghost m = pairs_view(self.default_context@);
                    let ghost c0 = classes_view(self.classes@);
                    let ghost p0 = properties_view(self.properties@);
                    let mut k: usize = 0;
                    while k < nodes.len()
                        invariant
                            k <= nodes@.len(),
                            ns == jvs(nodes@),
                            ns == graph_nodes(doc@),
                            ns.len() == nodes@.len(),
                            forall|j: int| 0 <= j < nodes@.len() ==> #[trigger] ns[j] == nodes@[j]@,
                            pairs_view(self.default_context@) == m,
                            classes_view(self.classes@) == load_classes(c0, m, ns.take(k as int)),
                            properties_view(self.properties@) == load_properties(
                                p0,
                                m,
                                ns.take(k as int),
                            ),
                            jents(self.layer_contexts@) == crate::json::entries_insert(
                                jents(old(self).layer_contexts@),
                                layer@,
                                ctx@,
                            ),
                        decreases nodes.len() - k,
                    {
                        proof {
                            assert(ns.take(k + 1).drop_last() =~= ns.take(k as int));
                            assert(ns.take(k + 1).last() == nodes@[k as int]@);
                        }
                        let node = &nodes[k];
                        match self.node_class_of(node) {
                            Some(c) => self.register_class(c),
                            None => {},
                        }
                        match self.node_property_of(node) {
                            Some(p) => self.register_property(p),
                            None => {},
                        }
                        k = k + 1;
                    }
                    proof {
                        assert(ns.take(nodes@.len() as int) =~= ns);
                    }
                },
                None => {},
            },
            None => {},
        }
        Ok(())
    }
}

} // verus!
