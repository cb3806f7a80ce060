//! The ontology registry: prefixes, classes and properties of the modelling
//! layers, read from JSON-LD ontology documents.
use vstd::prelude::*;
use crate::error::{ErrorCode, RaiseError};
use crate::json::{
    JVal, JsonValue, entries_insert, entry_get, find_key, jents, lemma_entry_index, lemma_jents,
    object_insert,
};
use crate::text::{from_chars, has_prefix, slice_chars, starts_with, str_equal, to_chars};

verus! {

/// Whether a term is an absolute IRI (`http://`, `https://` or `urn:`).
pub open spec fn is_iri_spec(t: Seq<char>) -> bool {
    has_prefix(t, "http://"@) || has_prefix(t, "https://"@) || has_prefix(t, "urn:"@)
}

/// The value stored under `k` in an association list (first match).
pub open spec fn assoc_get(m: Seq<(Seq<char>, Seq<char>)>, k: Seq<char>) -> Option<Seq<char>>
    decreases m.len(),
{
    if m.len() == 0 {
        None
    } else if m[0].0 == k {
        Some(m[0].1)
    } else {
        assoc_get(m.drop_first(), k)
    }
}

/// An association list with `(k, v)` stored: replaced in place when `k` is
/// present, appended otherwise.
pub open spec fn assoc_insert(m: Seq<(Seq<char>, Seq<char>)>, k: Seq<char>, v: Seq<char>) -> Seq<
    (Seq<char>, Seq<char>),
>
    decreases m.len(),
{
    if m.len() == 0 {
        seq![(k, v)]
    } else if m[0].0 == k {
        m.update(0, (k, v))
    } else {
        seq![m[0]] + assoc_insert(m.drop_first(), k, v)
    }
}

/// The pairs of an association list of strings, as character sequences.
pub open spec fn pairs_view(m: Seq<(String, String)>) -> Seq<(Seq<char>, Seq<char>)> {
    m.map_values(|p: (String, String)| (p.0@, p.1@))
}

/// Looks `key` up in an association list of strings.
pub fn assoc_lookup(m: &Vec<(String, String)>, key: &str) -> (r: Option<String>)
    ensures
        match assoc_get(pairs_view(m@), key@) {
            Some(v) => r matches Some(x) && x@ == v,
            None => r is None,
        },
{
    let mut i: usize = 0;
    proof {
        assert(pairs_view(m@).subrange(0, m@.len() as int) =~= pairs_view(m@));
    }
    while i < m.len()
        invariant
            i <= m@.len(),
            assoc_get(pairs_view(m@), key@) == assoc_get(
                pairs_view(m@).subrange(i as int, m@.len() as int),
                key@,
            ),
        decreases m.len() - i,
    {
        let ghost rest = pairs_view(m@).subrange(i as int, m@.len() as int);
        proof {
            assert(rest[0] == (m@[i as int].0@, m@[i as int].1@));
            assert(rest.drop_first() =~= pairs_view(m@).subrange(i + 1, m@.len() as int));
        }
        if str_equal(m[i].0.as_str(), key) {
            return Some(m[i].1.clone());
        }
        i = i + 1;
    }
    None
}

/// Stores `(key, value)` in an association list of strings.
pub fn assoc_store(m: &mut Vec<(String, String)>, key: &str, value: &str)
    ensures
        pairs_view(final(m)@) == assoc_insert(pairs_view(old(m)@), key@, value@),
{
    let mut i: usize = 0;
    proof {
        assert(pairs_view(m@).subrange(0, m@.len() as int) =~= pairs_view(m@));
    }
    while i < m.len()
        invariant
            i <= m@.len(),
            m@ == old(m)@,
            forall|j: int| 0 <= j < i ==> m@[j].0@ != key@,
            assoc_insert(pairs_view(m@), key@, value@) == pairs_view(m@).subrange(0, i as int)
                + assoc_insert(pairs_view(m@).subrange(i as int, m@.len() as int), key@, value@),
        decreases m.len() - i,
    {
        let ghost rest = pairs_view(m@).subrange(i as int, m@.len() as int);
        proof {
            assert(rest[0] == (m@[i as int].0@, m@[i as int].1@));
            assert(rest.drop_first() =~= pairs_view(m@).subrange(i + 1, m@.len() as int));
        }
        if str_equal(m[i].0.as_str(), key) {
            let ghost before = m@;
            m.set(i, (key.to_owned(), value.to_owned()));
            proof {
                assert(pairs_view(m@) =~= pairs_view(before).subrange(0, i as int) + rest.update(
                    0,
                    (key@, value@),
                ));
            }
            return;
        }
        proof {
            assert(pairs_view(m@).subrange(0, i + 1) =~= pairs_view(m@).subrange(0, i as int)
                + seq![rest[0]]);
        }
        i = i + 1;
    }
    let ghost before = m@;
    m.push((key.to_owned(), value.to_owned()));
    proof {
        assert(pairs_view(m@) =~= pairs_view(before) + seq![(key@, value@)]);
        assert(pairs_view(before).subrange(0, before.len() as int) =~= pairs_view(before));
    }
}

#[derive(Debug, Clone, Copy, PartialEq, Eq, Structural)]
pub enum PropertyType {
    DatatypeProperty,
    ObjectProperty,
}

/// A class of an ontology.
#[derive(Debug, Clone)]
pub struct Class {
    pub iri: String,
    pub label: String,
    pub comment: String,
    pub sub_class_of: Option<String>,
}

/// A property of an ontology.
#[derive(Debug, Clone)]
pub struct Property {
    pub iri: String,
    pub label: String,
    pub property_type: PropertyType,
    pub domain: Option<String>,
    pub range: Option<String>,
}

/// An optional string as an optional character sequence.
pub open spec fn opt_view(o: Option<String>) -> Option<Seq<char>> {
    match o {
        Some(s) => Some(s@),
        None => None,
    }
}

/// The mathematical value of a class.
pub struct ClassView {
    pub iri: Seq<char>,
    pub label: Seq<char>,
    pub comment: Seq<char>,
    pub sub_class_of: Option<Seq<char>>,
}

impl View for Class {
    type V = ClassView;

    open spec fn view(&self) -> ClassView {
        ClassView {
            iri: self.iri@,
            label: self.label@,
            comment: self.comment@,
            sub_class_of: opt_view(self.sub_class_of),
        }
    }
}

/// The mathematical value of a property.
pub struct PropertyView {
    pub iri: Seq<char>,
    pub label: Seq<char>,
    pub property_type: PropertyType,
    pub domain: Option<Seq<char>>,
    pub range: Option<Seq<char>>,
}

impl View for Property {
    type V = PropertyView;

    open spec fn view(&self) -> PropertyView {
        PropertyView {
            iri: self.iri@,
            label: self.label@,
            property_type: self.property_type,
            domain: opt_view(self.domain),
            range: opt_view(self.range),
        }
    }
}

pub open spec fn classes_view(s: Seq<Class>) -> Seq<ClassView> {
    s.map_values(|c: Class| c@)
}

pub open spec fn properties_view(s: Seq<Property>) -> Seq<PropertyView> {
    s.map_values(|p: Property| p@)
}

/// The registry: classes and properties by IRI, the default prefixes, and
/// the raw `@context` of each loaded layer.
#[derive(Debug)]
pub struct VocabularyRegistry {
    pub classes: Vec<Class>,
    pub properties: Vec<Property>,
    pub default_context: Vec<(String, String)>,
    pub layer_contexts: Vec<(String, JsonValue)>,
}

/// The parent of class `iri` (its `sub_class_of`), when the class is known.
pub open spec fn parent_of(classes: Seq<ClassView>, iri: Seq<char>) -> Option<Option<Seq<char>>>
    decreases classes.len(),
{
    if classes.len() == 0 {
        None
    } else if classes[0].iri == iri {
        Some(classes[0].sub_class_of)
    } else {
        parent_of(classes.drop_first(), iri)
    }
}

/// The property `iri`, when known (first match).
pub open spec fn property_get(props: Seq<PropertyView>, iri: Seq<char>) -> Option<PropertyView>
    decreases props.len(),
{
    if props.len() == 0 {
        None
    } else if props[0].iri == iri {
        Some(props[0])
    } else {
        property_get(props.drop_first(), iri)
    }
}

/// The classes with `c` recorded: replacing the class of the same IRI,
/// appended otherwise.
pub open spec fn class_insert(cs: Seq<ClassView>, c: ClassView) -> Seq<ClassView>
    decreases cs.len(),
{
    if cs.len() == 0 {
        seq![c]
    } else if cs[0].iri == c.iri {
        cs.update(0, c)
    } else {
        seq![cs[0]] + class_insert(cs.drop_first(), c)
    }
}

/// The properties with `p` recorded: replacing the property of the same
/// IRI, appended otherwise.
pub open spec fn property_insert(ps: Seq<PropertyView>, p: PropertyView) -> Seq<PropertyView>
    decreases ps.len(),
{
    if ps.len() == 0 {
        seq![p]
    } else if ps[0].iri == p.iri {
        ps.update(0, p)
    } else {
        seq![ps[0]] + property_insert(ps.drop_first(), p)
    }
}

/// Whether `parent` is reached from `child` by following parents at most
/// `fuel` times.
pub open spec fn subtype_within(
    classes: Seq<ClassView>,
    child: Seq<char>,
    parent: Seq<char>,
    fuel: nat,
) -> bool
    decreases fuel,
{
    if child == parent {
        true
    } else if fuel == 0 {
        false
    } else {
        match parent_of(classes, child) {
            Some(Some(p)) => subtype_within(classes, p, parent, (fuel - 1) as nat),
            _ => false,
        }
    }
}

/// `parent_of` read at the first class of the IRI.
proof fn lemma_parent_of_index(cs: Seq<ClassView>, iri: Seq<char>, i: int)
    requires
        0 <= i <= cs.len(),
        forall|j: int| 0 <= j < i ==> cs[j].iri != iri,
        i < cs.len() ==> cs[i].iri == iri,
    ensures
        i < cs.len() ==> parent_of(cs, iri) == Some(cs[i].sub_class_of),
        i == cs.len() ==> parent_of(cs, iri) is None,
    decreases i,
{
    if i > 0 {
        lemma_parent_of_index(cs.drop_first(), iri, i - 1);
    }
}

fn find_class(classes: &Vec<Class>, iri: &str) -> (r: Option<usize>)
    ensures
        match r {
            Some(i) => i < classes@.len() && classes@[i as int].iri@ == iri@ && (forall|j: int|
                0 <= j < i ==> classes@[j].iri@ != iri@) && parent_of(classes_view(classes@), iri@)
                == Some(classes@[i as int]@.sub_class_of),
            None => (forall|j: int| 0 <= j < classes@.len() ==> classes@[j].iri@ != iri@)
                && parent_of(classes_view(classes@), iri@) is None,
        },
{
    let mut i: usize = 0;
    while i < classes.len()
        invariant
            i <= classes@.len(),
            forall|j: int| 0 <= j < i ==> classes@[j].iri@ != iri@,
        decreases classes.len() - i,
    {
        if str_equal(classes[i].iri.as_str(), iri) {
            proof {
                lemma_parent_of_index(classes_view(classes@), iri@, i as int);
            }
            return Some(i);
        }
        i = i + 1;
    }
    proof {
        lemma_parent_of_index(classes_view(classes@), iri@, i as int);
    }
    None
}

/// `class_insert` at the first class of the IRI, or past the end.
proof fn lemma_class_insert_index(cs: Seq<ClassView>, c: ClassView, i: int)
    requires
        0 <= i <= cs.len(),
        forall|j: int| 0 <= j < i ==> cs[j].iri != c.iri,
        i < cs.len() ==> cs[i].iri == c.iri,
    ensures
        i < cs.len() ==> class_insert(cs, c) == cs.update(i, c),
        i == cs.len() ==> class_insert(cs, c) == cs.push(c),
    decreases i,
{
    if i > 0 {
        lemma_class_insert_index(cs.drop_first(), c, i - 1);
        if i < cs.len() {
            assert(cs.update(i, c) =~= seq![cs[0]] + cs.drop_first().update(i - 1, c));
        } else {
            assert(cs.push(c) =~= seq![cs[0]] + cs.drop_first().push(c));
        }
    } else if cs.len() == 0 {
        assert(cs.push(c) =~= seq![c]);
    }
}

/// `property_insert` at the first property of the IRI, or past the end.
proof fn lemma_property_insert_index(ps: Seq<PropertyView>, p: PropertyView, i: int)
    requires
        0 <= i <= ps.len(),
        forall|j: int| 0 <= j < i ==> ps[j].iri != p.iri,
        i < ps.len() ==> ps[i].iri == p.iri,
    ensures
        i < ps.len() ==> property_insert(ps, p) == ps.update(i, p),
        i == ps.len() ==> property_insert(ps, p) == ps.push(p),
    decreases i,
{
    if i > 0 {
        lemma_property_insert_index(ps.drop_first(), p, i - 1);
        if i < ps.len() {
            assert(ps.update(i, p) =~= seq![ps[0]] + ps.drop_first().update(i - 1, p));
        } else {
            assert(ps.push(p) =~= seq![ps[0]] + ps.drop_first().push(p));
        }
    } else if ps.len() == 0 {
        assert(ps.push(p) =~= seq![p]);
    }
}

/// `property_get` read at the first property of the IRI.
proof fn lemma_property_get_index(ps: Seq<PropertyView>, iri: Seq<char>, i: int)
    requires
        0 <= i <= ps.len(),
        forall|j: int| 0 <= j < i ==> ps[j].iri != iri,
        i < ps.len() ==> ps[i].iri == iri,
    ensures
        i < ps.len() ==> property_get(ps, iri) == Some(ps[i]),
        i == ps.len() ==> property_get(ps, iri) is None,
    decreases i,
{
    if i > 0 {
        lemma_property_get_index(ps.drop_first(), iri, i - 1);
    }
}

impl VocabularyRegistry {
    /// An empty registry.
    pub fn new() -> (r: VocabularyRegistry)
        ensures
            r.classes@.len() == 0,
            r.properties@.len() == 0,
            r.default_context@.len() == 0,
            r.layer_contexts@.len() == 0,
    {
        VocabularyRegistry {
            classes: Vec::new(),
            properties: Vec::new(),
            default_context: Vec::new(),
            layer_contexts: Vec::new(),
        }
    }

    /// The registry the processing tests run against: the prefixes of the
    /// modelling layers and no class.
    pub fn init_mock_for_tests() -> (r: VocabularyRegistry)
        ensures
            pairs_view(r.default_context@) == seq![
                ("oa"@, "https://raise.io/oa#"@),
                ("sa"@, "https://raise.io/sa#"@),
                ("la"@, "https://raise.io/la#"@),
                ("pa"@, "https://raise.io/pa#"@),
                ("transverse"@, "https://raise.io/transverse#"@),
            ],
            r.classes@.len() == 0,
            r.properties@.len() == 0,
            r.layer_contexts@.len() == 0,
    {
        let default_context = vec![
            ("oa".to_owned(), "https://raise.io/oa#".to_owned()),
            ("sa".to_owned(), "https://raise.io/sa#".to_owned()),
            ("la".to_owned(), "https://raise.io/la#".to_owned()),
            ("pa".to_owned(), "https://raise.io/pa#".to_owned()),
            ("transverse".to_owned(), "https://raise.io/transverse#".to_owned()),
        ];
        let r = VocabularyRegistry {
            classes: Vec::new(),
            properties: Vec::new(),
            default_context,
            layer_contexts: Vec::new(),
        };
        assert(pairs_view(r.default_context@) =~= seq![
            ("oa"@, "https://raise.io/oa#"@),
            ("sa"@, "https://raise.io/sa#"@),
            ("la"@, "https://raise.io/la#"@),
            ("pa"@, "https://raise.io/pa#"@),
            ("transverse"@, "https://raise.io/transverse#"@),
        ]);
        r
    }

    /// The registry of the unit tests: every prefix of the platform, and the
    /// quality-rule classes (the RAISE rule refines the Arcadia rule).
    pub fn init_test_registry() -> (r: VocabularyRegistry)
        ensures
            pairs_view(r.default_context@) == seq![
                ("oa"@, "https://raise.io/ontology/arcadia/oa#"@),
                ("sa"@, "https://raise.io/ontology/arcadia/sa#"@),
                ("la"@, "https://raise.io/ontology/arcadia/la#"@),
                ("pa"@, "https://raise.io/ontology/arcadia/pa#"@),
                ("epbs"@, "https://raise.io/ontology/arcadia/epbs#"@),
                ("data"@, "https://raise.io/ontology/arcadia/data#"@),
                ("transverse"@, "https://raise.io/ontology/arcadia/transverse#"@),
                ("raise"@, "https://raise.io/ontology/raise#"@),
                ("arcadia"@, "https://raise.io/ontology/arcadia#"@),
            ],
            classes_view(r.classes@) == seq![
                ClassView {
                    iri: "https://raise.io/ontology/arcadia#QualityRule"@,
                    label: "Quality Rule"@,
                    comment: ""@,
                    sub_class_of: None,
                },
                ClassView {
                    iri: "https://raise.io/ontology/raise#QualityRule"@,
                    label: "RAISE Quality Rule"@,
                    comment: ""@,
                    sub_class_of: Some("https://raise.io/ontology/arcadia#QualityRule"@),
                },
                ClassView {
                    iri: "https://raise.io/ontology/arcadia#QualityAssessment"@,
                    label: "Quality Assessment"@,
                    comment: ""@,
                    sub_class_of: None,
                },
            ],
            r.properties@.len() == 0,
            r.layer_contexts@.len() == 0,
    {
        let default_context = vec![
            ("oa".to_owned(), "https://raise.io/ontology/arcadia/oa#".to_owned()),
            ("sa".to_owned(), "https://raise.io/ontology/arcadia/sa#".to_owned()),
            ("la".to_owned(), "https://raise.io/ontology/arcadia/la#".to_owned()),
            ("pa".to_owned(), "https://raise.io/ontology/arcadia/pa#".to_owned()),
            ("epbs".to_owned(), "https://raise.io/ontology/arcadia/epbs#".to_owned()),
            ("data".to_owned(), "https://raise.io/ontology/arcadia/data#".to_owned()),
            ("transverse".to_owned(), "https://raise.io/ontology/arcadia/transverse#".to_owned()),
            ("raise".to_owned(), "https://raise.io/ontology/raise#".to_owned()),
            ("arcadia".to_owned(), "https://raise.io/ontology/arcadia#".to_owned()),
        ];
        let classes = vec![
            Class {
                iri: "https://raise.io/ontology/arcadia#QualityRule".to_owned(),
                label: "Quality Rule".to_owned(),
                comment: "".to_owned(),
                sub_class_of: None,
            },
            Class {
                iri: "https://raise.io/ontology/raise#QualityRule".to_owned(),
                label: "RAISE Quality Rule".to_owned(),
                comment: "".to_owned(),
                sub_class_of: Some("https://raise.io/ontology/arcadia#QualityRule".to_owned()),
            },
            Class {
                iri: "https://raise.io/ontology/arcadia#QualityAssessment".to_owned(),
                label: "Quality Assessment".to_owned(),
                comment: "".to_owned(),
                sub_class_of: None,
            },
        ];
        let r = VocabularyRegistry {
            classes,
            properties: Vec::new(),
            default_context,
            layer_contexts: Vec::new(),
        };
        assert(pairs_view(r.default_context@) =~= seq![
            ("oa"@, "https://raise.io/ontology/arcadia/oa#"@),
            ("sa"@, "https://raise.io/ontology/arcadia/sa#"@),
            ("la"@, "https://raise.io/ontology/arcadia/la#"@),
            ("pa"@, "https://raise.io/ontology/arcadia/pa#"@),
            ("epbs"@, "https://raise.io/ontology/arcadia/epbs#"@),
            ("data"@, "https://raise.io/ontology/arcadia/data#"@),
            ("transverse"@, "https://raise.io/ontology/arcadia/transverse#"@),
            ("raise"@, "https://raise.io/ontology/raise#"@),
            ("arcadia"@, "https://raise.io/ontology/arcadia#"@),
        ]);
        assert(classes_view(r.classes@) =~= seq![
            ClassView {
                iri: "https://raise.io/ontology/arcadia#QualityRule"@,
                label: "Quality Rule"@,
                comment: ""@,
                sub_class_of: None,
            },
            ClassView {
                iri: "https://raise.io/ontology/raise#QualityRule"@,
                label: "RAISE Quality Rule"@,
                comment: ""@,
                sub_class_of: Some("https://raise.io/ontology/arcadia#QualityRule"@),
            },
            ClassView {
                iri: "https://raise.io/ontology/arcadia#QualityAssessment"@,
                label: "Quality Assessment"@,
                comment: ""@,
                sub_class_of: None,
            },
        ]);
        r
    }

    /// Whether a term is an absolute IRI.
    pub fn is_iri(term: &str) -> (b: bool)
        ensures
            b == is_iri_spec(term@),
    {
        let t = to_chars(term);
        starts_with(t.as_slice(), to_chars("http://").as_slice()) || starts_with(
            t.as_slice(),
            to_chars("https://").as_slice(),
        ) || starts_with(t.as_slice(), to_chars("urn:").as_slice())
    }

    /// A term expanded with the default prefixes: IRIs as they are,
    /// `prefix:suffix` with a known prefix as the prefix's IRI followed by
    /// the suffix, anything else as it is.
    pub fn expand_internal_term(&self, term: &str) -> (r: String)
        ensures
            r@ == expand_internal_spec(pairs_view(self.default_context@), term@),
    {
        if Self::is_iri(term) {
            return term.to_owned();
        }
        let t = to_chars(term);
        let i = crate::parser::find_char_pub(t.as_slice(), ':');
        if i < t.len() {
            let prefix = from_chars(slice_chars(t.as_slice(), 0, i).as_slice());
            let suffix = slice_chars(t.as_slice(), i + 1, t.len());
            match assoc_lookup(&self.default_context, prefix.as_str()) {
                Some(base) => {
                    let mut out = to_chars(base.as_str());
                    crate::json_text::push_all(&suffix, &mut out);
                    return from_chars(out.as_slice());
                },
                None => {},
            }
        }
        term.to_owned()
    }

    /// The raw `@context` of a loaded layer.
    pub fn get_context_for_layer(&self, layer: &str) -> (r: Option<JsonValue>)
        ensures
            match entry_get(jents(self.layer_contexts@), layer@) {
                Some(c) => r matches Some(x) && x@ == c,
                None => r is None,
            },
    {
        let i = find_key(&self.layer_contexts, layer);
        proof {
            lemma_jents(self.layer_contexts@);
            lemma_entry_index(jents(self.layer_contexts@), layer@);
        }
        if i < self.layer_contexts.len() {
            Some(self.layer_contexts[i].1.deep_clone())
        } else {
            None
        }
    }

    /// The class `iri`, when known.
    pub fn get_class(&self, iri: &str) -> (r: Option<&Class>)
        ensures
            match parent_of(classes_view(self.classes@), iri@) {
                Some(p) => r matches Some(c) && c.iri@ == iri@ && c@.sub_class_of == p,
                None => r is None,
            },
    {
        match find_class(&self.classes, iri) {
            Some(i) => Some(&self.classes[i]),
            None => None,
        }
    }

    pub fn has_class(&self, iri: &str) -> (b: bool)
        ensures
            b == (parent_of(classes_view(self.classes@), iri@) is Some),
    {
        find_class(&self.classes, iri).is_some()
    }

    /// The property `iri`, when known.
    pub fn get_property(&self, iri: &str) -> (r: Option<&Property>)
        ensures
            match property_get(properties_view(self.properties@), iri@) {
                Some(p) => r matches Some(x) && x@ == p,
                None => r is None,
            },
    {
        let mut i: usize = 0;
        while i < self.properties.len()
            invariant
                i <= self.properties@.len(),
                forall|j: int| 0 <= j < i ==> self.properties@[j].iri@ != iri@,
            decreases self.properties.len() - i,
        {
            if str_equal(self.properties[i].iri.as_str(), iri) {
                proof {
                    lemma_property_get_index(properties_view(self.properties@), iri@, i as int);
                }
                return Some(&self.properties[i]);
            }
            i = i + 1;
        }
        proof {
            lemma_property_get_index(properties_view(self.properties@), iri@, i as int);
        }
        None
    }

    /// Whether `parent_iri` is `child_iri` or one of its ancestors. The
    /// ancestors are followed at most as many times as there are classes,
    /// which reaches every ancestor of an acyclic hierarchy and stops on a
    /// cyclic one.
    pub fn is_subtype_of(&self, child_iri: &str, parent_iri: &str) -> (b: bool)
        ensures
            b == subtype_within(
                classes_view(self.classes@),
                child_iri@,
                parent_iri@,
                self.classes@.len(),
            ),
    {
        let mut cur = child_iri.to_owned();
        let mut fuel: usize = self.classes.len();
        loop
            invariant
                fuel <= self.classes@.len(),
                subtype_within(
                    classes_view(self.classes@),
                    child_iri@,
                    parent_iri@,
                    self.classes@.len(),
                ) == subtype_within(classes_view(self.classes@), cur@, parent_iri@, fuel as nat),
            decreases fuel,
        {
            if str_equal(cur.as_str(), parent_iri) {
                return true;
            }
            if fuel == 0 {
                return false;
            }
            match find_class(&self.classes, cur.as_str()) {
                Some(i) => match &self.classes[i].sub_class_of {
                    Some(p) => {
                        cur = p.clone();
                        fuel = fuel - 1;
                    },
                    None => {
                        return false;
                    },
                },
                None => {
                    return false;
                },
            }
        }
    }

    /// The default prefixes.
    pub fn get_default_context(&self) -> (r: &Vec<(String, String)>)
        ensures
            r == &self.default_context,
    {
        &self.default_context
    }

    /// Records a prefix.
    pub fn register_prefix(&mut self, prefix: &str, iri: &str)
        ensures
            pairs_view(final(self).default_context@) == assoc_insert(
                pairs_view(old(self).default_context@),
                prefix@,
                iri@,
            ),
            final(self).classes == old(self).classes,
            final(self).properties == old(self).properties,
            final(self).layer_contexts == old(self).layer_contexts,
    {
        assoc_store(&mut self.default_context, prefix, iri);
    }

    /// Records a class, replacing the class of the same IRI.
    pub fn register_class(&mut self, class: Class)
        ensures
            classes_view(final(self).classes@) == class_insert(
                classes_view(old(self).classes@),
                class@,
            ),
            final(self).properties == old(self).properties,
            final(self).default_context == old(self).default_context,
            final(self).layer_contexts == old(self).layer_contexts,
    {
        let ghost before = self.classes@;
        match find_class(&self.classes, class.iri.as_str()) {
            Some(i) => {
                proof {
                    lemma_class_insert_index(classes_view(before), class@, i as int);
                }
                self.classes.set(i, class);
                proof {
                    assert(classes_view(self.classes@) =~= classes_view(before).update(
                        i as int,
                        class@,
                    ));
                }
            },
            None => {
                proof {
                    lemma_class_insert_index(classes_view(before), class@, before.len() as int);
                }
                self.classes.push(class);
                proof {
                    assert(classes_view(self.classes@) =~= classes_view(before).push(class@));
                }
            },
        }
    }

    /// Records a property, replacing the property of the same IRI.
    pub fn register_property(&mut self, property: Property)
        ensures
            properties_view(final(self).properties@) == property_insert(
                properties_view(old(self).properties@),
                property@,
            ),
            final(self).classes == old(self).classes,
            final(self).default_context == old(self).default_context,
            final(self).layer_contexts == old(self).layer_contexts,
    {
        let ghost before = self.properties@;
        let mut i: usize = 0;
        while i < self.properties.len()
            invariant
                i <= self.properties@.len(),
                self.properties@ == before,
                before == old(self).properties@,
                self.classes == old(self).classes,
                self.default_context == old(self).default_context,
                self.layer_contexts == old(self).layer_contexts,
                forall|j: int| 0 <= j < i ==> self.properties@[j].iri@ != property.iri@,
            decreases self.properties.len() - i,
        {
            if str_equal(self.properties[i].iri.as_str(), property.iri.as_str()) {
                proof {
                    lemma_property_insert_index(properties_view(before), property@, i as int);
                }
                self.properties.set(i, property);
                proof {
                    assert(properties_view(self.properties@) =~= properties_view(before).update(
                        i as int,
                        property@,
                    ));
                }
                return;
            }
            i = i + 1;
        }
        proof {
            lemma_property_insert_index(properties_view(before), property@, i as int);
        }
        self.properties.push(property);
        proof {
            assert(properties_view(self.properties@) =~= properties_view(before).push(property@));
        }
    }

    /// Records the raw `@context` of a layer, replacing an earlier one.
    pub fn register_layer_context(&mut self, layer: &str, ctx: JsonValue)
        ensures
            jents(final(self).layer_contexts@) == entries_insert(
                jents(old(self).layer_contexts@),
                layer@,
                ctx@,
            ),
            final(self).classes == old(self).classes,
            final(self).properties == old(self).properties,
            final(self).default_context == old(self).default_context,
    {
        object_insert(&mut self.layer_contexts, layer, ctx);
    }
}

/// A term expanded with the default prefixes (see `expand_internal_term`).
pub open spec fn expand_internal_spec(m: Seq<(Seq<char>, Seq<char>)>, t: Seq<char>) -> Seq<char> {
    if is_iri_spec(t) {
        t
    } else {
        let i = crate::parser::first_index_of(t, ':');
        if i >= 0 && assoc_get(m, t.subrange(0, i)) is Some {
            assoc_get(m, t.subrange(0, i)).unwrap() + t.subrange(i + 1, t.len() as int)
        } else {
            t
        }
    }
}

/// After a class is recorded, looking its IRI up gives its parent.
pub proof fn law_register_class_lookup(cs: Seq<ClassView>, c: ClassView)
    ensures
        parent_of(class_insert(cs, c), c.iri) == Some(c.sub_class_of),
    decreases cs.len(),
{
    if cs.len() > 0 && cs[0].iri != c.iri {
        law_register_class_lookup(cs.drop_first(), c);
        assert((seq![cs[0]] + class_insert(cs.drop_first(), c)).drop_first() =~= class_insert(
            cs.drop_first(),
            c,
        ));
    }
}

/// Recording a class leaves the lookup of every other IRI unchanged.
pub proof fn law_register_class_other(cs: Seq<ClassView>, c: ClassView, iri: Seq<char>)
    requires
        iri != c.iri,
    ensures
        parent_of(class_insert(cs, c), iri) == parent_of(cs, iri),
    decreases cs.len(),
{
    if cs.len() == 0 {
        assert(seq![c].drop_first() =~= Seq::<ClassView>::empty());
        assert(parent_of(seq![c], iri) == parent_of(Seq::<ClassView>::empty(), iri));
    } else {
        if cs[0].iri == c.iri {
            assert(cs.update(0, c).drop_first() =~= cs.drop_first());
            assert(parent_of(cs.update(0, c), iri) == parent_of(cs.drop_first(), iri));
        } else {
            let ins = seq![cs[0]] + class_insert(cs.drop_first(), c);
            law_register_class_other(cs.drop_first(), c, iri);
            assert(ins.drop_first() =~= class_insert(cs.drop_first(), c));
            assert(ins[0] == cs[0]);
            assert(parent_of(ins, iri) == parent_of(cs, iri));
        }
    }
}

/// Every class is a subtype of itself.
pub proof fn law_subtype_reflexive(cs: Seq<ClassView>, iri: Seq<char>, fuel: nat)
    ensures
        subtype_within(cs, iri, iri, fuel),
{
}

/// A class is a subtype of its declared parent.
pub proof fn law_subtype_of_parent(cs: Seq<ClassView>, child: Seq<char>, parent: Seq<char>)
    requires
        parent_of(cs, child) == Some(Some(parent)),
    ensures
        subtype_within(cs, child, parent, cs.len()),
{
    lemma_parent_known_nonempty(cs, child);
    assert(subtype_within(cs, parent, parent, (cs.len() - 1) as nat));
}

proof fn lemma_parent_known_nonempty(cs: Seq<ClassView>, iri: Seq<char>)
    requires
        parent_of(cs, iri) is Some,
    ensures
        cs.len() > 0,
{
}

/// An absolute IRI is left as it is by prefix expansion.
pub proof fn law_expand_keeps_iri(m: Seq<(Seq<char>, Seq<char>)>, t: Seq<char>)
    requires
        is_iri_spec(t),
    ensures
        expand_internal_spec(m, t) == t,
{
}

/// After a prefix is recorded, looking it up gives its IRI.
pub proof fn law_assoc_insert_lookup(
    m: Seq<(Seq<char>, Seq<char>)>,
    k: Seq<char>,
    v: Seq<char>,
)
    ensures
        assoc_get(assoc_insert(m, k, v), k) == Some(v),
    decreases m.len(),
{
    if m.len() > 0 && m[0].0 != k {
        law_assoc_insert_lookup(m.drop_first(), k, v);
        assert((seq![m[0]] + assoc_insert(m.drop_first(), k, v)).drop_first() =~= assoc_insert(
            m.drop_first(),
            k,
            v,
        ));
    }
}

/// No prefix occurs twice in an association list.
pub open spec fn keys_distinct(m: Seq<(Seq<char>, Seq<char>)>) -> bool {
    forall|i: int, j: int| 0 <= i < j < m.len() ==> #[trigger] m[i].0 != #[trigger] m[j].0
}

proof fn lemma_assoc_insert_keys(m: Seq<(Seq<char>, Seq<char>)>, k: Seq<char>, v: Seq<char>)
    ensures
        forall|j: int| 0 <= j < assoc_insert(m, k, v).len() ==> (#[trigger] assoc_insert(m, k, v)[j]).0 == k
            || exists|i: int| 0 <= i < m.len() && m[i].0 == assoc_insert(m, k, v)[j].0,
    decreases m.len(),
{
    if m.len() > 0 && m[0].0 != k {
        let rest = m.drop_first();
        lemma_assoc_insert_keys(rest, k, v);
        let ins = assoc_insert(m, k, v);
        assert forall|j: int| 0 <= j < ins.len() implies (#[trigger] ins[j]).0 == k
            || exists|i: int| 0 <= i < m.len() && m[i].0 == ins[j].0 by {
            if j == 0 {
                assert(m[0].0 == ins[0].0);
            } else {
                assert(ins[j] == assoc_insert(rest, k, v)[j - 1]);
                if ins[j].0 != k {
                    let i = choose|i: int| 0 <= i < rest.len() && rest[i].0 == assoc_insert(rest, k, v)[j - 1].0;
                    assert(m[i + 1] == rest[i]);
                }
            }
        }
    } else if m.len() > 0 {
        let ins = assoc_insert(m, k, v);
        assert forall|j: int| 0 <= j < ins.len() implies (#[trigger] ins[j]).0 == k
            || exists|i: int| 0 <= i < m.len() && m[i].0 == ins[j].0 by {
            if j > 0 {
                assert(ins[j] == m[j]);
            }
        }
    }
}

/// Recording a prefix in a list where no prefix repeats leaves no prefix
/// repeated.
pub proof fn law_assoc_insert_keeps_keys_distinct(
    m: Seq<(Seq<char>, Seq<char>)>,
    k: Seq<char>,
    v: Seq<char>,
)
    requires
        keys_distinct(m),
    ensures
        keys_distinct(assoc_insert(m, k, v)),
    decreases m.len(),
{
    if m.len() > 0 && m[0].0 != k {
        let rest = m.drop_first();
        assert(keys_distinct(rest)) by {
            assert forall|i: int, j: int| 0 <= i < j < rest.len() implies #[trigger] rest[i].0
                != #[trigger] rest[j].0 by {
                assert(rest[i] == m[i + 1] && rest[j] == m[j + 1]);
            }
        }
        law_assoc_insert_keeps_keys_distinct(rest, k, v);
        lemma_assoc_insert_keys(rest, k, v);
        let tail = assoc_insert(rest, k, v);
        let ins = assoc_insert(m, k, v);
        assert forall|i: int, j: int| 0 <= i < j < ins.len() implies #[trigger] ins[i].0
            != #[trigger] ins[j].0 by {
            assert(ins[j] == tail[j - 1]);
            if i == 0 {
                if tail[j - 1].0 != k {
                    let x = choose|x: int| 0 <= x < rest.len() && rest[x].0 == tail[j - 1].0;
                    assert(rest[x] == m[x + 1]);
                }
            } else {
                assert(ins[i] == tail[i - 1]);
            }
        }
    } else if m.len() > 0 {
        let ins = assoc_insert(m, k, v);
        assert forall|i: int, j: int| 0 <= i < j < ins.len() implies #[trigger] ins[i].0
            != #[trigger] ins[j].0 by {
            assert(ins[j] == m[j]);
            if i > 0 {
                assert(ins[i] == m[i]);
            }
        }
    }
}

/// Recording a prefix leaves the lookup of every other prefix unchanged.
pub proof fn law_assoc_insert_other(
    m: Seq<(Seq<char>, Seq<char>)>,
    k: Seq<char>,
    v: Seq<char>,
    other: Seq<char>,
)
    requires
        other != k,
    ensures
        assoc_get(assoc_insert(m, k, v), other) == assoc_get(m, other),
    decreases m.len(),
{
    if m.len() == 0 {
        assert(seq![(k, v)].drop_first() =~= Seq::<(Seq<char>, Seq<char>)>::empty());
        assert(assoc_get(seq![(k, v)], other) == assoc_get(
            Seq::<(Seq<char>, Seq<char>)>::empty(),
            other,
        ));
    } else {
        if m[0].0 == k {
            assert(m.update(0, (k, v)).drop_first() =~= m.drop_first());
            assert(assoc_get(m.update(0, (k, v)), other) == assoc_get(m.drop_first(), other));
        } else {
            let ins = seq![m[0]] + assoc_insert(m.drop_first(), k, v);
            law_assoc_insert_other(m.drop_first(), k, v, other);
            assert(ins.drop_first() =~= assoc_insert(m.drop_first(), k, v));
            assert(ins[0] == m[0]);
            assert(assoc_get(ins, other) == assoc_get(m, other));
        }
    }
}

} // verus!
