//! The semantic layer over the collections: ontologies registered in the
//! system index, and knowledge-graph nodes checked against the vocabulary
//! before they are stored.
use vstd::prelude::*;
use crate::collections::CollectionsManager;
use crate::context::{block_pairs, expand_term_at};
use crate::error::{ErrorCode, RaiseError};
use crate::json::{entries_insert, entry_get, jents, lemma_jents, member, JVal, JsonValue};
use crate::json_text::push_all;
use crate::ontology::assoc_insert_all;
use crate::processor::{doc_entries, field_present, rewrite_val, types_of, JsonLdProcessor};
use crate::system_index::{empty_arr, empty_obj, set_member, settable};
use crate::text::{from_chars, split_chars, split_spec, to_chars};
use crate::vocabulary::{classes_view, pairs_view, parent_of, VocabularyRegistry};

verus! {

/// The id of the document of an ontology: `ontology_{namespace}`.
pub open spec fn ontology_id(namespace: Seq<char>) -> Seq<char> {
    "ontology_"@ + namespace
}

/// The knowledge-graph side of a database.
#[derive(Debug)]
pub struct SemanticManager {
    pub db_manager: CollectionsManager,
    pub processor: JsonLdProcessor,
}

/// The entry of an ontology in the system index: its URI, version and
/// (no) imports.
pub open spec fn ontology_entry_spec(space: Seq<char>, db: Seq<char>, namespace: Seq<char>, version: Seq<char>) -> JVal {
    JVal::Obj(
        seq![
            ("uri"@, JVal::Str(
                "db://"@ + space + "/"@ + db + "/_ontologies/"@ + ontology_id(namespace) + ".json"@,
            )),
            ("version"@, JVal::Str(version)),
            ("imports"@, empty_arr()),
        ],
    )
}

/// The system index with the ontology `namespace` registered as `entry`:
/// its `ontologies` made an object when it is not one.
pub open spec fn register_spec(sys: JVal, namespace: Seq<char>, entry: JVal) -> JVal {
    let s1 = match sys {
        JVal::Null => JVal::Obj(seq![("ontologies"@, empty_obj())]),
        JVal::Obj(e) => if entry_get(e, "ontologies"@) matches Some(JVal::Obj(_)) {
            sys
        } else {
            JVal::Obj(entries_insert(e, "ontologies"@, empty_obj()))
        },
        _ => sys,
    };
    match s1 {
        JVal::Obj(e1) => match entry_get(e1, "ontologies"@) {
            Some(JVal::Obj(o)) => JVal::Obj(
                entries_insert(e1, "ontologies"@, JVal::Obj(entries_insert(o, namespace, entry))),
            ),
            _ => s1,
        },
        _ => s1,
    }
}

/// The system index without the ontology `namespace`.
pub open spec fn unregister_spec(sys: JVal, namespace: Seq<char>) -> JVal {
    match sys {
        JVal::Obj(e) => match entry_get(e, "ontologies"@) {
            Some(JVal::Obj(o)) => JVal::Obj(
                entries_insert(e, "ontologies"@, JVal::Obj(crate::json::entries_remove(o, namespace))),
            ),
            _ => sys,
        },
        _ => sys,
    }
}

/// The layer a collection belongs to: its name up to the first `_`.
pub open spec fn layer_prefix_spec(collection: Seq<char>) -> Seq<char> {
    split_spec(collection, '_')[0]
}

/// A node object without `@context` receives the context the vocabulary
/// holds for its layer, when it holds one.
pub open spec fn mbse_context_spec(node: JVal, vocab: VocabularyRegistry, layer: Seq<char>) -> JVal {
    match node {
        JVal::Obj(e) => if entry_get(e, "@context"@) is None {
            match entry_get(jents(vocab.layer_contexts@), layer) {
                Some(c) => JVal::Obj(entries_insert(e, "@context"@, c)),
                None => node,
            }
        } else {
            node
        },
        _ => node,
    }
}

/// The term mappings a node is read with: the vocabulary's prefixes and
/// the node's own context.
pub open spec fn node_mappings(vocab: VocabularyRegistry, node: JVal) -> Seq<(Seq<char>, Seq<char>)> {
    match member(node, "@context"@) {
        Some(ctx) => assoc_insert_all(pairs_view(vocab.default_context@), block_pairs(ctx)),
        None => pairs_view(vocab.default_context@),
    }
}

/// Why a node is refused: it lacks `@id` or `@type`, or its first type,
/// expanded, is no class of the vocabulary.
pub open spec fn semantic_check_spec(vocab: VocabularyRegistry, node: JVal) -> Option<ErrorCode> {
    let m = node_mappings(vocab, node);
    if !(field_present(m, doc_entries(node), "@id"@) && field_present(m, doc_entries(node), "@type"@)) {
        Some(ErrorCode::SemanticValidationFail)
    } else {
        let ts = types_of(m, doc_entries(node));
        if ts.len() == 0 {
            None
        } else if parent_of(classes_view(vocab.classes@), expand_term_at(m, ts[0], 0)) is Some {
            None
        } else {
            Some(ErrorCode::SemanticUnknownType)
        }
    }
}

impl SemanticManager {
    /// The semantic layer over a database, reading with the vocabulary's
    /// prefixes.
    pub fn new(db_manager: CollectionsManager, registry: &VocabularyRegistry) -> (r: SemanticManager)
        ensures
            r.db_manager == db_manager,
            r.processor.mappings() == pairs_view(registry.default_context@),
    {
        SemanticManager { db_manager, processor: JsonLdProcessor::new(registry) }
    }

    /// The document an ontology is stored as: its content with the id
    /// `ontology_{namespace}` when it is an object.
    pub fn ontology_document(&self, namespace: &str, content: &JsonValue) -> (r: JsonValue)
        ensures
            r@ == set_member(content@, "_id"@, JVal::Str(ontology_id(namespace@))),
    {
        let mut id = to_chars("ontology_");
        push_all(&to_chars(namespace), &mut id);
        let mut doc = content.deep_clone();
        doc.insert("_id", JsonValue::String(from_chars(id.as_slice())));
        doc
    }

    /// The entry of an ontology in the system index (see
    /// `ontology_entry_spec`).
    pub fn ontology_entry(&self, namespace: &str, version: &str) -> (r: JsonValue)
        ensures
            r@ == ontology_entry_spec(self.db_manager.space@, self.db_manager.db@, namespace@, version@),
    {
        let mut uri = to_chars("db://");
        push_all(&to_chars(self.db_manager.space.as_str()), &mut uri);
        push_all(&to_chars("/"), &mut uri);
        push_all(&to_chars(self.db_manager.db.as_str()), &mut uri);
        push_all(&to_chars("/_ontologies/"), &mut uri);
        push_all(&to_chars("ontology_"), &mut uri);
        push_all(&to_chars(namespace), &mut uri);
        push_all(&to_chars(".json"), &mut uri);
        assert(uri@ =~= "db://"@ + self.db_manager.space@ + "/"@ + self.db_manager.db@ + "/_ontologies/"@
            + ontology_id(namespace@) + ".json"@);
        let o = vec![
            ("uri".to_owned(), JsonValue::String(from_chars(uri.as_slice()))),
            ("version".to_owned(), JsonValue::String(version.to_owned())),
            ("imports".to_owned(), JsonValue::Array(Vec::new())),
        ];
        proof {
            lemma_jents(o@);
            crate::json::lemma_jvs(Seq::<JsonValue>::empty());
            assert(crate::json::jvs(Seq::<JsonValue>::empty()) =~= Seq::empty());
            assert(jents(o@) =~= match ontology_entry_spec(
                self.db_manager.space@,
                self.db_manager.db@,
                namespace@,
                version@,
            ) {
                JVal::Obj(e) => e,
                _ => Seq::empty(),
            });
        }
        JsonValue::Object(o)
    }

    /// Registers the ontology `namespace` as `entry` in the system index
    /// `sys` (see `register_spec`).
    pub fn register_ontology(&self, sys: &mut JsonValue, namespace: &str, entry: JsonValue)
        requires
            settable(old(sys)@),
        ensures
            final(sys)@ == register_spec(old(sys)@, namespace@, entry@),
    {
        let needs = match sys.get("ontologies") {
            Some(JsonValue::Object(_)) => false,
            _ => true,
        };
        if needs {
            let e = crate::system_index::new_empty_object();
            if sys.is_null() {
                let o = vec![("ontologies".to_owned(), e)];
                proof {
                    lemma_jents(o@);
                    assert(jents(o@) =~= seq![("ontologies"@, empty_obj())]);
                }
                *sys = JsonValue::Object(o);
            } else {
                sys.insert("ontologies", e);
            }
        }
        let cur = match sys.get("ontologies") {
            Some(v) => v.deep_clone(),
            None => JsonValue::Null,
        };
        match cur {
            JsonValue::Object(mut o2) => {
                crate::json::object_insert(&mut o2, namespace, entry);
                sys.insert("ontologies", JsonValue::Object(o2));
            },
            _ => {},
        }
    }

    /// Takes the ontology `namespace` out of the system index `sys`.
    pub fn unregister_ontology(&self, sys: &mut JsonValue, namespace: &str)
        ensures
            final(sys)@ == unregister_spec(old(sys)@, namespace@),
    {
        if !sys.is_object() {
            return;
        }
        let cur = match sys.get("ontologies") {
            Some(v) => v.deep_clone(),
            None => JsonValue::Null,
        };
        match cur {
            JsonValue::Object(mut o2) => {
                let _ = crate::json::object_remove(&mut o2, namespace);
                sys.insert("ontologies", JsonValue::Object(o2));
            },
            _ => {},
        }
    }

    /// Gives a node object without `@context` the context of the layer
    /// (see `mbse_context_spec`).
    pub fn apply_mbse_context(&self, node: &mut JsonValue, layer: &str, vocab: &VocabularyRegistry)
        ensures
            final(node)@ == mbse_context_spec(old(node)@, *vocab, layer@),
    {
        if node.is_object() && !node.contains_key("@context") {
            match vocab.get_context_for_layer(layer) {
                Some(ctx) => {
                    node.insert("@context", ctx);
                },
                None => {},
            }
        }
    }

    /// Checks a node against the vocabulary (see `semantic_check_spec`).
    pub fn check_semantic_node(&self, node: &JsonValue, vocab: &VocabularyRegistry) -> (r: Result<
        (),
        RaiseError,
    >)
        ensures
            match semantic_check_spec(*vocab, node@) {
                None => r is Ok,
                Some(c) => r matches Err(e) && e.code == c,
            },
    {
        let processor = JsonLdProcessor::new(vocab).with_doc_context(node);
        let required = vec!["@id", "@type"];
        proof {
            reveal_strlit("@id");
            reveal_strlit("@type");
        }
        match processor.validate_required_fields(node, required.as_slice()) {
            Err(_) => {
                proof {
                    let m = processor.mappings();
                    let i = choose|i: int|
                        0 <= i < required@.len() && !field_present(m, doc_entries(node@), #[trigger] required@[i]@);
                    assert(i == 0 || i == 1);
                }
                return Err(RaiseError::new(ErrorCode::SemanticValidationFail, "@id"));
            },
            Ok(()) => {
                proof {
                    let m = processor.mappings();
                    assert(field_present(m, doc_entries(node@), required@[0]@));
                    assert(field_present(m, doc_entries(node@), required@[1]@));
                }
            },
        }
        match processor.get_primary_type(node) {
            Some(t) => {
                let expanded = processor.context_manager().expand_term(t.as_str());
                if vocab.has_class(expanded.as_str()) {
                    Ok(())
                } else {
                    Err(RaiseError::new(ErrorCode::SemanticUnknownType, expanded.as_str()))
                }
            },
            None => Ok(()),
        }
    }

    /// Prepares a node for `collection`: the context of the collection's
    /// layer (the name up to its first `_`), then the check against the
    /// vocabulary.
    pub fn prepare_semantic_node(&self, collection: &str, node: &mut JsonValue, vocab: &VocabularyRegistry) -> (r:
        Result<(), RaiseError>)
        ensures
            final(node)@ == mbse_context_spec(old(node)@, *vocab, layer_prefix_spec(collection@)),
            match semantic_check_spec(*vocab, final(node)@) {
                None => r is Ok,
                Some(c) => r matches Err(e) && e.code == c,
            },
    {
        let cs = to_chars(collection);
        let parts = split_chars(cs.as_slice(), '_');
        proof {
            crate::text::lemma_split_nonempty(collection@, '_');
        }
        let layer = from_chars(parts[0].as_slice());
        self.apply_mbse_context(node, layer.as_str(), vocab);
        self.check_semantic_node(node, vocab)
    }

    /// A stored node compacted with the vocabulary's prefixes and its own
    /// context.
    pub fn compact_node(&self, doc: &mut JsonValue, vocab: &VocabularyRegistry)
        ensures
            final(doc)@ == rewrite_val(node_mappings(*vocab, old(doc)@), old(doc)@, false),
    {
        let processor = JsonLdProcessor::new(vocab).with_doc_context(doc);
        processor.compact_in_place(doc);
    }
}

} // verus!
