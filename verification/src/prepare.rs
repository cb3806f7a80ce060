//! Preparing a document before it is stored: the schema it is validated
//! against, the computed defaults and validation, the checksum and origin
//! of its replication metadata, and the JSON-LD context of its layer.
use vstd::prelude::*;
use sha2::Digest;
use crate::collections::{layer_hint_spec, schema_layer_hint, schema_uri_spec, CollectionsManager};
use crate::error::{ErrorCode, RaiseError};
use crate::json::{jvs, entries_insert, entry_get, jents, lemma_jents, member, JVal, JsonValue};
use crate::json_text::{hex_char, hex_of, json_text};
use crate::schema_defaults::{defaults_spec, ComputeStep, Fill, SchemaValidator};
use crate::schema_validator::{validate_spec, MAX_REF_DEPTH};
use crate::system_index::{index_schema_spec, set_member, str_of};
use crate::text::{from_chars, to_chars};
use crate::vocabulary::{pairs_view, VocabularyRegistry};

verus! {

/// The SHA-256 digest of the UTF-8 bytes of a text.
pub uninterp spec fn sha256_of(text: Seq<char>) -> Seq<u8>;

/// `sha2::Sha256::digest` over the UTF-8 bytes of `text`: the contract names
/// the digest and states that it has 32 bytes.
#[verifier::external_body]
fn sha256_digest(text: &str) -> (r: Vec<u8>)
    ensures
        r@ == sha256_of(text@),
        r@.len() == 32,
{
    sha2::Sha256::digest(text.as_bytes()).to_vec()
}

/// Lower-case hexadecimal text of bytes, two digits per byte, high digit
/// first.
pub open spec fn hex_spec(bytes: Seq<u8>) -> Seq<char>
    decreases bytes.len(),
{
    if bytes.len() == 0 {
        Seq::empty()
    } else {
        hex_spec(bytes.drop_last()) + seq![
            hex_char((bytes.last() / 16) as int),
            hex_char((bytes.last() % 16) as int),
        ]
    }
}

/// Lower-case hexadecimal text of bytes (see `hex_spec`).
fn hex_encode(bytes: &[u8]) -> (r: String)
    ensures
        r@ == hex_spec(bytes@),
{
    let mut out: Vec<char> = Vec::new();
    let mut i: usize = 0;
    while i < bytes.len()
        invariant
            i <= bytes@.len(),
            out@ == hex_spec(bytes@.subrange(0, i as int)),
        decreases bytes.len() - i,
    {
        let b = bytes[i];
        out.push(hex_of((b / 16) as u32));
        out.push(hex_of((b % 16) as u32));
        proof {
            assert(bytes@.subrange(0, i + 1).drop_last() =~= bytes@.subrange(0, i as int));
            assert(out@ =~= hex_spec(bytes@.subrange(0, i + 1)));
        }
        i = i + 1;
    }
    assert(bytes@.subrange(0, bytes@.len() as int) =~= bytes@);
    from_chars(out.as_slice())
}

/// A document without its replication metadata (`_p2p`).
pub open spec fn without_p2p(doc: JVal) -> JVal {
    match doc {
        JVal::Obj(e) => JVal::Obj(crate::json::entries_remove(e, "_p2p"@)),
        _ => doc,
    }
}

/// The checksum of a document: the hexadecimal SHA-256 digest of the
/// compact JSON text of the document without its replication metadata.
pub open spec fn checksum_spec(doc: JVal) -> Seq<char> {
    hex_spec(sha256_of(json_text(without_p2p(doc))))
}

/// The checksum of a document (see `checksum_spec`).
pub fn compute_document_checksum(doc: &JsonValue) -> (r: String)
    ensures
        r@ == checksum_spec(doc@),
{
    let mut d = doc.deep_clone();
    let _ = d.remove("_p2p");
    let text = d.stringify();
    let digest = sha256_digest(text.as_str());
    hex_encode(digest.as_slice())
}

/// The schema URI a document of `collection` is validated against: the
/// non-empty `schema` of the collection's metadata, completed by
/// `schema_uri_spec`; else the non-empty URI the system index resolves for
/// the collection; else none.
pub open spec fn prepare_uri_spec(
    space: Seq<char>,
    db: Seq<char>,
    meta: Option<JVal>,
    sys: Option<JVal>,
    col: Seq<char>,
) -> Option<Seq<char>> {
    let from_meta = match meta {
        Some(m) => match str_of(member(m, "schema"@)) {
            Some(s) => if s.len() > 0 {
                Some(schema_uri_spec(space, db, s))
            } else {
                None
            },
            None => None,
        },
        None => None,
    };
    match from_meta {
        Some(u) => Some(u),
        None => match sys {
            Some(x) => match index_schema_spec(space, db, x, col) {
                Ok(u) => if u.len() > 0 {
                    Some(u)
                } else {
                    None
                },
                Err(_) => None,
            },
            None => None,
        },
    }
}

/// The replication metadata of a document stamped with its checksum, the
/// node it comes from and the time of the stamp, when the document is an
/// object whose `_p2p` is an object.
pub open spec fn stamp_spec(doc: JVal, checksum: Seq<char>, origin: Seq<char>, now: Seq<char>) -> JVal {
    match doc {
        JVal::Obj(e) => match entry_get(e, "_p2p"@) {
            Some(JVal::Obj(p)) => JVal::Obj(
                entries_insert(
                    e,
                    "_p2p"@,
                    JVal::Obj(
                        entries_insert(
                            entries_insert(
                                entries_insert(p, "checksum"@, JVal::Str(checksum)),
                                "origin_node"@,
                                JVal::Str(origin),
                            ),
                            "last_sync_at"@,
                            JVal::Str(now),
                        ),
                    ),
                ),
            ),
            _ => doc,
        },
        _ => doc,
    }
}

/// The prefixes of a vocabulary as a JSON-LD context object.
pub open spec fn context_object(pairs: Seq<(Seq<char>, Seq<char>)>) -> JVal {
    JVal::Obj(pairs.map_values(|p: (Seq<char>, Seq<char>)| (p.0, JVal::Str(p.1))))
}

/// The context a document under the schema `uri` receives: the context of
/// the schema's layer when the vocabulary has loaded it, else the
/// vocabulary's default prefixes.
pub open spec fn context_for(vocab: VocabularyRegistry, uri: Option<Seq<char>>) -> JVal {
    let dflt = context_object(pairs_view(vocab.default_context@));
    match uri {
        Some(u) => match layer_hint_spec(u) {
            Some(l) => match entry_get(jents(vocab.layer_contexts@), l) {
                Some(c) => c,
                None => dflt,
            },
            None => dflt,
        },
        None => dflt,
    }
}

/// A document object without `@context` receives the context of its layer
/// (see `context_for`); other documents are left as they are.
pub open spec fn semantic_spec(doc: JVal, vocab: VocabularyRegistry, uri: Option<Seq<char>>) -> JVal {
    match doc {
        JVal::Obj(e) => if entry_get(e, "@context"@) is None {
            JVal::Obj(entries_insert(e, "@context"@, context_for(vocab, uri)))
        } else {
            doc
        },
        _ => doc,
    }
}

fn context_object_exec(pairs: &Vec<(String, String)>) -> (r: JsonValue)
    ensures
        r@ == context_object(pairs_view(pairs@)),
{
    let mut o: Vec<(String, JsonValue)> = Vec::new();
    let mut i: usize = 0;
    while i < pairs.len()
        invariant
            i <= pairs@.len(),
            o@.len() == i,
            forall|j: int|
                0 <= j < i ==> (#[trigger] o@[j]).0@ == pairs@[j].0@ && o@[j].1@ == JVal::Str(
                    pairs@[j].1@,
                ),
        decreases pairs.len() - i,
    {
        o.push((pairs[i].0.clone(), JsonValue::String(pairs[i].1.clone())));
        i = i + 1;
    }
    proof {
        lemma_jents(o@);
        assert(jents(o@) =~= pairs_view(pairs@).map_values(
            |p: (Seq<char>, Seq<char>)| (p.0, JVal::Str(p.1)),
        ));
    }
    JsonValue::Object(o)
}

impl CollectionsManager {
    /// The schema URI a document of `collection` is validated against (see
    /// `prepare_uri_spec`), from the collection's metadata `meta` and the
    /// system index `sys` (`None` where they could not be read); refused
    /// when there is none.
    pub fn prepare_schema_uri(&self, meta: Option<&JsonValue>, sys: Option<&JsonValue>, collection: &str) -> (r:
        Result<String, RaiseError>)
        ensures
            match prepare_uri_spec(
                self.space@,
                self.db@,
                crate::changes::opt_view(meta),
                crate::changes::opt_view(sys),
                collection@,
            ) {
                Some(u) => r matches Ok(s) && s@ == u,
                None => r matches Err(e) && e.code == ErrorCode::DbStrictSchemaRequired,
            },
    {
        match meta {
            Some(m) => match m.get("schema") {
                Some(JsonValue::String(s)) => {
                    if to_chars(s.as_str()).len() > 0 {
                        return Ok(self.build_schema_uri(s.as_str()));
                    }
                },
                _ => {},
            },
            None => {},
        }
        match sys {
            Some(x) => match self.resolve_schema_from_index(x, collection) {
                Ok(u) => {
                    if to_chars(u.as_str()).len() > 0 {
                        return Ok(u);
                    }
                },
                Err(_) => {},
            },
            None => {},
        }
        Err(RaiseError::new(ErrorCode::DbStrictSchemaRequired, collection))
    }

    /// Gives a document object without `@context` the context of its
    /// schema's layer (see `semantic_spec`).
    pub fn apply_semantic_logic(&self, doc: &mut JsonValue, schema_uri: Option<&str>, vocab: &VocabularyRegistry) -> (r:
        Result<(), RaiseError>)
        ensures
            r is Ok,
            final(doc)@ == semantic_spec(
                old(doc)@,
                *vocab,
                match schema_uri {
                    Some(u) => Some(u@),
                    None => None,
                },
            ),
    {
        if doc.is_object() && !doc.contains_key("@context") {
            let layer = match schema_uri {
                Some(u) => schema_layer_hint(u),
                None => None,
            };
            let ctx = match layer {
                Some(l) => match vocab.get_context_for_layer(l) {
                    Some(c) => c,
                    None => context_object_exec(vocab.get_default_context()),
                },
                None => context_object_exec(vocab.get_default_context()),
            };
            doc.insert("@context", ctx);
        }
        Ok(())
    }

    /// Prepares a document for storage under the schema `uri`, which
    /// `validator` was compiled for: the schema is written into it, its
    /// defaults and computed values are filled in (the values of the
    /// computations taken in order from `computed`) and it is validated; a
    /// valid document's replication metadata is stamped with its checksum,
    /// the node `origin_node` and the time `now`, and it receives the
    /// context of its layer. A refused document keeps the state it had
    /// reached; when a computation beyond `computed` is reached, it is asked
    /// for and the document only carries its schema.
    pub fn prepare_document(
        &self,
        doc: &mut JsonValue,
        uri: &str,
        validator: &SchemaValidator,
        vocab: &VocabularyRegistry,
        origin_node: &str,
        now: &str,
        computed: &Vec<JsonValue>,
    ) -> (r: Result<ComputeStep, RaiseError>)
        requires
            validator.root_uri@ == uri@,
        ensures
            ({
                let d1 = set_member(old(doc)@, "$schema"@, JVal::Str(uri@));
                match defaults_spec(
                    validator.reg,
                    d1,
                    validator.schema@,
                    validator.root_uri@,
                    MAX_REF_DEPTH as nat,
                    jvs(computed@),
                    0,
                ) {
                    Fill::TooDeep => r matches Err(e) && e.code == ErrorCode::SchemaRefTooDeep
                        && final(doc)@ == d1,
                    Fill::Need(op, p) => r matches Ok(ComputeStep::NeedPlan { op: o, plan: q })
                        && o@ == op && q@ == p && final(doc)@ == d1,
                    Fill::Done(d2, _) => match validate_spec(
                        validator.reg,
                        d2,
                        validator.schema@,
                        validator.root_uri@,
                        MAX_REF_DEPTH as nat,
                    ) {
                        Some(c) => r matches Err(e) && e.code == c && final(doc)@ == d2,
                        None => r matches Ok(ComputeStep::Valid) && final(doc)@ == semantic_spec(
                            stamp_spec(d2, checksum_spec(d2), origin_node@, now@),
                            *vocab,
                            Some(uri@),
                        ),
                    },
                }
            }),
    {
        doc.insert("$schema", JsonValue::String(uri.to_owned()));
        let res = validator.compute_then_validate(doc, computed);
        match res {
            Err(e) => Err(e),
            Ok(ComputeStep::NeedPlan { op, plan }) => Ok(ComputeStep::NeedPlan { op, plan }),
            Ok(ComputeStep::Valid) => {
                let ghost d2 = doc@;
                if doc.is_object() {
                    let hash = compute_document_checksum(doc);
                    match doc.get("_p2p") {
                        Some(JsonValue::Object(_)) => {
                            let mut p = match doc.get("_p2p") {
                                Some(x) => x.deep_clone(),
                                None => JsonValue::Null,
                            };
                            p.insert("checksum", JsonValue::String(hash));
                            p.insert("origin_node", JsonValue::String(origin_node.to_owned()));
                            p.insert("last_sync_at", JsonValue::String(now.to_owned()));
                            doc.insert("_p2p", p);
                        },
                        _ => {},
                    }
                }
                assert(doc@ == stamp_spec(d2, checksum_spec(d2), origin_node@, now@));
                match self.apply_semantic_logic(doc, Some(uri), vocab) {
                    Ok(()) => Ok(ComputeStep::Valid),
                    Err(e) => Err(e),
                }
            },
        }
    }
}

} // verus!
