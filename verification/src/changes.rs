//! Which fields of a document a write changed, setting a field by its dotted
//! path, and the passes of business rules that propagate changes until
//! nothing changes any more (or a bound on the passes is reached).
use vstd::prelude::*;
use crate::json::{entries_insert, entry_get, JVal, JsonValue};
use crate::json_text::push_all;
use crate::query_eval::{json_eq, json_equal};
use crate::system_index::empty_obj;
use crate::text::{from_chars, split_chars, split_spec, to_chars};

verus! {

/// The path of the member `k` below `path` (dotted).
pub open spec fn join_path(path: Seq<char>, k: Seq<char>) -> Seq<char> {
    if path.len() == 0 {
        k
    } else {
        path + "."@ + k
    }
}

/// The dotted paths at which `new` differs from `old` (`None`: there was
/// nothing), in depth-first order of `new`'s members: nothing when the
/// values are equal; else `path` itself (unless empty), then, when `new` is
/// an object and `old` an object or nothing, the changes of each member.
pub open spec fn changes_spec(path: Seq<char>, new: JVal, old: Option<JVal>) -> Seq<Seq<char>>
    decreases new, 0nat,
{
    let same = match old {
        Some(o) => json_eq(new, o),
        None => false,
    };
    if same {
        Seq::empty()
    } else {
        let here: Seq<Seq<char>> = if path.len() > 0 {
            seq![path]
        } else {
            Seq::empty()
        };
        match new {
            JVal::Obj(nm) => match old {
                Some(JVal::Obj(om)) => here + member_changes(path, nm, Some(om)),
                None => here + member_changes(path, nm, None),
                _ => here,
            },
            _ => here,
        }
    }
}

/// The changes of the members `nm`, against the members `om` of the old
/// object when there was one.
pub open spec fn member_changes(
    path: Seq<char>,
    nm: Seq<(Seq<char>, JVal)>,
    om: Option<Seq<(Seq<char>, JVal)>>,
) -> Seq<Seq<char>>
    decreases nm, 1nat,
{
    if nm.len() == 0 {
        Seq::empty()
    } else {
        proof {
            vstd::seq::axiom_seq_index_decreases(nm, nm.len() - 1);
            vstd::seq::axiom_seq_subrange_decreases(nm, 0, nm.len() - 1);
        }
        let last = nm[nm.len() - 1];
        member_changes(path, nm.subrange(0, nm.len() - 1), om) + changes_spec(
            join_path(path, last.0),
            last.1,
            match om {
                Some(o) => entry_get(o, last.0),
                None => None,
            },
        )
    }
}

/// The texts of a list of strings.
pub open spec fn strs(v: Seq<String>) -> Seq<Seq<char>> {
    v.map_values(|s: String| s@)
}

pub open spec fn opt_view(v: Option<&JsonValue>) -> Option<JVal> {
    match v {
        Some(x) => Some(x@),
        None => None,
    }
}

fn join_path_exec(path: &str, k: &str) -> (r: String)
    ensures
        r@ == join_path(path@, k@),
{
    let p = to_chars(path);
    if p.len() == 0 {
        return k.to_owned();
    }
    let mut out = p;
    push_all(&to_chars("."), &mut out);
    push_all(&to_chars(k), &mut out);
    from_chars(out.as_slice())
}

/// Appends to `changes` the paths at which `new_val` differs from
/// `old_val` (see `changes_spec`).
pub fn find_changes(path: &str, new_val: &JsonValue, old_val: Option<&JsonValue>, changes: &mut Vec<String>)
    ensures
        strs(final(changes)@) == strs(old(changes)@) + changes_spec(path@, new_val@, opt_view(old_val)),
    decreases new_val,
{
    let same = match old_val {
        Some(o) => json_equal(new_val, o),
        None => false,
    };
    if same {
        assert(strs(changes@) =~= strs(changes@) + Seq::<Seq<char>>::empty());
        return;
    }
    let ghost c0 = strs(changes@);
    let ghost here: Seq<Seq<char>> = if path@.len() > 0 {
        seq![path@]
    } else {
        Seq::empty()
    };
    if to_chars(path).len() > 0 {
        changes.push(path.to_owned());
    }
    assert(strs(changes@) =~= c0 + here);
    let recurse = match new_val {
        JsonValue::Object(_) => match old_val {
            Some(JsonValue::Object(_)) => true,
            None => true,
            _ => false,
        },
        _ => false,
    };
    if !recurse {
        return;
    }
    match new_val {
        JsonValue::Object(nm) => {
            let ghost jn = crate::json::jents(nm@);
            let ghost om: Option<Seq<(Seq<char>, JVal)>> = match old_val {
                Some(o) => match o@ {
                    JVal::Obj(e) => Some(e),
                    _ => None,
                },
                None => None,
            };
            proof {
                crate::json::lemma_jents(nm@);
                assert(jn.subrange(0, 0) =~= Seq::<(Seq<char>, JVal)>::empty());
                assert(strs(changes@) =~= c0 + here + member_changes(path@, jn.subrange(0, 0), om));
            }
            let mut i: usize = 0;
            while i < nm.len()
                invariant
                    *new_val == JsonValue::Object(*nm),
                    jn == crate::json::jents(nm@),
                    jn.len() == nm@.len(),
                    forall|j: int| 0 <= j < nm@.len() ==> #[trigger] jn[j] == (nm@[j].0@, nm@[j].1@),
                    i <= nm@.len(),
                    om == (match old_val {
                        Some(o) => match o@ {
                            JVal::Obj(e) => Some(e),
                            _ => None,
                        },
                        None => None,
                    }),
                    recurse,
                    old_val matches Some(o) ==> o@ is Obj,
                    strs(changes@) == c0 + here + member_changes(path@, jn.subrange(0, i as int), om),
                decreases nm.len() - i,
            {
                let k = nm[i].0.as_str();
                let np = join_path_exec(path, k);
                let child_old = match old_val {
                    Some(o) => crate::json::member_ref(o, k),
                    None => None,
                };
                proof {
                    vstd::std_specs::vec::axiom_vec_decreases_to_view(*nm);
                    vstd::seq::axiom_seq_index_decreases(nm@, i as int);
                    assert(decreases_to!(*new_val => new_val->Object_0));
                    assert(decreases_to!(*nm => nm@));
                    assert(decreases_to!(nm@ => nm@[i as int]));
                    assert(decreases_to!(nm@[i as int] => nm@[i as int].1));
                    assert(opt_view(child_old) == match om {
                        Some(o) => entry_get(o, jn[i as int].0),
                        None => None,
                    });
                }
                let ghost before = strs(changes@);
                find_changes(np.as_str(), &nm[i].1, child_old, changes);
                proof {
                    let s = jn.subrange(0, i + 1);
                    assert(s.subrange(0, i as int) =~= jn.subrange(0, i as int));
                    assert(s[i as int] == jn[i as int]);
                    assert(strs(changes@) =~= c0 + here + member_changes(path@, s, om));
                }
                i = i + 1;
            }
            proof {
                assert(jn.subrange(0, nm@.len() as int) =~= jn);
            }
        },
        _ => {},
    }
}

/// The paths at which the document `new_doc` differs from the stored
/// `old_doc` (all of its members when there is none).
pub fn compute_diff(new_doc: &JsonValue, old_doc: Option<&JsonValue>) -> (r: Vec<String>)
    ensures
        strs(r@) == changes_spec(Seq::empty(), new_doc@, opt_view(old_doc)),
{
    let mut changes: Vec<String> = Vec::new();
    assert(strs(changes@) =~= Seq::<Seq<char>>::empty());
    find_changes("", new_doc, old_doc, &mut changes);
    proof {
        reveal_strlit("");
        assert(""@ =~= Seq::<char>::empty());
    }
    assert(strs(changes@) =~= changes_spec(""@, new_doc@, opt_view(old_doc)));
    changes
}

/// The document `v` with the value `x` set at the path `parts` (the dotted
/// path's pieces), and whether it changed: the levels above the last are
/// made objects and missing members along the way are created empty; the
/// last member is set when `v` there is an object and it does not already
/// equal `x`.
pub open spec fn set_path_spec(v: JVal, parts: Seq<Seq<char>>, x: JVal) -> (JVal, bool)
    decreases parts.len(),
{
    if parts.len() == 0 {
        (v, false)
    } else if parts.len() == 1 {
        match v {
            JVal::Obj(e) => {
                let same = match entry_get(e, parts[0]) {
                    Some(o) => json_eq(o, x),
                    None => false,
                };
                if same {
                    (v, false)
                } else {
                    (JVal::Obj(entries_insert(e, parts[0], x)), true)
                }
            },
            _ => (v, false),
        }
    } else {
        let base = match v {
            JVal::Obj(e) => e,
            _ => Seq::empty(),
        };
        let child = match entry_get(base, parts[0]) {
            Some(c) => c,
            None => empty_obj(),
        };
        let r = set_path_spec(child, parts.drop_first(), x);
        (JVal::Obj(entries_insert(base, parts[0], r.0)), r.1)
    }
}

fn set_path_from(v: &mut JsonValue, parts: &Vec<Vec<char>>, i: usize, value: JsonValue) -> (changed: bool)
    requires
        i < parts@.len(),
    ensures
        (final(v)@, changed) == set_path_spec(
            old(v)@,
            parts@.map_values(|p: Vec<char>| p@).subrange(i as int, parts@.len() as int),
            value@,
        ),
    decreases parts.len() - i,
{
    let ghost ps = parts@.map_values(|p: Vec<char>| p@).subrange(i as int, parts@.len() as int);
    assert(ps[0] == parts@[i as int]@);
    let key = from_chars(parts[i].as_slice());
    if i + 1 == parts.len() {
        if v.is_object() {
            let same = match v.get(key.as_str()) {
                Some(o) => json_equal(o, &value),
                None => false,
            };
            if same {
                false
            } else {
                v.insert(key.as_str(), value);
                true
            }
        } else {
            false
        }
    } else {
        if !v.is_object() {
            *v = JsonValue::Object(Vec::new());
            proof {
                crate::json::lemma_jents(Seq::<(String, JsonValue)>::empty());
                assert(crate::json::jents(Seq::<(String, JsonValue)>::empty()) =~= Seq::empty());
            }
        }
        let mut child = match v.get(key.as_str()) {
            Some(c) => c.deep_clone(),
            None => crate::system_index::new_empty_object(),
        };
        let ch = set_path_from(&mut child, parts, i + 1, value);
        proof {
            assert(ps.drop_first() =~= parts@.map_values(|p: Vec<char>| p@).subrange(
                i + 1,
                parts@.len() as int,
            ));
        }
        v.insert(key.as_str(), child);
        ch
    }
}

/// Sets the value at the dotted path `path` of `doc` (see `set_path_spec`);
/// tells whether the document changed.
pub fn set_value_by_path(doc: &mut JsonValue, path: &str, value: JsonValue) -> (changed: bool)
    ensures
        (final(doc)@, changed) == set_path_spec(old(doc)@, split_spec(path@, '.'), value@),
{
    let pc = to_chars(path);
    let parts = split_chars(pc.as_slice(), '.');
    proof {
        crate::text::lemma_split_nonempty(path@, '.');
        assert(parts@.map_values(|p: Vec<char>| p@).subrange(0, parts@.len() as int) =~= split_spec(
            path@,
            '.',
        ));
    }
    set_path_from(doc, &parts, 0, value)
}

/// Most passes of business rules run on one write.
pub const MAX_PASSES: usize = 10;

/// The state of the passes of business rules on one write: the paths that
/// changed in the last pass (`changes`), those changed so far in the
/// current one (`next`), and the passes done.
#[derive(Debug)]
pub struct RulePasses {
    pub changes: Vec<String>,
    pub next: Vec<String>,
    pub passes: usize,
}

impl RulePasses {
    pub open spec fn wf(&self) -> bool {
        self.passes <= MAX_PASSES
    }

    /// The passes of a write of `doc` over `old_doc`: they start from the
    /// paths the write changed.
    pub fn new(doc: &JsonValue, old_doc: Option<&JsonValue>) -> (r: RulePasses)
        ensures
            r.wf(),
            strs(r.changes@) == changes_spec(Seq::empty(), doc@, opt_view(old_doc)),
            r.next@.len() == 0,
            r.passes == 0,
    {
        RulePasses { changes: compute_diff(doc, old_doc), next: Vec::new(), passes: 0 }
    }

    /// Whether another pass runs: some path changed in the last pass, and
    /// fewer than `MAX_PASSES` passes were done.
    pub fn wants_pass(&self) -> (b: bool)
        ensures
            b == (self.changes@.len() > 0 && self.passes < MAX_PASSES),
    {
        self.changes.len() > 0 && self.passes < MAX_PASSES
    }

    /// Records the value a rule computed for its target path: it is set in
    /// `doc`, and the path counts as changed in this pass when `doc`
    /// changed and it was not counted yet.
    pub fn record(&mut self, doc: &mut JsonValue, target: &str, value: JsonValue) -> (changed: bool)
        ensures
            (final(doc)@, changed) == set_path_spec(old(doc)@, split_spec(target@, '.'), value@),
            final(self).changes == old(self).changes,
            final(self).passes == old(self).passes,
            strs(final(self).next@) == if changed && !strs(old(self).next@).contains(target@) {
                strs(old(self).next@).push(target@)
            } else {
                strs(old(self).next@)
            },
    {
        let changed = set_value_by_path(doc, target, value);
        if changed {
            let mut known = false;
            let mut i: usize = 0;
            while i < self.next.len()
                invariant
                    i <= self.next@.len(),
                    known == exists|j: int| 0 <= j < i && #[trigger] strs(self.next@)[j] == target@,
                decreases self.next.len() - i,
            {
                assert(strs(self.next@)[i as int] == self.next@[i as int]@);
                if crate::text::str_equal(self.next[i].as_str(), target) {
                    known = true;
                }
                i = i + 1;
            }
            assert(strs(self.next@).len() == self.next@.len());
            assert(known == strs(self.next@).contains(target@));
            if !known {
                let ghost before = strs(self.next@);
                self.next.push(target.to_owned());
                assert(strs(self.next@) =~= before.push(target@));
            } else {
                assert(strs(self.next@).contains(target@));
            }
        }
        changed
    }

    /// Ends a pass: the paths it changed become those the next pass looks
    /// at.
    pub fn finish_pass(&mut self)
        requires
            old(self).wf(),
            old(self).passes < MAX_PASSES,
        ensures
            final(self).wf(),
            final(self).changes@ == old(self).next@,
            final(self).next@.len() == 0,
            final(self).passes == old(self).passes + 1,
    {
        let mut next: Vec<String> = Vec::new();
        std::mem::swap(&mut next, &mut self.next);
        self.changes = next;
        self.passes = self.passes + 1;
    }
}

/// The value at the path `parts` of `v`, when every level is there.
pub open spec fn get_path(v: JVal, parts: Seq<Seq<char>>) -> Option<JVal>
    decreases parts.len(),
{
    if parts.len() == 0 {
        Some(v)
    } else {
        match crate::json::member(v, parts[0]) {
            Some(c) => get_path(c, parts.drop_first()),
            None => None,
        }
    }
}

/// A value set at a path is read back there: when setting `x` at `parts`
/// changed the document, the value at `parts` is `x`.
pub proof fn law_set_path_reads_back(v: JVal, parts: Seq<Seq<char>>, x: JVal)
    requires
        set_path_spec(v, parts, x).1,
    ensures
        get_path(set_path_spec(v, parts, x).0, parts) == Some(x),
    decreases parts.len(),
{
    if parts.len() == 1 {
        let e = match v {
            JVal::Obj(e) => e,
            _ => Seq::empty(),
        };
        crate::json::law_entries_insert_get(e, parts[0], x);
        assert(parts.drop_first().len() == 0);
        assert(get_path(x, parts.drop_first()) == Some(x));
        assert(crate::json::member(JVal::Obj(entries_insert(e, parts[0], x)), parts[0]) == Some(x));
    } else {
        let base = match v {
            JVal::Obj(e) => e,
            _ => Seq::empty(),
        };
        let child = match entry_get(base, parts[0]) {
            Some(c) => c,
            None => empty_obj(),
        };
        let r = set_path_spec(child, parts.drop_first(), x);
        crate::json::law_entries_insert_get(base, parts[0], r.0);
        law_set_path_reads_back(child, parts.drop_first(), x);
        assert(crate::json::member(JVal::Obj(entries_insert(base, parts[0], r.0)), parts[0]) == Some(r.0));
    }
}

} // verus!
