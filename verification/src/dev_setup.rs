//! The sample data that a development database is set up with: a user, an
//! invoice schema whose rules compute totals, due dates and references, and
//! a schema of logical functions whose rules derive paths and check naming.
use vstd::prelude::*;
use crate::json::{jents, jvs, lemma_jents, lemma_jvs, JVal, JsonNumber, JsonValue};
use crate::json_text::push_all;
use crate::system_index::int_num;
use crate::text::{from_chars, to_chars};

verus! {

pub(crate) fn s(x: &str) -> (r: JsonValue)
    ensures
        r@ == JVal::Str(x@),
{
    JsonValue::String(x.to_owned())
}

fn o1(k1: &str, v1: JsonValue) -> (r: JsonValue)
    ensures
        r@ == JVal::Obj(seq![(k1@, v1@)]),
{
    let e = vec![(k1.to_owned(), v1)];
    proof {
        lemma_jents(e@);
        assert(jents(e@) =~= seq![(k1@, v1@)]);
    }
    JsonValue::Object(e)
}

fn o2(k1: &str, v1: JsonValue, k2: &str, v2: JsonValue) -> (r: JsonValue)
    ensures
        r@ == JVal::Obj(seq![(k1@, v1@), (k2@, v2@)]),
{
    let e = vec![(k1.to_owned(), v1), (k2.to_owned(), v2)];
    proof {
        lemma_jents(e@);
        assert(jents(e@) =~= seq![(k1@, v1@), (k2@, v2@)]);
    }
    JsonValue::Object(e)
}

fn o3(k1: &str, v1: JsonValue, k2: &str, v2: JsonValue, k3: &str, v3: JsonValue) -> (r: JsonValue)
    ensures
        r@ == JVal::Obj(seq![(k1@, v1@), (k2@, v2@), (k3@, v3@)]),
{
    let e = vec![(k1.to_owned(), v1), (k2.to_owned(), v2), (k3.to_owned(), v3)];
    proof {
        lemma_jents(e@);
        assert(jents(e@) =~= seq![(k1@, v1@), (k2@, v2@), (k3@, v3@)]);
    }
    JsonValue::Object(e)
}

pub(crate) fn o4(
    k1: &str,
    v1: JsonValue,
    k2: &str,
    v2: JsonValue,
    k3: &str,
    v3: JsonValue,
    k4: &str,
    v4: JsonValue,
) -> (r: JsonValue)
    ensures
        r@ == JVal::Obj(seq![(k1@, v1@), (k2@, v2@), (k3@, v3@), (k4@, v4@)]),
{
    let e = vec![(k1.to_owned(), v1), (k2.to_owned(), v2), (k3.to_owned(), v3), (k4.to_owned(), v4)];
    proof {
        lemma_jents(e@);
        assert(jents(e@) =~= seq![(k1@, v1@), (k2@, v2@), (k3@, v3@), (k4@, v4@)]);
    }
    JsonValue::Object(e)
}

fn push_entry(o: JsonValue, k: &str, v: JsonValue) -> (r: JsonValue)
    ensures
        o@ matches JVal::Obj(e) ==> r@ == JVal::Obj(e.push((k@, v@))),
{
    match o {
        JsonValue::Object(mut e) => {
            let ghost before = e@;
            e.push((k.to_owned(), v));
            proof {
                lemma_jents(e@);
                lemma_jents(before);
                assert(jents(e@) =~= jents(before).push((k@, v@)));
            }
            JsonValue::Object(e)
        },
        other => other,
    }
}

fn arr(items: Vec<JsonValue>) -> (r: JsonValue)
    ensures
        r@ == JVal::Arr(jvs(items@)),
{
    JsonValue::Array(items)
}

fn typed(t: &str) -> (r: JsonValue)
    ensures
        r@ == JVal::Obj(seq![("type"@, JVal::Str(t@))]),
{
    o1("type", s(t))
}

pub open spec fn typed_spec(t: Seq<char>) -> JVal {
    JVal::Obj(seq![("type"@, JVal::Str(t))])
}

pub open spec fn var_spec(name: Seq<char>) -> JVal {
    JVal::Obj(seq![("var"@, JVal::Str(name))])
}

pub open spec fn val_spec(x: JVal) -> JVal {
    JVal::Obj(seq![("val"@, x)])
}

pub open spec fn rule_spec(id: Seq<char>, target: Seq<char>, expr: JVal) -> JVal {
    JVal::Obj(seq![("id"@, JVal::Str(id)), ("target"@, JVal::Str(target)), ("expr"@, expr)])
}

/// The user of a development database: `u_dev` (its identity under `_id`
/// too, so that it can be stored), Alice Dev, at a daily rate of 500.0.
pub open spec fn demo_user_spec() -> JVal {
    JVal::Obj(
        seq![
            ("_id"@, JVal::Str("u_dev"@)),
            ("id"@, JVal::Str("u_dev"@)),
            ("name"@, JVal::Str("Alice Dev"@)),
            ("tjm"@, JVal::Num(JsonNumber { mantissa: 500, scale: 0, is_float: true })),
        ],
    )
}

/// The invoice schema of a development database: six typed properties and
/// three rules (the total as days times the user's daily rate, the due date
/// thirty days after creation, and the reference `INV-{USER}-{total}`).
pub open spec fn demo_invoice_schema_spec() -> JVal {
    JVal::Obj(
        seq![
            ("type"@, JVal::Str("object"@)),
            ("properties"@, JVal::Obj(
                seq![
                    ("user_id"@, typed_spec("string"@)),
                    ("days"@, typed_spec("number"@)),
                    ("created_at"@, typed_spec("string"@)),
                    ("total"@, typed_spec("number"@)),
                    ("due_at"@, typed_spec("string"@)),
                    ("ref"@, typed_spec("string"@)),
                ],
            )),
            ("x_rules"@, JVal::Arr(
                seq![
                    rule_spec(
                        "calc_total_lookup"@,
                        "total"@,
                        JVal::Obj(
                            seq![
                                ("mul"@, JVal::Arr(
                                    seq![
                                        var_spec("days"@),
                                        JVal::Obj(
                                            seq![
                                                ("lookup"@, JVal::Obj(
                                                    seq![
                                                        ("collection"@, JVal::Str("users"@)),
                                                        ("id"@, var_spec("user_id"@)),
                                                        ("field"@, JVal::Str("tjm"@)),
                                                    ],
                                                )),
                                            ],
                                        ),
                                    ],
                                )),
                            ],
                        ),
                    ),
                    rule_spec(
                        "calc_due_date"@,
                        "due_at"@,
                        JVal::Obj(
                            seq![
                                ("date_add"@, JVal::Obj(
                                    seq![
                                        ("date"@, var_spec("created_at"@)),
                                        ("days"@, val_spec(int_num(30))),
                                    ],
                                )),
                            ],
                        ),
                    ),
                    rule_spec(
                        "gen_ref"@,
                        "ref"@,
                        JVal::Obj(
                            seq![
                                ("concat"@, JVal::Arr(
                                    seq![
                                        val_spec(JVal::Str("INV-"@)),
                                        JVal::Obj(seq![("upper"@, var_spec("user_id"@))]),
                                        val_spec(JVal::Str("-"@)),
                                        var_spec("total"@),
                                    ],
                                )),
                            ],
                        ),
                    ),
                ],
            )),
        ],
    )
}

/// The schema of logical functions of a development database: five string
/// properties and two rules (the full path `{parent_pkg}::{name}`, and the
/// compliance of names with `^LF_[A-Z0-9_]+$`).
pub open spec fn model_functions_schema_spec() -> JVal {
    JVal::Obj(
        seq![
            ("type"@, JVal::Str("object"@)),
            ("properties"@, JVal::Obj(
                seq![
                    ("name"@, typed_spec("string"@)),
                    ("parent_pkg"@, typed_spec("string"@)),
                    ("description"@, typed_spec("string"@)),
                    ("full_path"@, typed_spec("string"@)),
                    ("compliance"@, typed_spec("string"@)),
                ],
            )),
            ("x_rules"@, JVal::Arr(
                seq![
                    rule_spec(
                        "compute_path"@,
                        "full_path"@,
                        JVal::Obj(
                            seq![
                                ("concat"@, JVal::Arr(
                                    seq![
                                        var_spec("parent_pkg"@),
                                        val_spec(JVal::Str("::"@)),
                                        var_spec("name"@),
                                    ],
                                )),
                            ],
                        ),
                    ),
                    rule_spec(
                        "check_naming"@,
                        "compliance"@,
                        JVal::Obj(
                            seq![
                                ("if"@, JVal::Obj(
                                    seq![
                                        ("condition"@, JVal::Obj(
                                            seq![
                                                ("regex_match"@, JVal::Obj(
                                                    seq![
                                                        ("value"@, var_spec("name"@)),
                                                        ("pattern"@, val_spec(JVal::Str("^LF_[A-Z0-9_]+$"@))),
                                                    ],
                                                )),
                                            ],
                                        )),
                                        ("then_branch"@, val_spec(JVal::Str("✅ VALIDE"@))),
                                        ("else_branch"@, val_spec(
                                            JVal::Str("❌ NON_CONFORME (Doit commencer par LF_ et être en MAJ)"@),
                                        )),
                                    ],
                                )),
                            ],
                        ),
                    ),
                ],
            )),
        ],
    )
}

fn var_of(name: &str) -> (r: JsonValue)
    ensures
        r@ == var_spec(name@),
{
    o1("var", s(name))
}

fn val_of(x: JsonValue) -> (r: JsonValue)
    ensures
        r@ == val_spec(x@),
{
    o1("val", x)
}

fn rule_of(id: &str, target: &str, expr: JsonValue) -> (r: JsonValue)
    ensures
        r@ == rule_spec(id@, target@, expr@),
{
    o3("id", s(id), "target", s(target), "expr", expr)
}

/// The user of a development database (see `demo_user_spec`).
pub fn demo_user_document() -> (r: JsonValue)
    ensures
        r@ == demo_user_spec(),
{
    o4(
        "_id",
        s("u_dev"),
        "id",
        s("u_dev"),
        "name",
        s("Alice Dev"),
        "tjm",
        JsonValue::Number(JsonNumber { mantissa: 500, scale: 0, is_float: true }),
    )
}

/// The invoice schema of a development database (see
/// `demo_invoice_schema_spec`).
pub fn demo_invoice_schema() -> (r: JsonValue)
    ensures
        r@ == demo_invoice_schema_spec(),
{
    let p = o3("user_id", typed("string"), "days", typed("number"), "created_at", typed("string"));
    let p = push_entry(p, "total", typed("number"));
    let p = push_entry(p, "due_at", typed("string"));
    let p = push_entry(p, "ref", typed("string"));
    proof {
        let e6 = seq![
            ("user_id"@, typed_spec("string"@)),
            ("days"@, typed_spec("number"@)),
            ("created_at"@, typed_spec("string"@)),
            ("total"@, typed_spec("number"@)),
            ("due_at"@, typed_spec("string"@)),
            ("ref"@, typed_spec("string"@)),
        ];
        assert(p@ matches JVal::Obj(e) && e =~= e6);
    }
    let lookup = o1(
        "lookup",
        o3("collection", s("users"), "id", var_of("user_id"), "field", s("tjm")),
    );
    let mul_items = vec![var_of("days"), lookup];
    let r1 = rule_of("calc_total_lookup", "total", o1("mul", arr(mul_items)));
    let r2 = rule_of(
        "calc_due_date",
        "due_at",
        o1(
            "date_add",
            o2(
                "date",
                var_of("created_at"),
                "days",
                val_of(JsonValue::Number(JsonNumber::from_int(30))),
            ),
        ),
    );
    let concat_items = vec![
        val_of(s("INV-")),
        o1("upper", var_of("user_id")),
        val_of(s("-")),
        var_of("total"),
    ];
    let r3 = rule_of("gen_ref", "ref", o1("concat", arr(concat_items)));
    let rules = vec![r1, r2, r3];
    proof {
        lemma_jvs(mul_items@);
        lemma_jvs(concat_items@);
        lemma_jvs(rules@);
    }
    let r = o3("type", s("object"), "properties", p, "x_rules", arr(rules));
    proof {
        assert(jvs(mul_items@) =~= seq![mul_items@[0]@, mul_items@[1]@]);
        assert(jvs(concat_items@) =~= seq![
            concat_items@[0]@,
            concat_items@[1]@,
            concat_items@[2]@,
            concat_items@[3]@,
        ]);
        assert(jvs(rules@) =~= seq![rules@[0]@, rules@[1]@, rules@[2]@]);
    }
    r
}

/// The schema of logical functions of a development database (see
/// `model_functions_schema_spec`).
pub fn model_functions_schema() -> (r: JsonValue)
    ensures
        r@ == model_functions_schema_spec(),
{
    let p = o3("name", typed("string"), "parent_pkg", typed("string"), "description", typed("string"));
    let p = push_entry(p, "full_path", typed("string"));
    let p = push_entry(p, "compliance", typed("string"));
    proof {
        let e5 = seq![
            ("name"@, typed_spec("string"@)),
            ("parent_pkg"@, typed_spec("string"@)),
            ("description"@, typed_spec("string"@)),
            ("full_path"@, typed_spec("string"@)),
            ("compliance"@, typed_spec("string"@)),
        ];
        assert(p@ matches JVal::Obj(e) && e =~= e5);
    }
    let concat_items = vec![var_of("parent_pkg"), val_of(s("::")), var_of("name")];
    let r1 = rule_of("compute_path", "full_path", o1("concat", arr(concat_items)));
    let cond = o1(
        "regex_match",
        o2("value", var_of("name"), "pattern", val_of(s("^LF_[A-Z0-9_]+$"))),
    );
    let branch = o3(
        "condition",
        cond,
        "then_branch",
        val_of(s("✅ VALIDE")),
        "else_branch",
        val_of(s("❌ NON_CONFORME (Doit commencer par LF_ et être en MAJ)")),
    );
    let r2 = rule_of("check_naming", "compliance", o1("if", branch));
    let rules = vec![r1, r2];
    proof {
        lemma_jvs(concat_items@);
        lemma_jvs(rules@);
    }
    let r = o3("type", s("object"), "properties", p, "x_rules", arr(rules));
    proof {
        assert(jvs(concat_items@) =~= seq![concat_items@[0]@, concat_items@[1]@, concat_items@[2]@]);
        assert(jvs(rules@) =~= seq![rules@[0]@, rules@[1]@]);
    }
    r
}

/// The URI of a schema of the database `db` of `space`:
/// `db://{space}/{db}/schemas/v1/{rel}`.
pub fn dev_schema_uri(space: &str, db: &str, rel: &str) -> (r: String)
    ensures
        r@ == "db://"@ + space@ + "/"@ + db@ + "/schemas/v1/"@ + rel@,
{
    let mut out = to_chars("db://");
    push_all(&to_chars(space), &mut out);
    push_all(&to_chars("/"), &mut out);
    push_all(&to_chars(db), &mut out);
    push_all(&to_chars("/schemas/v1/"), &mut out);
    push_all(&to_chars(rel), &mut out);
    from_chars(out.as_slice())
}

} // verus!
