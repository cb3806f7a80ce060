//! Building queries: projections, sort keys and filters read from their
//! textual or JSON forms, and a builder that assembles a query.
use vstd::prelude::*;
use crate::error::{ErrorCode, RaiseError};
use crate::json::{JVal, JsonValue, member, lemma_jvs};
use crate::query::{
    ComparisonOperator, CondV, Condition, FilterOperator, Projection, Query, QueryFilter,
    SortField, SortOrder, conds_view,
};
use crate::text::{chars_equal, lowercase_spec, to_chars, to_lowercase, trim_chars, trim_spec};

verus! {

/// The text with its leading `+` and `-` characters removed.
pub open spec fn strip_signs(s: Seq<char>) -> Seq<char>
    decreases s.len(),
{
    if s.len() > 0 && (s[0] == '+' || s[0] == '-') {
        strip_signs(s.drop_first())
    } else {
        s
    }
}

/// The field names a projection lists.
pub open spec fn projection_fields(p: Projection) -> Seq<Seq<char>> {
    match p {
        Projection::Include(v) => v@.map_values(|s: String| s@),
        Projection::Exclude(v) => v@.map_values(|s: String| s@),
    }
}

pub open spec fn strings_view(v: Seq<String>) -> Seq<Seq<char>> {
    v.map_values(|s: String| s@)
}

fn strip_signs_chars(s: &[char]) -> (r: Vec<char>)
    ensures
        r@ == strip_signs(s@),
{
    let mut a: usize = 0;
    assert(s@.subrange(0, s@.len() as int) =~= s@);
    while a < s.len() && (s[a] == '+' || s[a] == '-')
        invariant
            a <= s@.len(),
            strip_signs(s@) == strip_signs(s@.subrange(a as int, s@.len() as int)),
        decreases s.len() - a,
    {
        proof {
            assert(s@.subrange(a as int, s@.len() as int).drop_first() =~= s@.subrange(
                a + 1,
                s@.len() as int,
            ));
        }
        a = a + 1;
    }
    crate::text::slice_chars(s, a, s.len())
}

/// The projection a list of fields asks for: an exclusion when the first
/// field starts with `-`, an inclusion otherwise; each field stripped of its
/// leading signs. An empty list is refused.
pub fn parse_projection(fields: &[String]) -> (r: Result<Projection, RaiseError>)
    ensures
        fields@.len() == 0 <==> r is Err,
        r matches Err(e) ==> e.code == ErrorCode::DataFieldsEmpty,
        r matches Ok(p) ==> {
            &&& (p is Exclude <==> (fields@[0]@.len() > 0 && fields@[0]@[0] == '-'))
            &&& projection_fields(p) == strings_view(fields@).map_values(
                |s: Seq<char>| strip_signs(s),
            )
        },
{
    if fields.len() == 0 {
        return Err(RaiseError::new(ErrorCode::DataFieldsEmpty, ""));
    }
    let first = to_chars(fields[0].as_str());
    let is_exclude = first.len() > 0 && first[0] == '-';
    let mut cleaned: Vec<String> = Vec::new();
    let mut i: usize = 0;
    while i < fields.len()
        invariant
            i <= fields@.len(),
            strings_view(cleaned@) == strings_view(fields@.subrange(0, i as int)).map_values(
                |s: Seq<char>| strip_signs(s),
            ),
        decreases fields.len() - i,
    {
        let cs = to_chars(fields[i].as_str());
        let st = strip_signs_chars(cs.as_slice());
        let ghost before = cleaned@;
        cleaned.push(crate::text::chars_to_string(&st));
        i = i + 1;
        proof {
            let pre = fields@.subrange(0, i - 1);
            let cur = fields@.subrange(0, i as int);
            assert(cur =~= pre.push(fields@[i - 1]));
            assert(strings_view(cur) =~= strings_view(pre).push(fields@[i - 1]@));
            assert(strings_view(cleaned@) =~= strings_view(before).push(st@));
            assert(strings_view(cleaned@) =~= strings_view(cur).map_values(
                |s: Seq<char>| strip_signs(s),
            ));
        }
    }
    assert(fields@.subrange(0, fields@.len() as int) =~= fields@);
    if is_exclude {
        Ok(Projection::Exclude(cleaned))
    } else {
        Ok(Projection::Include(cleaned))
    }
}

/// A query assembled call by call.
pub struct QueryBuilder {
    pub query: Query,
}

impl QueryBuilder {
    /// A builder for a query of every document of `collection`.
    pub fn new(collection: &str) -> (b: QueryBuilder)
        ensures
            b.query.collection@ == collection@,
            b.query.filter is None,
            b.query.sort is None,
            b.query.limit is None,
            b.query.offset is None,
            b.query.projection is None,
    {
        QueryBuilder { query: Query::new(collection) }
    }

    /// Adds a condition: to the existing filter whatever its operator, or in
    /// a new `And` filter.
    fn add_cond(&mut self, op: FilterOperator, c: Condition)
        ensures
            match old(self).query.filter {
                None => final(self).query.filter matches Some(f) && f.operator == op
                    && conds_view(f.conditions@) == seq![c@],
                Some(f0) => final(self).query.filter matches Some(f) && f.operator == f0.operator
                    && conds_view(f.conditions@) == conds_view(f0.conditions@).push(c@),
            },
            final(self).query.collection == old(self).query.collection,
            final(self).query.sort == old(self).query.sort,
            final(self).query.limit == old(self).query.limit,
            final(self).query.offset == old(self).query.offset,
            final(self).query.projection == old(self).query.projection,
    {
        let cur = self.query.filter.take();
        match cur {
            Some(mut f) => {
                let ghost before = f.conditions@;
                f.conditions.push(c);
                proof {
                    assert(conds_view(f.conditions@) =~= conds_view(before).push(c@));
                }
                self.query.filter = Some(f);
            },
            None => {
                let mut v: Vec<Condition> = Vec::new();
                v.push(c);
                proof {
                    assert(conds_view(v@) =~= seq![c@]);
                }
                self.query.filter = Some(QueryFilter { operator: op, conditions: v });
            },
        }
    }

    /// Adds the condition `field == value`.
    pub fn where_eq(self, field: &str, value: JsonValue) -> (b: QueryBuilder)
        ensures
            match self.query.filter {
                None => b.query.filter matches Some(f) && f.operator == FilterOperator::And
                    && conds_view(f.conditions@) == seq![
                    CondV { field: field@, op: ComparisonOperator::Eq, value: value@ },
                ],
                Some(f0) => b.query.filter matches Some(f) && f.operator == f0.operator
                    && conds_view(f.conditions@) == conds_view(f0.conditions@).push(
                    CondV { field: field@, op: ComparisonOperator::Eq, value: value@ },
                ),
            },
            b.query.collection == self.query.collection,
            b.query.sort == self.query.sort,
            b.query.limit == self.query.limit,
            b.query.offset == self.query.offset,
            b.query.projection == self.query.projection,
    {
        let mut s = self;
        let c = Condition::eq(field, value);
        s.add_cond(FilterOperator::And, c);
        s
    }

    /// Adds a condition.
    pub fn where_cond(self, condition: Condition) -> (b: QueryBuilder)
        ensures
            match self.query.filter {
                None => b.query.filter matches Some(f) && f.operator == FilterOperator::And
                    && conds_view(f.conditions@) == seq![condition@],
                Some(f0) => b.query.filter matches Some(f) && f.operator == f0.operator
                    && conds_view(f.conditions@) == conds_view(f0.conditions@).push(
                    condition@,
                ),
            },
            b.query.collection == self.query.collection,
            b.query.sort == self.query.sort,
            b.query.limit == self.query.limit,
            b.query.offset == self.query.offset,
            b.query.projection == self.query.projection,
    {
        let mut s = self;
        s.add_cond(FilterOperator::And, condition);
        s
    }

    /// Sets the projection read from `fields` (see `parse_projection`).
    pub fn select(self, fields: Vec<String>) -> (r: Result<QueryBuilder, RaiseError>)
        ensures
            fields@.len() == 0 <==> r is Err,
            r matches Err(e) ==> e.code == ErrorCode::DataFieldsEmpty,
            r matches Ok(b) ==> {
                &&& b.query.projection matches Some(p) && (p is Exclude <==> (fields@[0]@.len()
                    > 0 && fields@[0]@[0] == '-')) && projection_fields(p) == strings_view(
                    fields@,
                ).map_values(|s: Seq<char>| strip_signs(s))
                &&& b.query.collection == self.query.collection
                &&& b.query.filter == self.query.filter
                &&& b.query.sort == self.query.sort
                &&& b.query.limit == self.query.limit
                &&& b.query.offset == self.query.offset
            },
    {
        let p = parse_projection(fields.as_slice())?;
        let mut s = self;
        s.query.projection = Some(p);
        Ok(s)
    }

    pub fn limit(self, limit: usize) -> (b: QueryBuilder)
        ensures
            b.query.limit == Some(limit),
            b.query.collection == self.query.collection,
            b.query.filter == self.query.filter,
            b.query.sort == self.query.sort,
            b.query.offset == self.query.offset,
            b.query.projection == self.query.projection,
    {
        let mut s = self;
        s.query.limit = Some(limit);
        s
    }

    pub fn offset(self, offset: usize) -> (b: QueryBuilder)
        ensures
            b.query.offset == Some(offset),
            b.query.collection == self.query.collection,
            b.query.filter == self.query.filter,
            b.query.sort == self.query.sort,
            b.query.limit == self.query.limit,
            b.query.projection == self.query.projection,
    {
        let mut s = self;
        s.query.offset = Some(offset);
        s
    }

    /// Appends a sort key.
    pub fn sort(self, field: &str, order: SortOrder) -> (b: QueryBuilder)
        ensures
            b.query.sort matches Some(v) && v@.len() == (match self.query.sort {
                Some(v0) => v0@.len() + 1,
                None => 1,
            }) && v@.last().field@ == field@ && v@.last().order == order && (
            self.query.sort matches Some(v0) ==> v@.drop_last() == v0@),
            b.query.collection == self.query.collection,
            b.query.filter == self.query.filter,
            b.query.limit == self.query.limit,
            b.query.offset == self.query.offset,
            b.query.projection == self.query.projection,
    {
        let mut s = self;
        let sf = SortField { field: field.to_owned(), order };
        let cur = s.query.sort.take();
        match cur {
            Some(mut v) => {
                let ghost before = v@;
                v.push(sf);
                assert(v@.drop_last() =~= before);
                s.query.sort = Some(v);
            },
            None => {
                let mut v: Vec<SortField> = Vec::new();
                v.push(sf);
                s.query.sort = Some(v);
            },
        }
        s
    }

    pub fn build(self) -> (q: Query)
        ensures
            q == self.query,
    {
        self.query
    }
}

/// Index of the first `c` in `s`, or -1.
pub open spec fn first_index_of(s: Seq<char>, c: char) -> int
    decreases s.len(),
{
    if s.len() == 0 {
        -1
    } else if s[0] == c {
        0
    } else if first_index_of(s.drop_first(), c) == -1 {
        -1
    } else {
        1 + first_index_of(s.drop_first(), c)
    }
}

pub proof fn lemma_first_index_of(s: Seq<char>, c: char)
    ensures
        -1 <= first_index_of(s, c) < s.len(),
        first_index_of(s, c) >= 0 ==> s[first_index_of(s, c)] == c,
        forall|j: int|
            0 <= j < s.len() && (first_index_of(s, c) == -1 || j < first_index_of(s, c))
                ==> s[j] != c,
    decreases s.len(),
{
    if s.len() > 0 && s[0] != c {
        lemma_first_index_of(s.drop_first(), c);
        assert forall|j: int|
            0 <= j < s.len() && (first_index_of(s, c) == -1 || j < first_index_of(s, c))
                implies s[j] != c by {
            if j > 0 {
                assert(s[j] == s.drop_first()[j - 1]);
            }
        }
    }
}

fn find_char(s: &[char], c: char) -> (i: usize)
    ensures
        i <= s@.len(),
        i < s@.len() ==> i as int == first_index_of(s@, c),
        i == s@.len() ==> first_index_of(s@, c) == -1,
{
    proof {
        lemma_first_index_of(s@, c);
    }
    let mut i: usize = 0;
    while i < s.len()
        invariant
            i <= s@.len(),
            forall|j: int| 0 <= j < i ==> s@[j] != c,
            -1 <= first_index_of(s@, c) < s@.len(),
            first_index_of(s@, c) >= 0 ==> s@[first_index_of(s@, c)] == c,
            forall|j: int|
                0 <= j < s@.len() && (first_index_of(s@, c) == -1 || j < first_index_of(s@, c))
                    ==> s@[j] != c,
        decreases s.len() - i,
    {
        if s[i] == c {
            return i;
        }
        i = i + 1;
    }
    i
}

/// Position of the first `c` in `s`, or `s.len()`.
pub fn find_char_pub(s: &[char], c: char) -> (i: usize)
    ensures
        i <= s@.len(),
        i < s@.len() ==> i as int == first_index_of(s@, c),
        i == s@.len() ==> first_index_of(s@, c) == -1,
{
    find_char(s, c)
}

/// The order named by a lowercased word: `desc` and `descending` sort
/// downwards, any other word upwards.
pub open spec fn order_of_word(w: Seq<char>) -> SortOrder {
    if w == "desc"@ || w == "descending"@ {
        SortOrder::Desc
    } else {
        SortOrder::Asc
    }
}

/// The sort key a specification names: `+field` and `-field` for upwards
/// and downwards, `field:order` with an order word, or a bare field.
pub open spec fn sort_spec_of(s: Seq<char>) -> (Seq<char>, SortOrder) {
    let t = trim_spec(s);
    if t.len() > 0 && t[0] == '+' {
        (trim_spec(t.drop_first()), SortOrder::Asc)
    } else if t.len() > 0 && t[0] == '-' {
        (trim_spec(t.drop_first()), SortOrder::Desc)
    } else if first_index_of(t, ':') >= 0 {
        let i = first_index_of(t, ':');
        (
            trim_spec(t.subrange(0, i)),
            order_of_word(lowercase_spec(trim_spec(t.subrange(i + 1, t.len() as int)))),
        )
    } else {
        (t, SortOrder::Asc)
    }
}

/// The sort order named by a lowercased word.
pub fn order_from_word(w: &str) -> (o: SortOrder)
    ensures
        o == order_of_word(w@),
{
    let cs = to_chars(w);
    let d = to_chars("desc");
    let dd = to_chars("descending");
    if chars_equal(cs.as_slice(), d.as_slice()) || chars_equal(cs.as_slice(), dd.as_slice()) {
        SortOrder::Desc
    } else {
        SortOrder::Asc
    }
}

fn parse_single_sort_spec(spec: &str) -> (r: SortField)
    ensures
        (r.field@, r.order) == sort_spec_of(spec@),
{
    let raw = to_chars(spec);
    let t = trim_chars(raw.as_slice());
    if t.len() > 0 && t[0] == '+' {
        let rest = crate::text::slice_chars(t.as_slice(), 1, t.len());
        assert(rest@ =~= t@.drop_first());
        let f = trim_chars(rest.as_slice());
        return SortField { field: crate::text::chars_to_string(&f), order: SortOrder::Asc };
    }
    if t.len() > 0 && t[0] == '-' {
        let rest = crate::text::slice_chars(t.as_slice(), 1, t.len());
        assert(rest@ =~= t@.drop_first());
        let f = trim_chars(rest.as_slice());
        return SortField { field: crate::text::chars_to_string(&f), order: SortOrder::Desc };
    }
    let i = find_char(t.as_slice(), ':');
    if i < t.len() {
        let left = crate::text::slice_chars(t.as_slice(), 0, i);
        let right = crate::text::slice_chars(t.as_slice(), i + 1, t.len());
        let f = trim_chars(left.as_slice());
        let o = trim_chars(right.as_slice());
        let os = crate::text::chars_to_string(&o);
        let lower = to_lowercase(os.as_str());
        let order = order_from_word(lower.as_str());
        SortField { field: crate::text::chars_to_string(&f), order }
    } else {
        SortField { field: crate::text::chars_to_string(&t), order: SortOrder::Asc }
    }
}

/// The sort keys the specifications name (see `sort_spec_of`). Never fails.
pub fn parse_sort_specs(specs: &[String]) -> (r: Result<Vec<SortField>, RaiseError>)
    ensures
        r matches Ok(v) && v@.len() == specs@.len() && forall|i: int|
            0 <= i < specs@.len() ==> (v@[i].field@, v@[i].order) == sort_spec_of(
                #[trigger] specs@[i]@,
            ),
{
    let mut out: Vec<SortField> = Vec::new();
    let mut i: usize = 0;
    while i < specs.len()
        invariant
            i <= specs@.len(),
            out@.len() == i,
            forall|j: int|
                0 <= j < i ==> (out@[j].field@, out@[j].order) == sort_spec_of(
                    #[trigger] specs@[j]@,
                ),
        decreases specs.len() - i,
    {
        let sf = parse_single_sort_spec(specs[i].as_str());
        out.push(sf);
        i = i + 1;
    }
    Ok(out)
}

/// The logical operator named by a lowercased word (`and` for any word
/// other than `or` and `not`).
pub open spec fn filter_op_of_word(w: Seq<char>) -> FilterOperator {
    if w == "or"@ {
        FilterOperator::Or
    } else if w == "not"@ {
        FilterOperator::Not
    } else {
        FilterOperator::And
    }
}

/// The comparison named by a lowercased word or symbol.
pub open spec fn comparison_of_word(w: Seq<char>) -> Option<ComparisonOperator> {
    if w == "eq"@ || w == "="@ {
        Some(ComparisonOperator::Eq)
    } else if w == "ne"@ || w == "!="@ || w == "<>"@ {
        Some(ComparisonOperator::Ne)
    } else if w == "gt"@ || w == ">"@ {
        Some(ComparisonOperator::Gt)
    } else if w == "gte"@ || w == ">="@ {
        Some(ComparisonOperator::Gte)
    } else if w == "lt"@ || w == "<"@ {
        Some(ComparisonOperator::Lt)
    } else if w == "lte"@ || w == "<="@ {
        Some(ComparisonOperator::Lte)
    } else if w == "in"@ {
        Some(ComparisonOperator::In)
    } else if w == "contains"@ {
        Some(ComparisonOperator::Contains)
    } else if w == "startswith"@ {
        Some(ComparisonOperator::StartsWith)
    } else if w == "endswith"@ {
        Some(ComparisonOperator::EndsWith)
    } else if w == "like"@ {
        Some(ComparisonOperator::Like)
    } else if w == "matches"@ {
        Some(ComparisonOperator::Matches)
    } else if w == "isa"@ || w == "is_a"@ {
        Some(ComparisonOperator::IsA)
    } else if w == "astrule"@ || w == "ast_rule"@ {
        Some(ComparisonOperator::AstRule)
    } else {
        None
    }
}

/// The string member `k` of `v`, or `d` when it is missing or not a string.
pub open spec fn str_member_or(v: JVal, k: Seq<char>, d: Seq<char>) -> Seq<char> {
    match member(v, k) {
        Some(JVal::Str(s)) => s,
        _ => d,
    }
}

/// The condition a JSON object describes.
pub open spec fn parse_condition_spec(c: JVal) -> Result<CondV, ErrorCode> {
    if !(c is Obj) {
        Err(ErrorCode::QueryParseCondType)
    } else {
        match member(c, "field"@) {
            Some(JVal::Str(f)) => if f.len() == 0 {
                Err(ErrorCode::QueryParseMissingField)
            } else {
                match comparison_of_word(
                    lowercase_spec(str_member_or(c, "operator"@, "eq"@)),
                ) {
                    None => Err(ErrorCode::QueryParseOperator),
                    Some(op) => Ok(
                        CondV {
                            field: f,
                            op,
                            value: match member(c, "value"@) {
                                Some(x) => x,
                                None => JVal::Null,
                            },
                        },
                    ),
                }
            },
            _ => Err(ErrorCode::QueryParseMissingField),
        }
    }
}

/// The conditions a JSON array describes; the first refused one decides.
pub open spec fn parse_conditions_spec(s: Seq<JVal>) -> Result<Seq<CondV>, ErrorCode>
    decreases s.len(),
{
    if s.len() == 0 {
        Ok(Seq::empty())
    } else {
        match parse_conditions_spec(s.drop_last()) {
            Err(e) => Err(e),
            Ok(p) => match parse_condition_spec(s.last()) {
                Err(e) => Err(e),
                Ok(c) => Ok(p.push(c)),
            },
        }
    }
}

/// The filter a JSON object describes: its `operator` (default `and`) and
/// its `conditions` (none when absent).
pub open spec fn parse_filter_spec(v: JVal) -> Result<(FilterOperator, Seq<CondV>), ErrorCode> {
    if !(v is Obj) {
        Err(ErrorCode::QueryParseType)
    } else {
        let op = filter_op_of_word(lowercase_spec(str_member_or(v, "operator"@, "and"@)));
        match member(v, "conditions"@) {
            Some(JVal::Arr(a)) => match parse_conditions_spec(a) {
                Err(e) => Err(e),
                Ok(c) => Ok((op, c)),
            },
            _ => Ok((op, Seq::empty())),
        }
    }
}

/// The logical operator named by a lowercased word.
pub fn filter_op_from_word(w: &str) -> (o: FilterOperator)
    ensures
        o == filter_op_of_word(w@),
{
    let cs = to_chars(w);
    if chars_equal(cs.as_slice(), to_chars("or").as_slice()) {
        FilterOperator::Or
    } else if chars_equal(cs.as_slice(), to_chars("not").as_slice()) {
        FilterOperator::Not
    } else {
        FilterOperator::And
    }
}

fn word_is(cs: &Vec<char>, w: &str) -> (b: bool)
    ensures
        b == (cs@ == w@),
{
    let v = to_chars(w);
    chars_equal(cs.as_slice(), v.as_slice())
}

/// The comparison named by a lowercased word or symbol.
pub fn comparison_from_word(w: &str) -> (o: Option<ComparisonOperator>)
    ensures
        o == comparison_of_word(w@),
{
    let cs = to_chars(w);
    if word_is(&cs, "eq") || word_is(&cs, "=") {
        Some(ComparisonOperator::Eq)
    } else if word_is(&cs, "ne") || word_is(&cs, "!=") || word_is(&cs, "<>") {
        Some(ComparisonOperator::Ne)
    } else if word_is(&cs, "gt") || word_is(&cs, ">") {
        Some(ComparisonOperator::Gt)
    } else if word_is(&cs, "gte") || word_is(&cs, ">=") {
        Some(ComparisonOperator::Gte)
    } else if word_is(&cs, "lt") || word_is(&cs, "<") {
        Some(ComparisonOperator::Lt)
    } else if word_is(&cs, "lte") || word_is(&cs, "<=") {
        Some(ComparisonOperator::Lte)
    } else if word_is(&cs, "in") {
        Some(ComparisonOperator::In)
    } else if word_is(&cs, "contains") {
        Some(ComparisonOperator::Contains)
    } else if word_is(&cs, "startswith") {
        Some(ComparisonOperator::StartsWith)
    } else if word_is(&cs, "endswith") {
        Some(ComparisonOperator::EndsWith)
    } else if word_is(&cs, "like") {
        Some(ComparisonOperator::Like)
    } else if word_is(&cs, "matches") {
        Some(ComparisonOperator::Matches)
    } else if word_is(&cs, "isa") || word_is(&cs, "is_a") {
        Some(ComparisonOperator::IsA)
    } else if word_is(&cs, "astrule") || word_is(&cs, "ast_rule") {
        Some(ComparisonOperator::AstRule)
    } else {
        None
    }
}

/// The string member `key` of `v`, or `default` when it is missing or not a
/// string.
fn str_member(v: &JsonValue, key: &str, default: &str) -> (s: String)
    ensures
        s@ == str_member_or(v@, key@, default@),
{
    match v.get(key) {
        Some(x) => match x.as_str() {
            Some(s) => s.clone(),
            None => default.to_owned(),
        },
        None => default.to_owned(),
    }
}

fn parse_condition(c: &JsonValue) -> (r: Result<Condition, RaiseError>)
    ensures
        match parse_condition_spec(c@) {
            Ok(cv) => r matches Ok(x) && x@ == cv,
            Err(code) => r matches Err(e) && e.code == code,
        },
{
    if !c.is_object() {
        return Err(RaiseError::new(ErrorCode::QueryParseCondType, ""));
    }
    let field = match c.get("field") {
        Some(x) => match x.as_str() {
            Some(s) => s.clone(),
            None => {
                return Err(RaiseError::new(ErrorCode::QueryParseMissingField, ""));
            },
        },
        None => {
            return Err(RaiseError::new(ErrorCode::QueryParseMissingField, ""));
        },
    };
    if field.as_str().is_empty() {
        return Err(RaiseError::new(ErrorCode::QueryParseMissingField, ""));
    }
    let o = str_member(c, "operator", "eq");
    let lower = to_lowercase(o.as_str());
    let op = match comparison_from_word(lower.as_str()) {
        Some(op) => op,
        None => {
            return Err(RaiseError::new(ErrorCode::QueryParseOperator, lower.as_str()));
        },
    };
    let value = match c.get("value") {
        Some(x) => x.deep_clone(),
        None => JsonValue::Null,
    };
    Ok(Condition { field, operator: op, value })
}

/// The filter a JSON object describes (see `parse_filter_spec`).
pub fn parse_filter_from_json(value: &JsonValue) -> (r: Result<QueryFilter, RaiseError>)
    ensures
        match parse_filter_spec(value@) {
            Ok((op, conds)) => r matches Ok(f) && f.operator == op && conds_view(f.conditions@)
                == conds,
            Err(code) => r matches Err(e) && e.code == code,
        },
{
    if !value.is_object() {
        return Err(RaiseError::new(ErrorCode::QueryParseType, ""));
    }
    let o = str_member(value, "operator", "and");
    let lower = to_lowercase(o.as_str());
    let op = filter_op_from_word(lower.as_str());
    let mut conditions: Vec<Condition> = Vec::new();
    match value.get("conditions") {
        Some(x) => match x.as_array() {
            Some(arr) => {
                proof {
                    lemma_jvs(arr@);
                    assert(crate::json::jvs(arr@).subrange(0, 0) =~= Seq::<JVal>::empty());
                    assert(conds_view(conditions@) =~= Seq::<CondV>::empty());
                }
                let mut i: usize = 0;
                while i < arr.len()
                    invariant
                        value@ is Obj,
                        member(value@, "conditions"@) == Some(JVal::Arr(crate::json::jvs(arr@))),
                        i <= arr@.len(),
                        crate::json::jvs(arr@).len() == arr@.len(),
                        forall|j: int|
                            0 <= j < arr@.len() ==> #[trigger] crate::json::jvs(arr@)[j]
                                == arr@[j]@,
                        parse_conditions_spec(crate::json::jvs(arr@).subrange(0, i as int))
                            == Ok::<Seq<CondV>, ErrorCode>(conds_view(conditions@)),
                    decreases arr.len() - i,
                {
                    let ghost pre = crate::json::jvs(arr@).subrange(0, i as int);
                    let ghost cur = crate::json::jvs(arr@).subrange(0, i + 1);
                    proof {
                        assert(cur.drop_last() =~= pre);
                        assert(cur.last() == arr@[i as int]@);
                    }
                    let c = parse_condition(&arr[i]);
                    match c {
                        Ok(c) => {
                            let ghost before = conditions@;
                            conditions.push(c);
                            proof {
                                assert(conds_view(conditions@) =~= conds_view(before).push(
                                    c@,
                                ));
                            }
                        },
                        Err(e) => {
                            proof {
                                let whole = crate::json::jvs(arr@);
                                assert(parse_condition_spec(cur.last()) is Err);
                                assert(parse_conditions_spec(cur) == Err::<Seq<CondV>, ErrorCode>(
                                    e.code,
                                ));
                                lemma_conditions_prefix_err(whole, i as int + 1);
                            }
                            return Err(e);
                        },
                    }
                    i = i + 1;
                }
                proof {
                    assert(crate::json::jvs(arr@).subrange(0, arr@.len() as int) =~= crate::json::jvs(
                        arr@,
                    ));
                }
            },
            None => {},
        },
        None => {},
    }
    Ok(QueryFilter { operator: op, conditions })
}

/// When a prefix of the conditions is refused, the whole list is refused
/// with the same error.
proof fn lemma_conditions_prefix_err(s: Seq<JVal>, k: int)
    requires
        0 <= k <= s.len(),
        parse_conditions_spec(s.subrange(0, k)) is Err,
    ensures
        parse_conditions_spec(s) == parse_conditions_spec(s.subrange(0, k)),
    decreases s.len() - k,
{
    if k < s.len() {
        let t = s.subrange(0, k + 1);
        assert(t.drop_last() =~= s.subrange(0, k));
        lemma_conditions_prefix_err(s, k + 1);
    } else {
        assert(s.subrange(0, k) =~= s);
    }
}

} // verus!
