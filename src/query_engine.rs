use vstd::prelude::*;

use crate::record::{Columns, Record, value_of, projected, find_value, project_record};
use crate::text::{i32_of, lex_less, without_commas, words, chars_of, parse_i32, text_less, same_text, split_words, strip_commas};

verus! {

/// A filter as the logic sees it: (column name, operator, literal).
pub type Condition = (Seq<char>, Seq<char>, Seq<char>);

/// What a query asks for: the projected column names and at most one filter.
pub type Parsed = (Seq<Seq<char>>, Option<Condition>);

/// Why a query string could not be read.
#[derive(Debug, Clone, Copy, PartialEq, Eq)]
pub enum ParseError {
    /// A `FILTER` keyword without a column, an operator and a value after it.
    MalformedFilterClause,
}

/// The single filter of a query: keep a record whose `column` compares to
/// `value` by `operation`.
#[derive(Debug)]
pub struct Predicate {
    pub column: String,
    pub operation: String,
    pub value: String,
}

impl View for Predicate {
    type V = Condition;

    open spec fn view(&self) -> Condition {
        (self.column@, self.operation@, self.value@)
    }
}

/// The filter that an optional predicate stands for.
pub open spec fn condition_of(f: Option<Predicate>) -> Option<Condition> {
    match f {
        Some(p) => Some(p@),
        None => None,
    }
}

/// The operator `>`.
pub open spec fn greater_op() -> Seq<char> {
    seq!['>']
}

/// The operator `<`.
pub open spec fn less_op() -> Seq<char> {
    seq!['<']
}

/// The operator `=`.
pub open spec fn equal_op() -> Seq<char> {
    seq!['=']
}

/// `x op y` on integers; an operator other than `>`, `<`, `=` never holds.
pub open spec fn int_holds(x: int, y: int, op: Seq<char>) -> bool {
    if op == greater_op() {
        x > y
    } else if op == less_op() {
        x < y
    } else if op == equal_op() {
        x == y
    } else {
        false
    }
}

/// `a op b` on text: lexicographic for `>` and `<`, exact equality for `=`.
pub open spec fn text_holds(a: Seq<char>, b: Seq<char>, op: Seq<char>) -> bool {
    if op == greater_op() {
        lex_less(b, a)
    } else if op == less_op() {
        lex_less(a, b)
    } else if op == equal_op() {
        a == b
    } else {
        false
    }
}

/// The comparison policy: as integers when both sides read as 32-bit integers,
/// else as text.
pub open spec fn compares(a: Seq<char>, b: Seq<char>, op: Seq<char>) -> bool {
    match (i32_of(a), i32_of(b)) {
        (Some(x), Some(y)) => int_holds(x as int, y as int, op),
        _ => text_holds(a, b, op),
    }
}

/// Whether a record with columns `cols` passes `filter`: every record passes
/// an absent filter, and none that lacks the filter's column passes.
pub open spec fn admits(cols: Columns, filter: Option<Condition>) -> bool {
    match filter {
        None => true,
        Some(f) => match value_of(cols, f.0) {
            Some(v) => compares(v, f.2, f.1),
            None => false,
        },
    }
}

/// The records that pass `filter`, each narrowed to `projection`, in input order.
pub open spec fn results(
    records: Seq<Columns>,
    projection: Seq<Seq<char>>,
    filter: Option<Condition>,
) -> Seq<Columns> {
    records.filter(|c: Columns| admits(c, filter)).map_values(|c: Columns| projected(c, projection))
}

fn is_operator(op: &str, c: char) -> (r: bool)
    ensures
        r == (op@ == seq![c]),
{
    let cs = chars_of(op);
    if cs.len() == 1 && cs[0] == c {
        assert(op@ =~= seq![c]);
        true
    } else {
        false
    }
}

/// `PROJECT` in upper or lower case.
pub open spec fn is_project_keyword(w: Seq<char>) -> bool {
    w == seq!['P', 'R', 'O', 'J', 'E', 'C', 'T'] || w == seq!['p', 'r', 'o', 'j', 'e', 'c', 't']
}

/// `FILTER` in upper or lower case.
pub open spec fn is_filter_keyword(w: Seq<char>) -> bool {
    w == seq!['F', 'I', 'L', 'T', 'E', 'R'] || w == seq!['f', 'i', 'l', 't', 'e', 'r']
}

/// What was read so far (`projection`, `filter`) followed by what `rest` reads:
/// the projections are joined, and a later filter replaces an earlier one.
pub open spec fn then_parsed(
    projection: Seq<Seq<char>>,
    filter: Option<Condition>,
    rest: Result<Parsed, ParseError>,
) -> Result<Parsed, ParseError> {
    match rest {
        Ok((p, f)) => Ok((projection + p, if f is Some { f } else { filter })),
        Err(e) => Err(e),
    }
}

/// No projected column and no filter.
pub open spec fn nothing_parsed() -> Result<Parsed, ParseError> {
    Ok((Seq::empty(), None))
}

/// Reads the words `t` from index `i` on, outside a projection list.
pub open spec fn parse_from(t: Seq<Seq<char>>, i: int) -> Result<Parsed, ParseError>
    decreases t.len() - i, 0int,
{
    if i < 0 || i >= t.len() {
        nothing_parsed()
    } else if is_project_keyword(t[i]) {
        parse_projection(t, i + 1)
    } else if is_filter_keyword(t[i]) {
        if i + 3 < t.len() {
            then_parsed(Seq::empty(), Some((t[i + 1], t[i + 2], t[i + 3])), parse_from(t, i + 4))
        } else {
            Err(ParseError::MalformedFilterClause)
        }
    } else {
        parse_from(t, i + 1)
    }
}

/// Reads the words `t` from index `j` on, inside a projection list: each word
/// up to a filter keyword names a column, with its commas taken out.
pub open spec fn parse_projection(t: Seq<Seq<char>>, j: int) -> Result<Parsed, ParseError>
    decreases t.len() - j, 1int,
{
    if j < 0 || j >= t.len() {
        nothing_parsed()
    } else if is_filter_keyword(t[j]) {
        parse_from(t, j)
    } else {
        then_parsed(seq![without_commas(t[j])], None, parse_projection(t, j + 1))
    }
}

/// What the query string `q` asks for.
pub open spec fn parse_query(q: Seq<char>) -> Result<Parsed, ParseError> {
    parse_from(words(q), 0)
}

fn project_keyword(w: &str) -> (r: bool)
    ensures
        r == is_project_keyword(w@),
{
    proof {
        reveal_strlit("PROJECT");
        reveal_strlit("project");
        assert("PROJECT"@ =~= seq!['P', 'R', 'O', 'J', 'E', 'C', 'T']);
        assert("project"@ =~= seq!['p', 'r', 'o', 'j', 'e', 'c', 't']);
    }
    same_text(w, "PROJECT") || same_text(w, "project")
}

fn filter_keyword(w: &str) -> (r: bool)
    ensures
        r == is_filter_keyword(w@),
{
    proof {
        reveal_strlit("FILTER");
        reveal_strlit("filter");
        assert("FILTER"@ =~= seq!['F', 'I', 'L', 'T', 'E', 'R']);
        assert("filter"@ =~= seq!['f', 'i', 'l', 't', 'e', 'r']);
    }
    same_text(w, "FILTER") || same_text(w, "filter")
}

proof fn lemma_then_parsed(
    a: Seq<Seq<char>>,
    fa: Option<Condition>,
    b: Seq<Seq<char>>,
    fb: Option<Condition>,
    r: Result<Parsed, ParseError>,
)
    ensures
        then_parsed(a, fa, then_parsed(b, fb, r)) == then_parsed(
            a + b,
            if fb is Some { fb } else { fa },
            r,
        ),
{
    if let Ok((p, f)) = r {
        assert(a + (b + p) =~= (a + b) + p);
    }
}

/// A query over a borrowed table: built with `new`, given its text with
/// `query`, and carried out with `run`.
pub struct Query<'a> {
    records: &'a [Record],
    projection: Vec<String>,
    filter: Option<Predicate>,
}

impl<'a> Query<'a> {
    /// The records the query runs over.
    pub closed spec fn input(&self) -> Seq<Columns> {
        self.records@.map_values(|r: Record| r@)
    }

    /// The column names that the results keep.
    pub closed spec fn projection(&self) -> Seq<Seq<char>> {
        self.projection@.map_values(|w: String| w@)
    }

    /// The filter, if the query has one.
    pub closed spec fn filter(&self) -> Option<Condition> {
        condition_of(self.filter)
    }

    /// A query over `records` that keeps no column and has no filter.
    pub fn new(records: &'a [Record]) -> (r: Self)
        ensures
            r.input() == records@.map_values(|x: Record| x@),
            r.projection() == Seq::<Seq<char>>::empty(),
            r.filter() is None,
    {
        let r = Query { records, projection: Vec::new(), filter: None };
        assert(r.projection() =~= Seq::<Seq<char>>::empty());
        r
    }

    /// Compares integers by `operation`: `>`, `<` or `=`; any other operator
    /// gives `false`.
    pub fn apply_comparison(a: i32, b: i32, operation: &str) -> (r: bool)
        ensures
            r == int_holds(a as int, b as int, operation@),
    {
        if is_operator(operation, '>') {
            a > b
        } else if is_operator(operation, '<') {
            a < b
        } else if is_operator(operation, '=') {
            a == b
        } else {
            false
        }
    }

    /// Compares text by `operation`: lexicographic for `>` and `<`, exact for
    /// `=`; any other operator gives `false`.
    pub fn apply_text_comparison(a: &str, b: &str, operation: &str) -> (r: bool)
        ensures
            r == text_holds(a@, b@, operation@),
    {
        if is_operator(operation, '>') {
            text_less(b, a)
        } else if is_operator(operation, '<') {
            text_less(a, b)
        } else if is_operator(operation, '=') {
            same_text(a, b)
        } else {
            false
        }
    }

    /// Reads the query string `query_str` and adds what it asks for to this
    /// query: its projected columns after those already kept, and its filter,
    /// if it has one, in place of the current one.
    pub fn query(self, query_str: &str) -> (r: Result<Query<'a>, ParseError>)
        ensures
            match r {
                Ok(next) => {
                    &&& next.input() == self.input()
                    &&& then_parsed(self.projection(), self.filter(), parse_query(query_str@))
                        == Ok::<Parsed, ParseError>((next.projection(), next.filter()))
                },
                Err(e) => then_parsed(self.projection(), self.filter(), parse_query(query_str@))
                    == Err::<Parsed, ParseError>(e),
            },
    {
        let ghost p0 = self.projection();
        let ghost f0 = self.filter();
        let segments = split_words(query_str);
        let ghost t = segments@.map_values(|w: String| w@);
        let records = self.records;
        let mut projection = self.projection;
        let mut filter = self.filter;
        let ghost target = then_parsed(p0, f0, parse_query(query_str@));
        proof {
            assert(projection@.map_values(|w: String| w@) == p0);
            assert(t == words(query_str@));
        }
        let mut i: usize = 0;
        while i < segments.len()
            invariant
                t == segments@.map_values(|w: String| w@),
                i <= segments@.len(),
                target == then_parsed(p0, f0, parse_query(query_str@)),
                target == then_parsed(
                    projection@.map_values(|w: String| w@),
                    condition_of(filter),
                    parse_from(t, i as int),
                ),
            decreases segments@.len() - i,
        {
            let word = segments[i].as_str();
            proof {
                assert(word@ == t[i as int]);
            }
            if project_keyword(word) {
                let ghost i0 = i;
                i += 1;
                while i < segments.len() && !filter_keyword(segments[i].as_str())
                    invariant
                        t == segments@.map_values(|w: String| w@),
                        i0 < i <= segments@.len(),
                        target == then_parsed(
                            projection@.map_values(|w: String| w@),
                            condition_of(filter),
                            parse_projection(t, i as int),
                        ),
                    decreases segments@.len() - i,
                {
                    let column = strip_commas(segments[i].as_str());
                    proof {
                        assert(segments[i as int]@ == t[i as int]);
                        let before = projection@.map_values(|w: String| w@);
                        lemma_then_parsed(
                            before,
                            condition_of(filter),
                            seq![column@],
                            None,
                            parse_projection(t, i + 1),
                        );
                        assert(projection@.push(column).map_values(|w: String| w@) =~= before
                            + seq![column@]);
                    }
                    projection.push(column);
                    i += 1;
                }
                proof {
                    if i < segments.len() {
                        assert(segments[i as int]@ == t[i as int]);
                    }
                }
            } else if filter_keyword(word) {
                if segments.len() - i <= 3 {
                    return Err(ParseError::MalformedFilterClause);
                }
                let next = Predicate {
                    column: segments[i + 1].clone(),
                    operation: segments[i + 2].clone(),
                    value: segments[i + 3].clone(),
                };
                proof {
                    assert(next@ == (t[i + 1], t[i + 2], t[i + 3]));
                    let before = projection@.map_values(|w: String| w@);
                    lemma_then_parsed(
                        before,
                        condition_of(filter),
                        Seq::empty(),
                        Some(next@),
                        parse_from(t, i + 4),
                    );
                    assert(before + Seq::<Seq<char>>::empty() =~= before);
                }
                filter = Some(next);
                i += 4;
            } else {
                i += 1;
            }
        }
        proof {
            let v = projection@.map_values(|w: String| w@);
            assert(v + Seq::<Seq<char>>::empty() =~= v);
        }
        Ok(Query { records, projection, filter })
    }

    /// Whether `value op filter_value` holds: as integers where both read as
    /// 32-bit integers, else as text.
    pub fn compare(value: &str, filter_value: &str, operation: &str) -> (r: bool)
        ensures
            r == compares(value@, filter_value@, operation@),
    {
        match (parse_i32(value), parse_i32(filter_value)) {
            (Some(a), Some(b)) => Self::apply_comparison(a, b, operation),
            _ => Self::apply_text_comparison(value, filter_value, operation),
        }
    }

    /// Whether `record` passes the query's filter.
    pub fn filter_record(&self, record: &Record) -> (r: bool)
        ensures
            r == admits(record@, self.filter()),
    {
        match &self.filter {
            None => true,
            Some(f) => match find_value(record, &f.column) {
                Some(v) => Self::compare(v.as_str(), f.value.as_str(), f.operation.as_str()),
                None => false,
            },
        }
    }

    /// A new record with the columns of `record` that the query keeps.
    pub fn project_columns(&self, record: &Record) -> (r: Record)
        ensures
            r@ == projected(record@, self.projection()),
    {
        project_record(record, &self.projection)
    }

    /// The records that pass the filter, each narrowed to the projection, in
    /// input order.
    pub fn run(self) -> (r: Vec<Record>)
        ensures
            r@.map_values(|x: Record| x@) == results(self.input(), self.projection(), self.filter()),
    {
        let ghost input = self.input();
        let ghost pred = |c: Columns| admits(c, self.filter());
        let ghost proj = |c: Columns| projected(c, self.projection());
        let mut out: Vec<Record> = Vec::new();
        let mut k: usize = 0;
        while k < self.records.len()
            invariant
                k <= self.records@.len(),
                input == self.input(),
                pred == (|c: Columns| admits(c, self.filter())),
                proj == (|c: Columns| projected(c, self.projection())),
                out@.map_values(|x: Record| x@) == input.take(k as int).filter(pred).map_values(proj),
            decreases self.records@.len() - k,
        {
            let record = &self.records[k];
            proof {
                reveal(Seq::filter);
                let p = input.take(k + 1);
                assert(p.drop_last() =~= input.take(k as int));
                assert(p.last() == record@);
            }
            if self.filter_record(record) {
                let kept = self.project_columns(record);
                proof {
                    let before = input.take(k as int).filter(pred);
                    assert(before.push(record@).map_values(proj) =~= before.map_values(proj).push(
                        kept@,
                    ));
                    assert(out@.push(kept).map_values(|x: Record| x@) =~= out@.map_values(
                        |x: Record| x@,
                    ).push(kept@));
                }
                out.push(kept);
            }
            k += 1;
        }
        proof {
            assert(input.take(k as int) =~= input);
        }
        out
    }
}

} // verus!
