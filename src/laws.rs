use vstd::prelude::*;

use crate::query_engine::{admits, compares, equal_op, greater_op, less_op, results, Condition};
use crate::record::{projected, value_of, Columns};
use crate::text::i32_of;

verus! {

proof fn lemma_filter_all<A>(s: Seq<A>, p: spec_fn(A) -> bool)
    requires
        forall|x: A| #[trigger] p(x),
    ensures
        s.filter(p) == s,
    decreases s.len(),
{
    reveal(Seq::filter);
    if s.len() > 0 {
        lemma_filter_all(s.drop_last(), p);
        assert(s.drop_last().push(s.last()) =~= s);
    }
}

proof fn lemma_filter_twice<A>(s: Seq<A>, p: spec_fn(A) -> bool)
    ensures
        s.filter(p).filter(p) == s.filter(p),
    decreases s.len(),
{
    reveal(Seq::filter);
    if s.len() > 0 {
        lemma_filter_twice(s.drop_last(), p);
        let f = s.filter(p);
        if p(s.last()) {
            assert(f.drop_last() =~= s.drop_last().filter(p));
        }
    }
}

/// Without a filter, a query returns every record, narrowed to the
/// projection, in input order.
pub proof fn law_unfiltered_run(records: Seq<Columns>, projection: Seq<Seq<char>>)
    ensures
        results(records, projection, None) == records.map_values(
            |c: Columns| projected(c, projection),
        ),
{
    let p = |c: Columns| admits(c, None);
    lemma_filter_all(records, p);
}

/// Projecting a projected record onto the same names changes nothing.
pub proof fn law_projection_idempotent(cols: Columns, projection: Seq<Seq<char>>)
    ensures
        projected(projected(cols, projection), projection) == projected(cols, projection),
{
    lemma_filter_twice(cols, |p: (Seq<char>, Seq<char>)| projection.contains(p.0));
}

/// Where both sides read as integers, `>` compares them as integers.
pub proof fn law_numeric_greater(a: Seq<char>, b: Seq<char>)
    requires
        i32_of(a) is Some,
        i32_of(b) is Some,
    ensures
        compares(a, b, greater_op()) == (i32_of(a)->0 > i32_of(b)->0),
{
}

/// Where either side is no integer, `=` is exact equality of the text.
pub proof fn law_text_equality(a: Seq<char>, b: Seq<char>)
    requires
        i32_of(a) is None || i32_of(b) is None,
    ensures
        compares(a, b, equal_op()) == (a == b),
{
    assert(equal_op()[0] != greater_op()[0]);
    assert(equal_op()[0] != less_op()[0]);
}

/// A record without the filter's column adds nothing to the results, whatever
/// the operator and the literal.
pub proof fn law_missing_column_excluded(
    before: Seq<Columns>,
    record: Columns,
    after: Seq<Columns>,
    projection: Seq<Seq<char>>,
    filter: Condition,
)
    requires
        value_of(record, filter.0) is None,
    ensures
        results(before + seq![record] + after, projection, Some(filter)) == results(
            before + after,
            projection,
            Some(filter),
        ),
{
    broadcast use Seq::filter_distributes_over_add;

    reveal(Seq::filter);
    let p = |c: Columns| admits(c, Some(filter));
    assert(seq![record].drop_last() =~= Seq::<Columns>::empty());
    assert(seq![record].last() == record);
    assert(Seq::<Columns>::empty().filter(p) =~= Seq::<Columns>::empty());
    assert(!p(record));
    assert(seq![record].filter(p) =~= Seq::<Columns>::empty());
    assert((before + seq![record]).filter(p) == before.filter(p) + seq![record].filter(p));
    assert(before.filter(p) + Seq::<Columns>::empty() =~= before.filter(p));
}

} // verus!
