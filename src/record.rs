use vstd::prelude::*;

verus! {

/// A record as the logic sees it: (column name, value) pairs in their stored order.
pub type Columns = Seq<(Seq<char>, Seq<char>)>;

/// One row of a table: named string fields, in the order the source gave them.
#[derive(Debug)]
pub struct Record {
    pub columns: Vec<(String, String)>,
}

impl View for Record {
    type V = Columns;

    open spec fn view(&self) -> Columns {
        self.columns@.map_values(|p: (String, String)| (p.0@, p.1@))
    }
}

/// The value of the first column of `cols` called `name`, if there is one.
pub open spec fn value_of(cols: Columns, name: Seq<char>) -> Option<Seq<char>>
    decreases cols.len(),
{
    if cols.len() == 0 {
        None
    } else if cols[0].0 == name {
        Some(cols[0].1)
    } else {
        value_of(cols.drop_first(), name)
    }
}

/// The columns of `cols` whose name occurs in `projection`, in the order of `cols`.
pub open spec fn projected(cols: Columns, projection: Seq<Seq<char>>) -> Columns {
    cols.filter(|p: (Seq<char>, Seq<char>)| projection.contains(p.0))
}

/// Whether `name` occurs in `names`.
pub fn contains_name(names: &Vec<String>, name: &String) -> (r: bool)
    ensures
        r == names@.map_values(|w: String| w@).contains(name@),
{
    let ghost v = names@.map_values(|w: String| w@);
    let mut k: usize = 0;
    while k < names.len()
        invariant
            k <= names@.len(),
            v == names@.map_values(|w: String| w@),
            forall|j: int| 0 <= j < k ==> v[j] != name@,
        decreases names@.len() - k,
    {
        if names[k] == *name {
            assert(v[k as int] == name@);
            return true;
        }
        k += 1;
    }
    proof {
        if v.contains(name@) {
            let j = choose|j: int| 0 <= j < v.len() && v[j] == name@;
            assert(v[j] != name@);
        }
    }
    false
}

/// The value of the first column of `record` called `name`.
pub fn find_value<'r>(record: &'r Record, name: &String) -> (r: Option<&'r String>)
    ensures
        match r {
            Some(v) => value_of(record@, name@) == Some(v@),
            None => value_of(record@, name@) is None,
        },
{
    let ghost cols = record@;
    let mut k: usize = 0;
    proof {
        assert(cols.skip(0) =~= cols);
    }
    while k < record.columns.len()
        invariant
            k <= record.columns@.len(),
            cols == record@,
            value_of(cols, name@) == value_of(cols.skip(k as int), name@),
        decreases record.columns@.len() - k,
    {
        let pair = &record.columns[k];
        proof {
            assert(cols.skip(k as int)[0] == cols[k as int]);
            assert(cols.skip(k as int).drop_first() =~= cols.skip(k + 1));
        }
        if pair.0 == *name {
            return Some(&pair.1);
        }
        k += 1;
    }
    None
}

/// A new record with the columns of `record` whose name occurs in `projection`.
pub fn project_record(record: &Record, projection: &Vec<String>) -> (r: Record)
    ensures
        r@ == projected(record@, projection@.map_values(|w: String| w@)),
{
    let ghost names = projection@.map_values(|w: String| w@);
    let ghost cols = record@;
    let mut out: Vec<(String, String)> = Vec::new();
    let mut k: usize = 0;
    while k < record.columns.len()
        invariant
            k <= record.columns@.len(),
            cols == record@,
            names == projection@.map_values(|w: String| w@),
            out@.map_values(|p: (String, String)| (p.0@, p.1@)) == projected(
                cols.take(k as int),
                names,
            ),
        decreases record.columns@.len() - k,
    {
        let pair = &record.columns[k];
        proof {
            reveal(Seq::filter);
            let p = cols.take(k + 1);
            assert(p.drop_last() =~= cols.take(k as int));
            assert(p.last() == cols[k as int]);
        }
        if contains_name(projection, &pair.0) {
            let kept = (pair.0.clone(), pair.1.clone());
            proof {
                assert(out@.push(kept).map_values(|p: (String, String)| (p.0@, p.1@)) =~= out@.map_values(
                    |p: (String, String)| (p.0@, p.1@),
                ).push(cols[k as int]));
            }
            out.push(kept);
        }
        k += 1;
    }
    proof {
        assert(cols.take(k as int) =~= cols);
    }
    Record { columns: out }
}

} // verus!
