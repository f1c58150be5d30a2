//! The query pipeline: filter the stored documents, group them by `cid`,
//! collect each group's deduplicated `taught_by` set, and decode each group
//! into a [`Course`] record, dropping groups that do not decode.

use vstd::prelude::*;

use crate::model::DocV;
use crate::model::Filter;
use crate::model::FilterV;
use crate::model::RawDoc;
use crate::model::Value;
use crate::model::ValueV;
use crate::model::doc_matches;
use crate::model::doc_passes;
use crate::model::lookup;
use crate::model::lookup_field;
use crate::model::seq_view;
use crate::model::value_eq;

verus! {

/// One catalog record: a course and everyone who teaches it.
pub struct Course {
    /// The course identifier: the grouping key.
    pub cid: String,
    /// The course title, from the first stored document of the group.
    pub name: String,
    /// The distinct `taught_by` entries seen across the group.
    pub taught_by: Vec<Vec<String>>,
    /// The owning faculty, from the first stored document of the group.
    pub faculty: String,
}

/// The mathematical model of a [`Course`].
pub struct CourseV {
    pub cid: Seq<char>,
    pub name: Seq<char>,
    pub taught_by: Seq<Seq<Seq<char>>>,
    pub faculty: Seq<char>,
}

/// The view of a sequence of string rows, row by row.
pub open spec fn rows_view(s: Seq<Vec<String>>) -> Seq<Seq<Seq<char>>> {
    Seq::new(s.len(), |i: int| seq_view(s[i]@))
}

impl View for Course {
    type V = CourseV;

    open spec fn view(&self) -> CourseV {
        CourseV {
            cid: self.cid@,
            name: self.name@,
            taught_by: rows_view(self.taught_by@),
            faculty: self.faculty@,
        }
    }
}

/// The `cid` of a document, when that field is text.
pub open spec fn doc_cid(d: DocV) -> Option<Seq<char>> {
    match lookup(d, "cid"@) {
        Some(ValueV::Text(c)) => Some(c),
        _ => None,
    }
}

/// The `taught_by` value of a document, whatever its shape.
pub open spec fn taught_by_of(d: DocV) -> Option<ValueV> {
    lookup(d, "taught_by"@)
}

/// Whether a document belongs to the group of courses with identifier `c`
/// under filter `f`.
pub open spec fn in_group(d: DocV, f: FilterV, c: Seq<char>) -> bool {
    doc_matches(d, f) && doc_cid(d) == Some(c)
}

/// The distinct text `cid`s of the documents passing the filter, in order
/// of first appearance.
pub open spec fn cids_of(docs: Seq<DocV>, f: FilterV) -> Seq<Seq<char>>
    decreases docs.len(),
{
    if docs.len() == 0 {
        Seq::empty()
    } else {
        let prev = cids_of(docs.drop_last(), f);
        match doc_cid(docs.last()) {
            Some(c) => if doc_matches(docs.last(), f) && !prev.contains(c) {
                prev.push(c)
            } else {
                prev
            },
            None => prev,
        }
    }
}

/// The first document of group `c`, if the group is inhabited.
pub open spec fn first_in_group(docs: Seq<DocV>, f: FilterV, c: Seq<char>) -> Option<DocV>
    decreases docs.len(),
{
    if docs.len() == 0 {
        None
    } else {
        match first_in_group(docs.drop_last(), f, c) {
            Some(d) => Some(d),
            None => if in_group(docs.last(), f, c) {
                Some(docs.last())
            } else {
                None
            },
        }
    }
}

/// The distinct `taught_by` values of group `c`, in order of first
/// appearance; documents without the field contribute nothing.
pub open spec fn tb_values(docs: Seq<DocV>, f: FilterV, c: Seq<char>) -> Seq<ValueV>
    decreases docs.len(),
{
    if docs.len() == 0 {
        Seq::empty()
    } else {
        let prev = tb_values(docs.drop_last(), f, c);
        if in_group(docs.last(), f, c) {
            match taught_by_of(docs.last()) {
                Some(v) => if prev.contains(v) {
                    prev
                } else {
                    prev.push(v)
                },
                None => prev,
            }
        } else {
            prev
        }
    }
}

/// The rows of a list value; the empty sequence on any other shape.
pub open spec fn list_of(v: ValueV) -> Seq<Seq<char>> {
    match v {
        ValueV::List(l) => l,
        _ => Seq::empty(),
    }
}

/// Whether every value of a sequence is a list.
pub open spec fn all_lists(vs: Seq<ValueV>) -> bool {
    forall|i: int| 0 <= i < vs.len() ==> (#[trigger] vs[i]) is List
}

/// The record group `c` decodes to: its `name` and `faculty` are the first
/// document's, its `taught_by` the group's distinct entries.  `None` when
/// the group is empty, `name` or `faculty` is not text, or any `taught_by`
/// value is not a list of strings.
pub open spec fn decode_group(docs: Seq<DocV>, f: FilterV, c: Seq<char>) -> Option<CourseV> {
    match first_in_group(docs, f, c) {
        None => None,
        Some(d) => match (lookup(d, "name"@), lookup(d, "faculty"@)) {
            (Some(ValueV::Text(n)), Some(ValueV::Text(fac))) => {
                let tbs = tb_values(docs, f, c);
                if all_lists(tbs) {
                    Some(
                        (CourseV {
                            cid: c,
                            name: n,
                            taught_by: tbs.map(|i: int, v: ValueV| list_of(v)),
                            faculty: fac,
                        }),
                    )
                } else {
                    None
                }
            },
            _ => None,
        },
    }
}

/// The records the groups named by `cs` decode to, in order, groups that do
/// not decode left out.
pub open spec fn courses_for(docs: Seq<DocV>, f: FilterV, cs: Seq<Seq<char>>) -> Seq<CourseV>
    decreases cs.len(),
{
    if cs.len() == 0 {
        Seq::empty()
    } else {
        let prev = courses_for(docs, f, cs.drop_last());
        match decode_group(docs, f, cs.last()) {
            Some(course) => prev.push(course),
            None => prev,
        }
    }
}

/// The whole pipeline: one record per distinct `cid` among the documents
/// passing the filter, in order of first appearance, groups that do not
/// decode left out.
pub open spec fn query_spec(docs: Seq<DocV>, f: FilterV) -> Seq<CourseV> {
    courses_for(docs, f, cids_of(docs, f))
}

/// The model of an optional filter: no filter means no clauses.
pub open spec fn filter_view(filter: Option<&Filter>) -> FilterV {
    match filter {
        Some(f) => f@,
        None => Seq::empty(),
    }
}

/// Whether some string of `v` holds the text `s`.
fn contains_str(v: &Vec<String>, s: &String) -> (r: bool)
    ensures
        r == seq_view(v@).contains(s@),
{
    let mut i: usize = 0;
    while i < v.len()
        invariant
            i <= v@.len(),
            forall|j: int| 0 <= j < i ==> seq_view(v@)[j] != s@,
        decreases v@.len() - i,
    {
        if v[i] == *s {
            proof {
                assert(seq_view(v@)[i as int] == s@);
            }
            return true;
        }
        i += 1;
    }
    false
}

/// Whether some value of `v` has the model of `x`.
fn contains_value(v: &Vec<Value>, x: &Value) -> (r: bool)
    ensures
        r == seq_view(v@).contains(x@),
{
    let mut i: usize = 0;
    while i < v.len()
        invariant
            i <= v@.len(),
            forall|j: int| 0 <= j < i ==> seq_view(v@)[j] != x@,
        decreases v@.len() - i,
    {
        if value_eq(&v[i], x) {
            proof {
                assert(seq_view(v@)[i as int] == x@);
            }
            return true;
        }
        i += 1;
    }
    false
}

/// The distinct text `cid`s of the documents passing the filter, in order
/// of first appearance.
fn collect_cids(docs: &Vec<RawDoc>, f: &Filter) -> (r: Vec<String>)
    ensures
        seq_view(r@) == cids_of(seq_view(docs@), f@),
{
    let key_cid = String::from_str("cid");
    let mut cids: Vec<String> = Vec::new();
    let ghost dv = seq_view(docs@);
    let mut i: usize = 0;
    proof {
        assert(dv.take(0) =~= Seq::<DocV>::empty());
        assert(seq_view(cids@) =~= Seq::<Seq<char>>::empty());
    }
    while i < docs.len()
        invariant
            i <= docs@.len(),
            dv == seq_view(docs@),
            key_cid@ == "cid"@,
            seq_view(cids@) == cids_of(dv.take(i as int), f@),
        decreases docs@.len() - i,
    {
        proof {
            assert(dv.take(i as int + 1).drop_last() =~= dv.take(i as int));
            assert(dv.take(i as int + 1).last() == dv[i as int]);
        }
        let d = &docs[i];
        if doc_passes(d, f) {
            match lookup_field(d, &key_cid) {
                Some(v) => match v {
                    Value::Text(s) => {
                        if !contains_str(&cids, &s) {
                            proof {
                                assert(seq_view(cids@.push(s)) =~= seq_view(cids@).push(s@));
                            }
                            cids.push(s);
                        }
                    },
                    _ => {},
                },
                None => {},
            }
        }
        i += 1;
    }
    proof {
        assert(dv.take(docs@.len() as int) =~= dv);
    }
    cids
}

/// The record group `c` decodes to, if any.
#[verifier::loop_isolation(false)]
fn build_course(docs: &Vec<RawDoc>, f: &Filter, c: &String) -> (r: Option<Course>)
    ensures
        (match r {
            Some(course) => Some(course@),
            None => None,
        }) == decode_group(seq_view(docs@), f@, c@),
{
    let key_cid = String::from_str("cid");
    let key_tb = String::from_str("taught_by");
    let ghost dv = seq_view(docs@);
    let mut first: Option<usize> = None;
    let mut tbs: Vec<Value> = Vec::new();
    let mut i: usize = 0;
    proof {
        assert(dv.take(0) =~= Seq::<DocV>::empty());
        assert(seq_view(tbs@) =~= Seq::<ValueV>::empty());
    }
    while i < docs.len()
        invariant
            i <= docs@.len(),
            dv == seq_view(docs@),
            key_cid@ == "cid"@,
            key_tb@ == "taught_by"@,
            match first {
                None => first_in_group(dv.take(i as int), f@, c@) is None,
                Some(j) => j < i && i <= docs@.len() && first_in_group(dv.take(i as int), f@, c@)
                    == Some(dv[j as int]),
            },
            seq_view(tbs@) == tb_values(dv.take(i as int), f@, c@),
        decreases docs@.len() - i,
    {
        proof {
            assert(dv.take(i as int + 1).drop_last() =~= dv.take(i as int));
            assert(dv.take(i as int + 1).last() == dv[i as int]);
        }
        let d = &docs[i];
        let mut ing: bool = false;
        if doc_passes(d, f) {
            match lookup_field(d, &key_cid) {
                Some(Value::Text(s)) => {
                    if s == *c {
                        ing = true;
                    }
                },
                _ => {},
            }
        }
        proof {
            assert(ing == in_group(dv[i as int], f@, c@));
        }
        if ing {
            if first.is_none() {
                first = Some(i);
            }
            match lookup_field(d, &key_tb) {
                Some(v) => {
                    if !contains_value(&tbs, &v) {
                        proof {
                            assert(seq_view(tbs@.push(v)) =~= seq_view(tbs@).push(v@));
                        }
                        tbs.push(v);
                    }
                },
                None => {},
            }
        }
        i += 1;
    }
    proof {
        assert(dv.take(docs@.len() as int) =~= dv);
    }
    match first {
        None => None,
        Some(j) => {
            let d = &docs[j];
            let key_name = String::from_str("name");
            let key_fac = String::from_str("faculty");
            let name = lookup_field(d, &key_name);
            let fac = lookup_field(d, &key_fac);
            match (name, fac) {
                (Some(Value::Text(n)), Some(Value::Text(fc))) => {
                    let ghost tbv = tb_values(dv, f@, c@);
                    let mut rows: Vec<Vec<String>> = Vec::new();
                    let mut k: usize = 0;
                    while k < tbs.len()
                        invariant
                            k <= tbs@.len(),
                            seq_view(tbs@) == tbv,
                            rows@.len() == k,
                            forall|q: int| 0 <= q < k ==> (#[trigger] tbv[q]) is List,
                            forall|q: int| 0 <= q < k ==> seq_view(#[trigger] rows@[q]@) == list_of(
                                tbv[q],
                            ),
                        decreases tbs@.len() - k,
                    {
                        let tk = &tbs[k];
                        match tk {
                            Value::List(l) => {
                                let row = crate::model::clone_strings(l);
                                proof {
                                    assert(seq_view(tbs@)[k as int] == tbs@[k as int]@);
                                }
                                rows.push(row);
                            },
                            _ => {
                                proof {
                                    assert(!((tbv[k as int]) is List));
                                    assert(!all_lists(tbv));
                                }
                                return None;
                            },
                        }
                        k += 1;
                    }
                    proof {
                        assert(all_lists(tbv));
                        assert(rows_view(rows@) =~= tbv.map(|q: int, v: ValueV| list_of(v)));
                    }
                    Some(
                        Course {
                            cid: c.clone(),
                            name: n,
                            taught_by: rows,
                            faculty: fc,
                        },
                    )
                },
                _ => None,
            }
        },
    }
}

/// Run the whole query: one [`Course`] per distinct `cid` among the stored
/// documents passing the filter, in order of first appearance, with the
/// group's distinct `taught_by` entries; groups that do not decode into the
/// `Course` shape are dropped silently.  No filter means every document
/// passes.
pub fn fetch_courses(docs: &Vec<RawDoc>, filter: Option<&Filter>) -> (out: Vec<Course>)
    ensures
        seq_view(out@) == query_spec(seq_view(docs@), filter_view(filter)),
{
    let empty = Filter { clauses: Vec::new() };
    let f: &Filter = match filter {
        Some(g) => g,
        None => &empty,
    };
    proof {
        assert(f@ =~= filter_view(filter));
    }
    let ghost dv = seq_view(docs@);
    let ghost fv = filter_view(filter);
    let cids = collect_cids(docs, f);
    let ghost cv = seq_view(cids@);
    let mut out: Vec<Course> = Vec::new();
    let mut k: usize = 0;
    proof {
        assert(cv.take(0) =~= Seq::<Seq<char>>::empty());
        assert(seq_view(out@) =~= Seq::<CourseV>::empty());
    }
    while k < cids.len()
        invariant
            k <= cids@.len(),
            dv == seq_view(docs@),
            fv == f@,
            cv == seq_view(cids@),
            cv == cids_of(dv, fv),
            seq_view(out@) == courses_for(dv, fv, cv.take(k as int)),
        decreases cids@.len() - k,
    {
        proof {
            assert(cv.take(k as int + 1).drop_last() =~= cv.take(k as int));
            assert(cv.take(k as int + 1).last() == cv[k as int]);
            assert(cv[k as int] == cids@[k as int]@);
        }
        match build_course(docs, f, &cids[k]) {
            Some(course) => {
                proof {
                    assert(seq_view(out@.push(course)) =~= seq_view(out@).push(course@));
                }
                out.push(course);
            },
            None => {},
        }
        k += 1;
    }
    proof {
        assert(cv.take(cids@.len() as int) =~= cv);
    }
    out
}

} // verus!
