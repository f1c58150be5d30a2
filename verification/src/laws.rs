//! The properties the query pipeline is held to, stated over the models of
//! [`crate::query::fetch_courses`]'s inputs and output and proved from the
//! definitions in [`crate::query`].

use vstd::prelude::*;

use crate::model::DocV;
use crate::model::FilterV;
use crate::model::ValueV;
use crate::model::doc_matches;
use crate::model::lookup;
use crate::query::CourseV;
use crate::query::all_lists;
use crate::query::cids_of;
use crate::query::courses_for;
use crate::query::decode_group;
use crate::query::doc_cid;
use crate::query::first_in_group;
use crate::query::in_group;
use crate::query::list_of;
use crate::query::query_spec;
use crate::query::taught_by_of;
use crate::query::tb_values;

verus! {

/// A stored document of the shape the catalog expects: text `cid`, `name`
/// and `faculty`, and, when the field is present at all, a list-of-strings
/// `taught_by`.
pub open spec fn wf_doc(d: DocV) -> bool {
    &&& doc_cid(d) is Some
    &&& lookup(d, "name"@) matches Some(ValueV::Text(_))
    &&& lookup(d, "faculty"@) matches Some(ValueV::Text(_))
    &&& match taught_by_of(d) {
        Some(v) => v is List,
        None => true,
    }
}

/// The grouping keys carry no duplicates: no `cid` is listed twice.
pub proof fn lemma_cids_no_dup(docs: Seq<DocV>, f: FilterV)
    ensures
        cids_of(docs, f).no_duplicates(),
    decreases docs.len(),
{
    if docs.len() == 0 {
    } else {
        let pre = docs.drop_last();
        lemma_cids_no_dup(pre, f);
        let prev = cids_of(pre, f);
        if cids_of(docs, f) != prev {
            let c = cids_of(docs, f).last();
            assert(!prev.contains(c));
            assert forall|i: int, j: int|
                0 <= i < prev.push(c).len() && 0 <= j < prev.push(c).len() && i
                    != j implies prev.push(c)[i] != prev.push(c)[j] by {
                if j == prev.len() {
                    assert(prev.contains(prev[i]));
                } else if i == prev.len() {
                    assert(prev.contains(prev[j]));
                }
            }
        }
    }
}

/// A `cid` is listed exactly when some document passing the filter carries
/// it as text.
pub proof fn lemma_cids_iff(docs: Seq<DocV>, f: FilterV, c: Seq<char>)
    ensures
        cids_of(docs, f).contains(c) <==> exists|i: int|
            0 <= i < docs.len() && in_group(#[trigger] docs[i], f, c),
    decreases docs.len(),
{
    if docs.len() == 0 {
    } else {
        let pre = docs.drop_last();
        lemma_cids_iff(pre, f, c);
        if cids_of(docs, f).contains(c) {
            if cids_of(pre, f).contains(c) {
                let i = choose|i: int| 0 <= i < pre.len() && in_group(#[trigger] pre[i], f, c);
                assert(in_group(docs[i], f, c));
            } else {
                let k = choose|k: int|
                    0 <= k < cids_of(docs, f).len() && cids_of(docs, f)[k] == c;
                assert(in_group(docs[docs.len() - 1], f, c));
            }
        }
        if exists|i: int| 0 <= i < docs.len() && in_group(#[trigger] docs[i], f, c) {
            let i = choose|i: int| 0 <= i < docs.len() && in_group(#[trigger] docs[i], f, c);
            if i < docs.len() - 1 {
                assert(in_group(pre[i], f, c));
                assert(cids_of(pre, f).contains(c));
                let k = choose|k: int| 0 <= k < cids_of(pre, f).len() && cids_of(pre, f)[k] == c;
                assert(cids_of(docs, f)[k] == c);
                assert(cids_of(docs, f).contains(c));
            } else {
                if !cids_of(pre, f).contains(c) {
                    assert(cids_of(docs, f).last() == c);
                    assert(cids_of(docs, f).contains(c));
                } else {
                    let k = choose|k: int|
                        0 <= k < cids_of(pre, f).len() && cids_of(pre, f)[k] == c;
                    assert(cids_of(docs, f)[k] == c);
                    assert(cids_of(docs, f).contains(c));
                }
            }
        }
    }
}

/// The first document of a group is one of its documents, and the group has
/// a first document exactly when it is inhabited.
pub proof fn lemma_first_in_group(docs: Seq<DocV>, f: FilterV, c: Seq<char>)
    ensures
        match first_in_group(docs, f, c) {
            Some(d) => in_group(d, f, c) && exists|i: int| 0 <= i < docs.len() && #[trigger] docs[i]
                == d,
            None => forall|i: int| 0 <= i < docs.len() ==> !in_group(#[trigger] docs[i], f, c),
        },
    decreases docs.len(),
{
    if docs.len() == 0 {
    } else {
        let pre = docs.drop_last();
        lemma_first_in_group(pre, f, c);
        match first_in_group(pre, f, c) {
            Some(d) => {
                let i = choose|i: int| 0 <= i < pre.len() && #[trigger] pre[i] == d;
                assert(docs[i] == d);
            },
            None => {
                if in_group(docs.last(), f, c) {
                    assert(docs[docs.len() - 1] == docs.last());
                } else {
                    assert forall|i: int| 0 <= i < docs.len() implies !in_group(
                        #[trigger] docs[i],
                        f,
                        c,
                    ) by {
                        if i < docs.len() - 1 {
                            assert(pre[i] == docs[i]);
                            assert(!in_group(pre[i], f, c));
                        } else {
                            assert(docs[i] == docs.last());
                        }
                    }
                }
            },
        }
    }
}

/// Every collected `taught_by` value comes from some document of the group.
pub proof fn lemma_tb_sound(docs: Seq<DocV>, f: FilterV, c: Seq<char>)
    ensures
        forall|k: int| 0 <= k < tb_values(docs, f, c).len() ==> exists|i: int|
            0 <= i < docs.len() && in_group(#[trigger] docs[i], f, c) && taught_by_of(docs[i])
                == Some(#[trigger] tb_values(docs, f, c)[k]),
    decreases docs.len(),
{
    if docs.len() == 0 {
    } else {
        let pre = docs.drop_last();
        lemma_tb_sound(pre, f, c);
        let prev = tb_values(pre, f, c);
        assert forall|k: int| 0 <= k < tb_values(docs, f, c).len() implies exists|i: int|
            0 <= i < docs.len() && in_group(#[trigger] docs[i], f, c) && taught_by_of(docs[i])
                == Some(#[trigger] tb_values(docs, f, c)[k]) by {
            if k < prev.len() {
                let i = choose|i: int|
                    0 <= i < pre.len() && in_group(#[trigger] pre[i], f, c) && taught_by_of(pre[i])
                        == Some(prev[k]);
                assert(in_group(docs[i], f, c));
                assert(tb_values(docs, f, c)[k] == prev[k]);
            } else {
                assert(in_group(docs[docs.len() - 1], f, c));
            }
        }
    }
}

/// A `taught_by` value seen on any document of the group is collected.
pub proof fn lemma_tb_complete(docs: Seq<DocV>, f: FilterV, c: Seq<char>, i: int, v: ValueV)
    requires
        0 <= i < docs.len(),
        in_group(docs[i], f, c),
        taught_by_of(docs[i]) == Some(v),
    ensures
        tb_values(docs, f, c).contains(v),
    decreases docs.len(),
{
    let pre = docs.drop_last();
    let prev = tb_values(pre, f, c);
    if i == docs.len() - 1 {
        if prev.contains(v) {
        } else {
            assert(tb_values(docs, f, c).last() == v);
        }
    } else {
        lemma_tb_complete(pre, f, c, i, v);
        let k = choose|k: int| 0 <= k < prev.len() && prev[k] == v;
        assert(tb_values(docs, f, c)[k] == v);
    }
}

/// The collected `taught_by` values carry no duplicates.
pub proof fn lemma_tb_no_dup(docs: Seq<DocV>, f: FilterV, c: Seq<char>)
    ensures
        tb_values(docs, f, c).no_duplicates(),
    decreases docs.len(),
{
    if docs.len() == 0 {
    } else {
        let pre = docs.drop_last();
        lemma_tb_no_dup(pre, f, c);
        let prev = tb_values(pre, f, c);
        if tb_values(docs, f, c) != prev {
            let v = tb_values(docs, f, c).last();
            assert(!prev.contains(v));
            assert forall|p: int, q: int|
                0 <= p < prev.push(v).len() && 0 <= q < prev.push(v).len() && p
                    != q implies prev.push(v)[p] != prev.push(v)[q] by {
                if q == prev.len() {
                    assert(prev.contains(prev[p]));
                } else if p == prev.len() {
                    assert(prev.contains(prev[q]));
                }
            }
        }
    }
}

/// When every listed group decodes, the pipeline emits one record per
/// listed group.
pub proof fn lemma_courses_len(docs: Seq<DocV>, f: FilterV, cs: Seq<Seq<char>>)
    requires
        forall|k: int| 0 <= k < cs.len() ==> decode_group(docs, f, #[trigger] cs[k]) is Some,
    ensures
        courses_for(docs, f, cs).len() == cs.len(),
    decreases cs.len(),
{
    if cs.len() == 0 {
    } else {
        lemma_courses_len(docs, f, cs.drop_last());
    }
}

/// Every emitted record is the decoding of some listed group.
pub proof fn lemma_courses_members(docs: Seq<DocV>, f: FilterV, cs: Seq<Seq<char>>)
    ensures
        forall|q: int| 0 <= q < courses_for(docs, f, cs).len() ==> exists|k: int|
            0 <= k < cs.len() && decode_group(docs, f, #[trigger] cs[k]) == Some(
                #[trigger] courses_for(docs, f, cs)[q],
            ),
    decreases cs.len(),
{
    if cs.len() == 0 {
    } else {
        let pcs = cs.drop_last();
        lemma_courses_members(docs, f, pcs);
        let prev = courses_for(docs, f, pcs);
        assert forall|q: int| 0 <= q < courses_for(docs, f, cs).len() implies exists|k: int|
            0 <= k < cs.len() && decode_group(docs, f, #[trigger] cs[k]) == Some(
                #[trigger] courses_for(docs, f, cs)[q],
            ) by {
            if q < prev.len() {
                let k = choose|k: int|
                    0 <= k < pcs.len() && decode_group(docs, f, #[trigger] pcs[k]) == Some(prev[q]);
                assert(cs[k] == pcs[k]);
                assert(courses_for(docs, f, cs)[q] == prev[q]);
            } else {
                assert(decode_group(docs, f, cs[cs.len() - 1]) == Some(
                    courses_for(docs, f, cs)[q],
                ));
            }
        }
    }
}

/// A group listed among the keys decodes whenever every document passing
/// the filter is well formed.
pub proof fn lemma_decode_some(docs: Seq<DocV>, f: FilterV, c: Seq<char>)
    requires
        cids_of(docs, f).contains(c),
        forall|i: int| 0 <= i < docs.len() && doc_matches(#[trigger] docs[i], f) ==> wf_doc(
            docs[i],
        ),
    ensures
        decode_group(docs, f, c) is Some,
{
    lemma_cids_iff(docs, f, c);
    lemma_first_in_group(docs, f, c);
    let d = first_in_group(docs, f, c)->0;
    let i = choose|i: int| 0 <= i < docs.len() && #[trigger] docs[i] == d;
    assert(wf_doc(d));
    lemma_tb_sound(docs, f, c);
    let tbs = tb_values(docs, f, c);
    assert forall|k: int| 0 <= k < tbs.len() implies (#[trigger] tbs[k]) is List by {
        let j = choose|j: int|
            0 <= j < docs.len() && in_group(#[trigger] docs[j], f, c) && taught_by_of(docs[j])
                == Some(tbs[k]);
        assert(wf_doc(docs[j]));
    }
    assert(all_lists(tbs));
}

/// Grouping correctness: with well-formed stored documents, the query
/// returns exactly one record per distinct `cid` among the documents
/// passing the filter.
pub proof fn law_grouping_count(docs: Seq<DocV>, f: FilterV)
    requires
        forall|i: int| 0 <= i < docs.len() && doc_matches(#[trigger] docs[i], f) ==> wf_doc(
            docs[i],
        ),
    ensures
        query_spec(docs, f).len() == cids_of(docs, f).len(),
        cids_of(docs, f).no_duplicates(),
        forall|c: Seq<char>| #[trigger] cids_of(docs, f).contains(c) <==> exists|i: int|
            0 <= i < docs.len() && in_group(#[trigger] docs[i], f, c),
{
    lemma_cids_no_dup(docs, f);
    assert forall|c: Seq<char>| #[trigger] cids_of(docs, f).contains(c) <==> exists|i: int|
        0 <= i < docs.len() && in_group(#[trigger] docs[i], f, c) by {
        lemma_cids_iff(docs, f, c);
    }
    let cs = cids_of(docs, f);
    assert forall|k: int| 0 <= k < cs.len() implies decode_group(docs, f, #[trigger] cs[k])
        is Some by {
        assert(cs.contains(cs[k]));
        lemma_decode_some(docs, f, cs[k]);
    }
    lemma_courses_len(docs, f, cs);
}

/// Deduplication: a `taught_by` entry seen on any document of a group
/// appears in that group's record exactly once — the record contains it,
/// and the record's entries carry no duplicates.
pub proof fn law_taught_by_dedup(docs: Seq<DocV>, f: FilterV, c: Seq<char>, i: int, v: ValueV)
    requires
        0 <= i < docs.len(),
        in_group(docs[i], f, c),
        taught_by_of(docs[i]) == Some(v),
    ensures
        match decode_group(docs, f, c) {
            Some(course) => course.taught_by.contains(list_of(v))
                && course.taught_by.no_duplicates(),
            None => true,
        },
{
    match decode_group(docs, f, c) {
        Some(course) => {
            let tbs = tb_values(docs, f, c);
            lemma_tb_complete(docs, f, c, i, v);
            let k = choose|k: int| 0 <= k < tbs.len() && tbs[k] == v;
            assert(course.taught_by[k] == list_of(v));
            assert(course.taught_by.contains(list_of(v)));
            lemma_tb_no_dup(docs, f, c);
            assert forall|p: int, q: int|
                0 <= p < course.taught_by.len() && 0 <= q < course.taught_by.len() && p
                    != q implies course.taught_by[p] != course.taught_by[q] by {
                assert(tbs[p] is List);
                assert(tbs[q] is List);
                assert(tbs[p] == ValueV::List(list_of(tbs[p])));
                assert(tbs[q] == ValueV::List(list_of(tbs[q])));
                assert(course.taught_by[p] == list_of(tbs[p]));
                assert(course.taught_by[q] == list_of(tbs[q]));
            }
        },
        None => {},
    }
}

/// Filter pass-through: under a filter with a `faculty` equality clause,
/// every returned record carries that faculty.
pub proof fn law_filter_passthrough(docs: Seq<DocV>, f: FilterV, val: Seq<char>)
    requires
        f.contains(("faculty"@, val)),
    ensures
        forall|q: int| 0 <= q < query_spec(docs, f).len() ==> (#[trigger] query_spec(
            docs,
            f,
        )[q]).faculty == val,
{
    let cs = cids_of(docs, f);
    lemma_courses_members(docs, f, cs);
    assert forall|q: int| 0 <= q < query_spec(docs, f).len() implies (#[trigger] query_spec(
        docs,
        f,
    )[q]).faculty == val by {
        let course = query_spec(docs, f)[q];
        let k = choose|k: int|
            0 <= k < cs.len() && decode_group(docs, f, #[trigger] cs[k]) == Some(course);
        lemma_first_in_group(docs, f, cs[k]);
        let d = first_in_group(docs, f, cs[k])->0;
        let j = choose|j: int| 0 <= j < f.len() && #[trigger] f[j] == ("faculty"@, val);
        assert(lookup(d, f[j].0) == Some(ValueV::Text(f[j].1)));
    }
}

/// Decode resilience, at the store: a document that fails the filter or
/// carries no text `cid` changes nothing in the result.
pub proof fn law_undecodable_doc_ignored(docs: Seq<DocV>, f: FilterV, d: DocV)
    requires
        !doc_matches(d, f) || doc_cid(d) is None,
    ensures
        query_spec(docs.push(d), f) == query_spec(docs, f),
{
    let docs2 = docs.push(d);
    assert(docs2.drop_last() =~= docs);
    assert(docs2.last() == d);
    assert(cids_of(docs2, f) == cids_of(docs, f));
    assert forall|c: Seq<char>| #[trigger] decode_group(docs2, f, c) == decode_group(
        docs,
        f,
        c,
    ) by {
        assert(!in_group(d, f, c));
        assert(first_in_group(docs2, f, c) == first_in_group(docs, f, c));
        assert(tb_values(docs2, f, c) == tb_values(docs, f, c));
    }
    lemma_courses_congruent(docs2, docs, f, cids_of(docs, f));
}

/// Two document stores whose groups decode alike list the same records.
pub proof fn lemma_courses_congruent(a: Seq<DocV>, b: Seq<DocV>, f: FilterV, cs: Seq<Seq<char>>)
    requires
        forall|c: Seq<char>| #[trigger] decode_group(a, f, c) == decode_group(b, f, c),
    ensures
        courses_for(a, f, cs) == courses_for(b, f, cs),
    decreases cs.len(),
{
    if cs.len() == 0 {
    } else {
        lemma_courses_congruent(a, b, f, cs.drop_last());
    }
}

/// Decode resilience, in a group: a group one of whose documents carries a
/// `taught_by` of the wrong shape is dropped whole — no returned record
/// carries its `cid`; the rest of the result is untouched by construction.
pub proof fn law_malformed_group_excluded(
    docs: Seq<DocV>,
    f: FilterV,
    c: Seq<char>,
    i: int,
    v: ValueV,
)
    requires
        0 <= i < docs.len(),
        in_group(docs[i], f, c),
        taught_by_of(docs[i]) == Some(v),
        !(v is List),
    ensures
        forall|q: int| 0 <= q < query_spec(docs, f).len() ==> (#[trigger] query_spec(docs, f)[q]).cid
            != c,
{
    lemma_tb_complete(docs, f, c, i, v);
    let tbs = tb_values(docs, f, c);
    let k = choose|k: int| 0 <= k < tbs.len() && tbs[k] == v;
    assert(!all_lists(tbs));
    assert(decode_group(docs, f, c) is None);
    let cs = cids_of(docs, f);
    lemma_courses_members(docs, f, cs);
    assert forall|q: int| 0 <= q < query_spec(docs, f).len() implies (#[trigger] query_spec(
        docs,
        f,
    )[q]).cid != c by {
        let course = query_spec(docs, f)[q];
        let m = choose|m: int|
            0 <= m < cs.len() && decode_group(docs, f, #[trigger] cs[m]) == Some(course);
        assert(course.cid == cs[m]);
    }
}

/// Empty filter: with no clauses every document passes, so the query
/// returns one record per distinct `cid` across the whole store when the
/// stored documents are well formed.
pub proof fn law_empty_filter(docs: Seq<DocV>, f: FilterV)
    requires
        f.len() == 0,
        forall|i: int| 0 <= i < docs.len() ==> wf_doc(#[trigger] docs[i]),
    ensures
        forall|d: DocV| doc_matches(d, f),
        query_spec(docs, f).len() == cids_of(docs, f).len(),
        forall|c: Seq<char>| #[trigger] cids_of(docs, f).contains(c) <==> exists|i: int|
            0 <= i < docs.len() && doc_cid(#[trigger] docs[i]) == Some(c),
{
    assert forall|d: DocV| doc_matches(d, f) by {
        assert forall|j: int| 0 <= j < f.len() implies lookup(d, #[trigger] f[j].0) == Some(
            ValueV::Text(f[j].1),
        ) by {
            assert(false);
        }
    }
    law_grouping_count(docs, f);
}

/// Idempotence: the query is a function of the stored documents and the
/// filter alone, so repeated calls against an unchanged store return equal
/// record sequences.
pub proof fn law_idempotent(docs: Seq<DocV>, f: FilterV, out1: Seq<CourseV>, out2: Seq<CourseV>)
    requires
        out1 == query_spec(docs, f),
        out2 == query_spec(docs, f),
    ensures
        out1 == out2,
{
}

} // verus!
