use course_catalog::Course;
use course_catalog::Filter;
use course_catalog::RawDoc;
use course_catalog::Value;
use course_catalog::fetch_courses;

fn text(s: &str) -> Value {
    Value::Text(s.to_string())
}

fn entry(parts: &[&str]) -> Value {
    Value::List(parts.iter().map(|p| p.to_string()).collect())
}

fn doc(cid: &str, name: &str, faculty: &str, taught_by: Value) -> RawDoc {
    RawDoc {
        fields: vec![
            ("cid".to_string(), text(cid)),
            ("name".to_string(), text(name)),
            ("faculty".to_string(), text(faculty)),
            ("taught_by".to_string(), taught_by),
        ],
    }
}

fn filter(clauses: &[(&str, &str)]) -> Filter {
    Filter {
        clauses: clauses.iter().map(|(k, v)| (k.to_string(), v.to_string())).collect(),
    }
}

fn rows(c: &Course) -> Vec<Vec<String>> {
    c.taught_by.clone()
}

fn row(parts: &[&str]) -> Vec<String> {
    parts.iter().map(|p| p.to_string()).collect()
}

#[test]
fn grouping_counts_distinct_cids() {
    let docs = vec![
        doc("CS101", "Intro", "CS", entry(&["Alice", "SecA"])),
        doc("CS102", "Data", "CS", entry(&["Bob", "SecA"])),
        doc("CS101", "Intro", "CS", entry(&["Carol", "SecB"])),
    ];
    let out = fetch_courses(&docs, None);
    assert_eq!(out.len(), 2);
    assert_eq!(out[0].cid, "CS101");
    assert_eq!(out[1].cid, "CS102");
}

#[test]
fn taught_by_entry_appears_once() {
    let docs = vec![
        doc("CS101", "Intro", "CS", entry(&["Alice", "SecA"])),
        doc("CS101", "Intro", "CS", entry(&["Alice", "SecA"])),
    ];
    let out = fetch_courses(&docs, None);
    assert_eq!(out.len(), 1);
    assert_eq!(rows(&out[0]), vec![row(&["Alice", "SecA"])]);
}

#[test]
fn inner_order_distinguishes_entries() {
    let docs = vec![
        doc("CS101", "Intro", "CS", entry(&["Alice", "SecA"])),
        doc("CS101", "Intro", "CS", entry(&["SecA", "Alice"])),
    ];
    let out = fetch_courses(&docs, None);
    assert_eq!(out.len(), 1);
    assert_eq!(rows(&out[0]), vec![row(&["Alice", "SecA"]), row(&["SecA", "Alice"])]);
}

#[test]
fn filter_passes_only_matching_faculty() {
    let docs = vec![
        doc("EN200", "Statics", "Engineering", entry(&["Dana", "SecA"])),
        doc("SC300", "Optics", "Science", entry(&["Eve", "SecA"])),
        doc("EN201", "Dynamics", "Engineering", entry(&["Frank", "SecB"])),
    ];
    let f = filter(&[("faculty", "Engineering")]);
    let out = fetch_courses(&docs, Some(&f));
    assert_eq!(out.len(), 2);
    for c in &out {
        assert_eq!(c.faculty, "Engineering");
    }
    assert_eq!(out[0].cid, "EN200");
    assert_eq!(out[1].cid, "EN201");
}

#[test]
fn filter_on_absent_value_matches_nothing() {
    let docs = vec![doc("CS101", "Intro", "CS", entry(&["Alice", "SecA"]))];
    let f = filter(&[("faculty", "History")]);
    let out = fetch_courses(&docs, Some(&f));
    assert!(out.is_empty());
}

#[test]
fn malformed_taught_by_drops_its_group_only() {
    let docs = vec![
        doc("CS101", "Intro", "CS", text("Alice")),
        doc("CS102", "Data", "CS", entry(&["Bob", "SecA"])),
    ];
    let out = fetch_courses(&docs, None);
    assert_eq!(out.len(), 1);
    assert_eq!(out[0].cid, "CS102");
}

#[test]
fn missing_name_drops_the_group() {
    let bad = RawDoc {
        fields: vec![
            ("cid".to_string(), text("CS101")),
            ("faculty".to_string(), text("CS")),
            ("taught_by".to_string(), entry(&["Alice", "SecA"])),
        ],
    };
    let docs = vec![bad, doc("CS102", "Data", "CS", entry(&["Bob", "SecA"]))];
    let out = fetch_courses(&docs, None);
    assert_eq!(out.len(), 1);
    assert_eq!(out[0].cid, "CS102");
}

#[test]
fn non_text_cid_is_ignored() {
    let bad = RawDoc {
        fields: vec![
            ("cid".to_string(), Value::Other),
            ("name".to_string(), text("Mystery")),
            ("faculty".to_string(), text("CS")),
            ("taught_by".to_string(), entry(&["Alice", "SecA"])),
        ],
    };
    let docs = vec![bad, doc("CS102", "Data", "CS", entry(&["Bob", "SecA"]))];
    let out = fetch_courses(&docs, None);
    assert_eq!(out.len(), 1);
    assert_eq!(out[0].cid, "CS102");
}

#[test]
fn missing_taught_by_contributes_nothing() {
    let sparse = RawDoc {
        fields: vec![
            ("cid".to_string(), text("CS101")),
            ("name".to_string(), text("Intro")),
            ("faculty".to_string(), text("CS")),
        ],
    };
    let docs = vec![sparse, doc("CS101", "Other", "CS", entry(&["Alice", "SecA"]))];
    let out = fetch_courses(&docs, None);
    assert_eq!(out.len(), 1);
    assert_eq!(out[0].name, "Intro");
    assert_eq!(rows(&out[0]), vec![row(&["Alice", "SecA"])]);
}

#[test]
fn empty_filter_returns_every_distinct_cid() {
    let docs = vec![
        doc("CS101", "Intro", "CS", entry(&["Alice", "SecA"])),
        doc("CS102", "Data", "CS", entry(&["Bob", "SecA"])),
        doc("CS103", "Nets", "CS", entry(&["Carol", "SecA"])),
        doc("CS102", "Data", "CS", entry(&["Dana", "SecB"])),
    ];
    let f = filter(&[]);
    let out = fetch_courses(&docs, Some(&f));
    assert_eq!(out.len(), 3);
    let none = fetch_courses(&docs, None);
    assert_eq!(none.len(), 3);
}

#[test]
fn name_and_faculty_come_from_first_document() {
    let docs = vec![
        doc("CS101", "Intro", "CS", entry(&["Alice", "SecA"])),
        doc("CS101", "Renamed", "Math", entry(&["Bob", "SecB"])),
    ];
    let out = fetch_courses(&docs, None);
    assert_eq!(out.len(), 1);
    assert_eq!(out[0].name, "Intro");
    assert_eq!(out[0].faculty, "CS");
}

#[test]
fn repeated_queries_agree() {
    let docs = vec![
        doc("CS101", "Intro", "CS", entry(&["Alice", "SecA"])),
        doc("CS102", "Data", "CS", entry(&["Bob", "SecA"])),
        doc("CS101", "Intro", "CS", entry(&["Carol", "SecB"])),
    ];
    let first = fetch_courses(&docs, None);
    for _ in 0..10 {
        let again = fetch_courses(&docs, None);
        assert_eq!(again.len(), first.len());
        for (a, b) in again.iter().zip(first.iter()) {
            assert_eq!(a.cid, b.cid);
            assert_eq!(a.name, b.name);
            assert_eq!(a.faculty, b.faculty);
            assert_eq!(rows(a), rows(b));
        }
    }
}

#[test]
fn two_sections_of_one_course_merge() {
    let docs = vec![
        doc("CS101", "Intro", "CS", entry(&["Alice", "SecA"])),
        doc("CS101", "Intro", "CS", entry(&["Bob", "SecB"])),
    ];
    let out = fetch_courses(&docs, None);
    assert_eq!(out.len(), 1);
    assert_eq!(out[0].cid, "CS101");
    assert_eq!(out[0].name, "Intro");
    assert_eq!(out[0].faculty, "CS");
    let tb = rows(&out[0]);
    assert_eq!(tb.len(), 2);
    assert!(tb.contains(&row(&["Alice", "SecA"])));
    assert!(tb.contains(&row(&["Bob", "SecB"])));
}

#[test]
fn empty_store_yields_empty_result() {
    let docs: Vec<RawDoc> = Vec::new();
    let out = fetch_courses(&docs, None);
    assert!(out.is_empty());
}

#[test]
fn first_field_binding_wins() {
    let shadowed = RawDoc {
        fields: vec![
            ("cid".to_string(), text("CS101")),
            ("cid".to_string(), text("CS999")),
            ("name".to_string(), text("Intro")),
            ("faculty".to_string(), text("CS")),
            ("taught_by".to_string(), entry(&["Alice", "SecA"])),
        ],
    };
    let out = fetch_courses(&vec![shadowed], None);
    assert_eq!(out.len(), 1);
    assert_eq!(out[0].cid, "CS101");
}
