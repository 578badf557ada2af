use vector_tests::model::{Expected, PacketGroup, TestVector};
use vector_tests::select::{effective_name_of, is_allowed, select, Selected};

fn vector(packed: &str, packet: Option<&str>) -> TestVector {
    TestVector {
        packed: packed.to_string(),
        unpacked: Expected::Object(Vec::new()),
        packet: packet.map(|p| p.to_string()),
    }
}

fn group(name: &str, tests: Vec<TestVector>) -> PacketGroup {
    PacketGroup { name: name.to_string(), tests }
}

fn names(list: &[&str]) -> Vec<String> {
    list.iter().map(|n| n.to_string()).collect()
}

fn places(chosen: &[Selected]) -> Vec<(usize, usize, String, String)> {
    chosen
        .iter()
        .map(|s| (s.group, s.ordinal, s.name.clone(), s.vector.packed.clone()))
        .collect()
}

fn place(group: usize, ordinal: usize, name: &str, packed: &str) -> (usize, usize, String, String) {
    (group, ordinal, name.to_string(), packed.to_string())
}

#[test]
fn effective_name_is_the_group_name_without_override() {
    let g = group("Foo", vec![vector("00", None)]);
    assert_eq!(effective_name_of(&g, &g.tests[0]), "Foo");
}

#[test]
fn effective_name_is_the_override_when_present() {
    let g = group("Foo", vec![vector("00", Some("Bar"))]);
    assert_eq!(effective_name_of(&g, &g.tests[0]), "Bar");
}

#[test]
fn membership_is_exact_and_case_sensitive() {
    let allowed = names(&["Foo", "Bar"]);
    assert!(is_allowed(&"Foo".to_string(), &allowed));
    assert!(is_allowed(&"Bar".to_string(), &allowed));
    assert!(!is_allowed(&"foo".to_string(), &allowed));
    assert!(!is_allowed(&"Fo".to_string(), &allowed));
    assert!(!is_allowed(&"Foo ".to_string(), &allowed));
    assert!(!is_allowed(&"".to_string(), &allowed));
    assert!(!is_allowed(&"Foo".to_string(), &[]));
}

#[test]
fn selection_keeps_document_order_and_positions() {
    let groups = vec![
        group("A", vec![vector("01", None), vector("02", Some("B")), vector("03", None)]),
        group("B", vec![vector("04", None), vector("05", Some("A"))]),
        group("C", vec![vector("06", None)]),
    ];
    let chosen = select(&groups, &names(&["A"]));
    assert_eq!(
        places(&chosen),
        vec![place(0, 1, "A", "01"), place(0, 3, "A", "03"), place(1, 2, "A", "05")]
    );
    let chosen = select(&groups, &names(&["B", "C"]));
    assert_eq!(
        places(&chosen),
        vec![place(0, 2, "B", "02"), place(1, 1, "B", "04"), place(2, 1, "C", "06")]
    );
}

#[test]
fn selection_of_everything() {
    let groups = vec![group("A", vec![vector("01", None), vector("02", None)]), group("B", vec![])];
    let chosen = select(&groups, &names(&["B", "A"]));
    assert_eq!(places(&chosen), vec![place(0, 1, "A", "01"), place(0, 2, "A", "02")]);
}

#[test]
fn empty_allow_list_selects_nothing() {
    let groups = vec![group("A", vec![vector("01", None)])];
    assert!(select(&groups, &[]).is_empty());
}

#[test]
fn empty_document_selects_nothing() {
    assert!(select(&[], &names(&["A"])).is_empty());
}

#[test]
fn override_is_tested_against_the_allow_list() {
    let groups = vec![group("Foo", vec![vector("01", Some("Bar")), vector("02", None)])];
    let chosen = select(&groups, &names(&["Bar"]));
    assert_eq!(places(&chosen), vec![place(0, 1, "Bar", "01")]);
    let chosen = select(&groups, &names(&["Foo"]));
    assert_eq!(places(&chosen), vec![place(0, 2, "Foo", "02")]);
}

#[test]
fn chosen_vector_is_the_one_in_the_document() {
    let groups = vec![group("A", vec![vector("01", None)])];
    let chosen = select(&groups, &names(&["A"]));
    assert_eq!(chosen.len(), 1);
    assert_eq!(chosen[0].vector, &groups[0].tests[0]);
}
