use nae::plan::Plan;

#[test]
fn plan_test() {
    let mut p = Plan::new("linux", ".");

    let add_result = p.add(
        "README.md",
        "RENAMED.md",
        Ok(String::from("0123456789ABCDEF0123456789ABCDEF")),
    );
    assert!(add_result.is_ok());

    let serialized = p.serialize().unwrap();
    println!("serialized JSON:");
    println!("{}", serialized);
    assert!(serialized.starts_with("{\"version\":1,\"platform\":"));
    assert!(serialized.contains("\"src\":\"README.md\""));
    assert!(serialized.contains("\"dest\":\"RENAMED.md\""));

    let p2 = Plan::deserialize(&serialized).unwrap();
    assert_eq!(p2.get_root().version, 1);
    assert_eq!(p2.get_root().plan.len(), 1);
    assert_eq!(p2.get_root().plan.get(0).unwrap().src, "README.md");
    assert_eq!(p2.get_root().plan.get(0).unwrap().dest, "RENAMED.md");
}

#[test]
fn test_plan_serialize_empty_exact() {
    let p = Plan::new("linux", "/tmp/work");
    let serialized = p.serialize().unwrap();
    assert_eq!(
        serialized,
        "{\"version\":1,\"platform\":\"linux\",\"path\":\"/tmp/work\",\"plan\":[]}"
    );
}

#[test]
fn test_plan_round_trip_order_and_fields() {
    let mut p = Plan::new("windows", "C:\\data");
    p.add("a.txt", "a_1.txt", Ok(String::from("AA"))).unwrap();
    p.add("b.txt", "b_2.txt", Ok(String::from("BB"))).unwrap();
    p.add("c.txt", "c_3.txt", Ok(String::from("CC"))).unwrap();

    let text = p.serialize().unwrap();
    let q = Plan::deserialize(&text).unwrap();

    assert_eq!(q.get_root().version, 1);
    assert_eq!(q.get_root().platform, "windows");
    assert_eq!(q.get_root().path, "C:\\data");
    let es = q.get_plans();
    assert_eq!(es.len(), 3);
    assert_eq!(es[0].get_source(), "a.txt");
    assert_eq!(es[0].get_destination(), "a_1.txt");
    assert_eq!(es[0].get_id(), "AA");
    assert_eq!(es[1].get_source(), "b.txt");
    assert_eq!(es[1].get_destination(), "b_2.txt");
    assert_eq!(es[2].get_source(), "c.txt");
    assert_eq!(es[2].get_id(), "CC");
}

#[test]
fn test_plan_round_trip_with_escaped_names() {
    let mut p = Plan::new("linux", "/tmp/\"quoted\" dir\\sub");
    p.add("we\"ird\\name\n.txt", "ta\tb.txt", Ok(String::from("00")))
        .unwrap();

    let text = p.serialize().unwrap();
    let q = Plan::deserialize(&text).unwrap();

    assert_eq!(q.get_root().path, "/tmp/\"quoted\" dir\\sub");
    assert_eq!(q.get_plans()[0].get_source(), "we\"ird\\name\n.txt");
    assert_eq!(q.get_plans()[0].get_destination(), "ta\tb.txt");
}

#[test]
fn test_plan_add_failure_leaves_plan_unchanged() {
    let mut p = Plan::new("linux", ".");
    let r = p.add("gone.txt", "new.txt", Err(String::from("gone.txt not found.")));
    assert_eq!(r.unwrap_err(), "gone.txt not found.");
    assert_eq!(p.get_plans().len(), 0);
}

#[test]
fn test_plan_deserialize_rejects_malformed() {
    assert!(Plan::deserialize(&String::from("")).is_err());
    assert!(Plan::deserialize(&String::from("{\"version\":1")).is_err());
    assert!(Plan::deserialize(&String::from("not a plan")).is_err());
    assert!(
        Plan::deserialize(&String::from(
            "{\"version\":1,\"platform\":\"linux\",\"path\":\".\",\"plan\":[]}extra"
        ))
        .is_err()
    );
    // unknown fields and another field order are refused rather than guessed
    assert!(
        Plan::deserialize(&String::from(
            "{\"platform\":\"linux\",\"version\":1,\"path\":\".\",\"plan\":[]}"
        ))
        .is_err()
    );
}

#[test]
fn test_plan_deserialize_rejects_unknown_version() {
    assert!(
        Plan::deserialize(&String::from(
            "{\"version\":2,\"platform\":\"linux\",\"path\":\".\",\"plan\":[]}"
        ))
        .is_err()
    );
}

#[test]
fn test_plan_deserialize_accepts_serde_style_document() {
    // the exact document shape a mainstream JSON writer produces for the
    // plan structure
    let text = String::from(
        "{\"version\":1,\"platform\":\"linux\",\"path\":\"/x\",\"plan\":[{\"src\":\"s\",\"dest\":\"d\",\"id\":\"49\"},{\"src\":\"s2\",\"dest\":\"d2\",\"id\":\"4A\"}]}",
    );
    let q = Plan::deserialize(&text).unwrap();
    assert_eq!(q.get_plans().len(), 2);
    assert_eq!(q.get_plans()[1].get_id(), "4A");
}
