use nescookie::{CookieJar, CookieJarBuilder};

#[test]
fn builder_chains_and_keeps_order() {
    let jar = CookieJarBuilder::new()
        .parse("a\tx\t/\tTRUE\t0\tn1\tv1\n")
        .unwrap()
        .parse("b\tx\t/\tFALSE\t5\tn2\tv2\n")
        .unwrap()
        .finish();
    assert_eq!(jar.len(), 2);
    assert_eq!(jar.get_index(0).name.as_str(), "n1");
    assert_eq!(jar.get_index(1).name.as_str(), "n2");
}

#[test]
fn with_jar_appends_to_existing_jar() {
    let first = CookieJarBuilder::new()
        .parse("a\tx\t/\tTRUE\t0\tn1\tv1\n")
        .unwrap()
        .finish();
    let jar = CookieJarBuilder::with_jar(first)
        .parse("b\tx\t/\tFALSE\t5\tn2\tv2\n")
        .unwrap()
        .finish();
    assert_eq!(jar.len(), 2);
    assert_eq!(jar.get_index(0).name.as_str(), "n1");
    assert_eq!(jar.get_index(1).name.as_str(), "n2");
}

#[test]
fn empty_builder_finishes_empty() {
    let jar = CookieJarBuilder::new().finish();
    assert_eq!(jar.len(), 0);
}

#[test]
fn failed_parse_returns_no_jar() {
    let r = CookieJarBuilder::new().parse("only\tthree\tfields\n");
    assert!(r.is_err());
}

#[test]
fn duplicate_names_are_kept_and_get_returns_first() {
    let jar = CookieJarBuilder::new()
        .parse("a\tx\t/\tTRUE\t0\tdup\tfirst\nb\tx\t/p\tFALSE\t9\tdup\tsecond\n")
        .unwrap()
        .finish();
    assert_eq!(jar.len(), 2);
    assert_eq!(jar.get("dup").unwrap().value.as_str(), "first");
    assert_eq!(jar.get_index(1).value.as_str(), "second");
    assert!(jar.get("absent").is_none());
}

#[test]
fn new_jar_is_empty() {
    let jar = CookieJar::new();
    assert_eq!(jar.len(), 0);
    assert!(jar.get("anything").is_none());
}
