use std::collections::{BTreeMap, HashMap};

use uri_template_ex::{ErrorKind, Operator, UriTemplate};

fn one(name: &str, value: &str) -> BTreeMap<String, String> {
    let mut m = BTreeMap::new();
    m.insert(name.to_string(), value.to_string());
    m
}

#[test]
fn percent_sign_simple_is_encoded() {
    let t = UriTemplate::new("{b}").unwrap();
    assert_eq!(t.expand(&one("b", "%")), "%25");
    assert_eq!(t.expand(&one("b", "%25")), "%2525");
}

#[test]
fn percent_sign_reserved_is_kept_when_encoded() {
    let t = UriTemplate::new("{+b}").unwrap();
    assert_eq!(t.expand(&one("b", "%")), "%25");
    assert_eq!(t.expand(&one("b", "%25")), "%25");
}

#[test]
fn missing_variable_writes_nothing() {
    let t = UriTemplate::new("/x/{b}").unwrap();
    assert_eq!(t.expand(&one("a", "1")), "/x/");
    assert_eq!(t.expand(()), "/x/");
    let t = UriTemplate::new("/x/{#b}").unwrap();
    assert_eq!(t.expand(()), "/x/");
}

#[test]
fn malformed_percent_literals_are_encoded() {
    assert_eq!(UriTemplate::new("%2").unwrap().expand(()), "%252");
    assert_eq!(UriTemplate::new("a%XYb").unwrap().expand(()), "a%25XYb");
    assert_eq!(UriTemplate::new("}").unwrap().expand(()), "%7D");
}

#[test]
fn literal_template_expands_to_itself() {
    let t = UriTemplate::new("/a/b?c=d&e#f").unwrap();
    assert_eq!(t.expand(()), "/a/b?c=d&e#f");
    assert!(t.captures("/a/b?c=d&e#f").is_some());
    assert!(t.captures("/a/b?c=d&e#g").is_none());
    assert!(t.captures("x/a/b?c=d&e#f").is_none());
    assert!(t.captures("/a/b?c=d&e#fx").is_none());
}

#[test]
fn unterminated_expression_is_an_error() {
    let e = UriTemplate::new("{aaa").unwrap_err();
    assert_eq!(e.kind(), ErrorKind::InvalidExpression);
    assert_eq!(e.source_index(), 0);
    assert_eq!(e.source(), "{aaa");
    let e = UriTemplate::new("/é/{x}{+y").unwrap_err();
    assert_eq!(e.kind(), ErrorKind::InvalidExpression);
    assert_eq!(e.source_index(), 7);
    assert!(UriTemplate::new("{").is_err());
    assert!(UriTemplate::new("{#").is_err());
}

#[test]
fn invalid_utf8_capture_fails_on_value() {
    let t = UriTemplate::new("/a/{b}").unwrap();
    let c = t.captures("/a/x%E4%B8").unwrap();
    let m = c.name("b").unwrap();
    let e = m.value().unwrap_err();
    assert_eq!(e.kind(), ErrorKind::InvalidUtf8);
    assert_eq!(e.source_index(), 1);
    assert_eq!(m.source(), "x%E4%B8");
    assert_eq!(m.start(), 3);
    assert_eq!(m.end(), 10);
    let c = t.captures("/a/%C0%A0").unwrap();
    let e = c.get(0).unwrap().value().unwrap_err();
    assert_eq!(e.source_index(), 0);
    assert_eq!(c.get(0).unwrap().source(), "%C0%A0");
}

#[test]
fn simple_expression_does_not_match_slash() {
    let t = UriTemplate::new("/a/{b}/c").unwrap();
    assert!(t.captures("/a/x/y/c").is_none());
    let t = UriTemplate::new("/a/{+b}/c").unwrap();
    let c = t.captures("/a/x/y/c").unwrap();
    assert_eq!(c.name("b").unwrap().value().unwrap(), "x/y");
}

#[test]
fn round_trip_values() {
    let t = UriTemplate::new("/{a}/{+b}/{#c}").unwrap();
    let mut vars = BTreeMap::new();
    vars.insert("a".to_string(), "x y/あ".to_string());
    vars.insert("b".to_string(), "p/q:r".to_string());
    vars.insert("c".to_string(), "s!t".to_string());
    let uri = t.expand(&vars);
    assert_eq!(uri, "/x%20y%2F%E3%81%82/p/q:r/#s!t");
    let c = t.captures(&uri).unwrap();
    assert_eq!(c.name("a").unwrap().value().unwrap(), "x y/あ");
    assert_eq!(c.name("b").unwrap().value().unwrap(), "p/q:r");
    assert_eq!(c.name("c").unwrap().value().unwrap(), "s!t");
}

#[test]
fn pattern_is_anchored_and_escaped() {
    let t = UriTemplate::new("a.{b}{+c}{#d}é").unwrap();
    assert_eq!(
        t.pattern(),
        "^a\\.([A-Za-z0-9\\-._~%]*)(?:([A-Za-z0-9\\-._~:/?#\\[\\]@!$&'()*+,;=%]*))?(?:\\#([A-Za-z0-9\\-._~:/?#\\[\\]@!$&'()*+,;=%]*))?%C3%A9$"
    );
}

#[test]
fn non_ascii_literal_matches_encoded_form() {
    let t = UriTemplate::new("/é/{x}").unwrap();
    assert_eq!(t.expand(&one("x", "1")), "/%C3%A9/1");
    assert!(t.captures("/%C3%A9/1").is_some());
}

#[test]
fn names_and_lookup() {
    let t = UriTemplate::new("{a}/{+b}/{a}").unwrap();
    assert_eq!(t.var_names(), vec!["a", "b", "a"]);
    assert_eq!(t.find_var_name("b"), Some(1));
    assert_eq!(t.find_var_name("a"), Some(0));
    assert_eq!(t.find_var_name("z"), None);
    let c = t.captures("x/y/z").unwrap();
    assert_eq!(c.len(), 3);
    assert!(!c.is_empty());
    assert_eq!(c.name("a").unwrap().value().unwrap(), "x");
    assert_eq!(c.get(2).unwrap().value().unwrap(), "z");
    assert_eq!(c.get(1).unwrap().name(), "b");
    assert!(c.get(3).is_none());
    let names: Vec<&str> = c.iter().into_iter().map(|(n, _)| n).collect();
    assert_eq!(names, vec!["a", "b", "a"]);
}

#[test]
fn fragment_group_absent_gives_none() {
    let t = UriTemplate::new("/a{#b}").unwrap();
    let c = t.captures("/a").unwrap();
    assert!(c.get(0).is_none());
    assert!(c.name("b").is_none());
    assert_eq!(c.len(), 1);
}

#[test]
fn positional_and_hash_vars() {
    let t = UriTemplate::new("{x}-{y}").unwrap();
    let values: &[&str] = &["1", "2"];
    assert_eq!(t.expand(values), "1-2");
    let short: &[&str] = &["1"];
    assert_eq!(t.expand(short), "1-");
    let mut h = HashMap::new();
    h.insert("y".to_string(), "b c".to_string());
    assert_eq!(t.expand(&h), "-b%20c");
    let mut r: BTreeMap<&str, &str> = BTreeMap::new();
    r.insert("x", "q");
    assert_eq!(t.expand(&r), "q-");
}

#[test]
fn expand_values_by_position() {
    let t = UriTemplate::new("/{a}/{+b}").unwrap();
    let values = vec![Some("é".to_string()), None];
    assert_eq!(t.expand_values(&values), "/%C3%A9/");
    assert_eq!(t.expand_values(&Vec::new()), "//");
}

#[test]
fn operators() {
    assert_eq!(Operator::from_char('+'), Some(Operator::Reserved));
    assert_eq!(Operator::from_char('#'), Some(Operator::Fragment));
    assert_eq!(Operator::from_char('x'), None);
    assert_eq!(Operator::Fragment.to_prefix(), "#");
    assert_eq!(Operator::Reserved.to_prefix(), "");
}

#[test]
fn reserved_expansion_encodes_other_characters() {
    let t = UriTemplate::new("{+b}").unwrap();
    assert_eq!(t.expand(&one("b", "a b%zz")), "a%20b%25zz");
    assert_eq!(t.expand(&one("b", "%e3%81%82")), "%e3%81%82");
}

#[test]
fn error_messages() {
    let e = UriTemplate::new("ab{c").unwrap_err();
    assert_eq!(e.message(), "InvalidExpression (\"ab >>>> {c\")\n");
    let t = UriTemplate::new("{v}").unwrap();
    let c = t.captures("a%FF").unwrap();
    let e = c.get(0).unwrap().value().unwrap_err();
    assert_eq!(e.message(), "InvalidUtf8 (\"a >>>> %FF\")\n");
    assert_eq!(ErrorKind::InvalidPattern.name(), "InvalidPattern");
}

#[test]
fn readme_examples() {
    let template = UriTemplate::new("/users/{a}/files/{b}").unwrap();
    let mut vars = BTreeMap::new();
    vars.insert("a", "xxx");
    vars.insert("b", "hello-world");
    assert_eq!(template.expand(&vars), "/users/xxx/files/hello-world");
    let captures = template.captures("/users/xxx/files/hello-world").unwrap();
    assert_eq!(captures.name("a").unwrap().value().unwrap(), "xxx");
    assert_eq!(captures.name("b").unwrap().value().unwrap(), "hello-world");
}

#[test]
fn operators_and_names_of_expressions() {
    let t = UriTemplate::new("{+x}{#y}{;z}").unwrap();
    assert_eq!(t.var_names(), vec!["x", "y", ";z"]);
    let mut vars = BTreeMap::new();
    vars.insert(";z", "1/2");
    vars.insert("x", "a/b");
    vars.insert("y", "c");
    assert_eq!(t.expand(&vars), "a/b#c1%2F2");
}

#[test]
fn literal_templates_compile() {
    for s in ["http://%E3%81%82", "http://%e3%81%82", "%2", "%XY", "%F8%28", "%C0%A0", "%D0", "%E4%B8%", "http://あ"] {
        let t = UriTemplate::new(s).unwrap();
        assert!(t.var_names().is_empty());
    }
}
