use lithos::variables::{
    find_var, instance_variables, substitute, LITHOS_CONFIG_FILENAME, LITHOS_NAME,
};

fn vars(list: &[(&str, &str)]) -> Vec<(String, String)> {
    list.iter().map(|(k, v)| (k.to_string(), v.to_string())).collect()
}

#[test]
fn references_are_replaced() {
    let v = vars(&[("port", "8080"), ("host", "example.org"), ("empty", "")]);
    assert_eq!(substitute("--listen=@{host}:@{port}", &v), Ok("--listen=example.org:8080".to_string()));
    assert_eq!(substitute("@{port}@{port}", &v), Ok("80808080".to_string()));
    assert_eq!(substitute("a@{empty}b", &v), Ok("ab".to_string()));
    assert_eq!(substitute("plain", &v), Ok("plain".to_string()));
    assert_eq!(substitute("", &v), Ok(String::new()));
}

#[test]
fn what_is_no_reference_stands_for_itself() {
    let v = vars(&[("a", "1")]);
    assert_eq!(substitute("a@b.c", &v), Ok("a@b.c".to_string()));
    assert_eq!(substitute("{a}", &v), Ok("{a}".to_string()));
    assert_eq!(substitute("x@{a", &v), Ok("x@{a".to_string()));
    assert_eq!(substitute("@", &v), Ok("@".to_string()));
    assert_eq!(substitute("@@{a}", &v), Ok("@1".to_string()));
    assert_eq!(substitute("@{a}}", &v), Ok("1}".to_string()));
    assert_eq!(substitute("\u{e9}@{a}\u{e9}", &v), Ok("\u{e9}1\u{e9}".to_string()));
}

#[test]
fn values_are_not_expanded_again() {
    let v = vars(&[("a", "@{b}"), ("b", "2")]);
    assert_eq!(substitute("@{a}", &v), Ok("@{b}".to_string()));
}

#[test]
fn unknown_variables_are_all_named() {
    let v = vars(&[("a", "1")]);
    assert_eq!(
        substitute("@{x} @{a} @{y}@{x}", &v),
        Err(vec!["x".to_string(), "y".to_string(), "x".to_string()])
    );
    assert_eq!(substitute("@{}", &v), Err(vec!["".to_string()]));
    assert_eq!(substitute("@{A}", &v), Err(vec!["A".to_string()]));
}

#[test]
fn the_first_variable_of_a_name_counts() {
    let v = vars(&[("a", "1"), ("b", "2"), ("a", "3")]);
    assert_eq!(find_var(&v, &"a".to_string()), 0);
    assert_eq!(find_var(&v, &"b".to_string()), 1);
    assert_eq!(find_var(&v, &"c".to_string()), 3);
    assert_eq!(substitute("@{a}", &v), Ok("1".to_string()));
}

#[test]
fn every_instance_knows_its_name() {
    assert_eq!(LITHOS_NAME, "lithos:name");
    assert_eq!(LITHOS_CONFIG_FILENAME, "lithos:config_filename");
    let v = instance_variables(vars(&[("port", "80")]), "web/api.0", "/cfg/api.yaml");
    assert_eq!(
        v,
        vars(&[
            ("port", "80"),
            ("lithos:name", "web/api.0"),
            ("lithos:config_filename", "/cfg/api.yaml")
        ])
    );
    assert_eq!(
        substitute("@{lithos:name} @{lithos:config_filename} @{port}", &v),
        Ok("web/api.0 /cfg/api.yaml 80".to_string())
    );
}
