use learning_http_chat::HttpPath;

#[test]
fn http_path_from() {
    let http_path = " test//route/?param=//abc&foo/=bar// ";
    let has = HttpPath::from(http_path);
    let owned_has = HttpPath::from(http_path.to_owned());
    let expected = HttpPath {
        path: "/test/route".to_owned(),
        search_params: Some("param=//abc&foo/=bar//".to_owned()),
    };
    assert_eq!(has, expected);
    assert_eq!(owned_has, expected);
}

#[test]
fn root_and_empty_paths() {
    assert_eq!(HttpPath::from("/").path, "/");
    assert_eq!(HttpPath::from("").path, "/");
    assert_eq!(HttpPath::from("   ").path, "/");
    assert_eq!(HttpPath::from("///").path, "/");
    assert_eq!(HttpPath::from("/").search_params, None);
}

#[test]
fn path_runs_of_slashes_collapse() {
    let p = HttpPath::from("a///b// c/d/");
    assert_eq!(p.path, "/a/b/c/d");
    assert_eq!(p.search_params, None);
}

#[test]
fn query_after_first_question_mark() {
    let p = HttpPath::from("/x?a=1?b= 2");
    assert_eq!(p.path, "/x");
    assert_eq!(p.search_params, Some("a=1?b=2".to_owned()));
    let q = HttpPath::from("/x?");
    assert_eq!(q.search_params, Some(String::new()));
}

#[test]
fn normalizing_twice_changes_nothing() {
    let raw = " test//route/?param=//abc&foo/=bar// ";
    let once = HttpPath::from(raw);
    let mut again = once.path.clone();
    if let Some(q) = &once.search_params {
        again.push('?');
        again.push_str(q);
    }
    let twice = HttpPath::from(again.as_str());
    assert_eq!(twice, once);
    let odd = HttpPath::from("//a \t//b///");
    assert_eq!(HttpPath::from(odd.path.as_str()).path, odd.path);
}
