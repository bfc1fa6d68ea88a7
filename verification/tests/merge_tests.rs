use proxy_merge::json::{deep_eq, Json};
use proxy_merge::merge::{
    extract_node_entries, merge, merge_fetched, node_tags, FetchError, MergeError, MergeFailure,
};

fn s(v: &str) -> Json {
    Json::Str(v.to_string())
}

fn tag_entry(t: &str) -> Json {
    Json::Obj(vec![("tag".to_string(), s(t))])
}

fn obj(fields: Vec<(&str, Json)>) -> Json {
    Json::Obj(fields.into_iter().map(|(k, v)| (k.to_string(), v)).collect())
}

#[test]
fn tag_list_from_wrapped_object() {
    let nodes = obj(vec![(
        "outbounds",
        Json::Arr(vec![tag_entry("a"), tag_entry("b")]),
    )]);
    let entries = extract_node_entries(nodes).unwrap();
    assert_eq!(entries.len(), 2);
    let tags = node_tags(&entries);
    assert_eq!(tags, vec!["a".to_string(), "b".to_string()]);
}

#[test]
fn bare_array_splices_into_selector_group() {
    let nodes = Json::Arr(vec![tag_entry("x")]);
    let template = obj(vec![(
        "outbounds",
        Json::Arr(vec![obj(vec![
            ("tag", s("🚀 节点选择")),
            ("outbounds", Json::Arr(vec![s("DIRECT")])),
        ])]),
    )]);
    let merged = merge(template, nodes).unwrap();
    let expected = obj(vec![(
        "outbounds",
        Json::Arr(vec![
            obj(vec![
                ("tag", s("🚀 节点选择")),
                ("outbounds", Json::Arr(vec![s("DIRECT"), s("x")])),
            ]),
            tag_entry("x"),
        ]),
    )]);
    assert!(deep_eq(&merged, &expected));
}

#[test]
fn empty_object_nodes_is_shape_error() {
    let template = obj(vec![("outbounds", Json::Arr(vec![]))]);
    let nodes = obj(vec![]);
    let r = merge(template, nodes);
    assert!(matches!(r, Err(MergeError::NoNodeList)));
}

#[test]
fn scalar_nodes_is_shape_error() {
    let template = obj(vec![("outbounds", Json::Arr(vec![]))]);
    let r = merge(template, s("not a list"));
    assert!(matches!(r, Err(MergeError::NoNodeList)));
}

#[test]
fn object_nodes_with_non_array_outbounds_is_shape_error() {
    let template = obj(vec![("outbounds", Json::Arr(vec![]))]);
    let nodes = obj(vec![("outbounds", s("nope"))]);
    let r = merge(template, nodes);
    assert!(matches!(r, Err(MergeError::NoNodeList)));
}

#[test]
fn missing_template_outbounds_is_created() {
    let template = obj(vec![("log", obj(vec![("level", s("info"))]))]);
    let nodes = Json::Arr(vec![tag_entry("n1"), tag_entry("n2")]);
    let merged = merge(template, nodes).unwrap();
    let expected = obj(vec![
        ("log", obj(vec![("level", s("info"))])),
        ("outbounds", Json::Arr(vec![tag_entry("n1"), tag_entry("n2")])),
    ]);
    assert!(deep_eq(&merged, &expected));
}

#[test]
fn non_array_template_outbounds_is_replaced_in_place() {
    let template = obj(vec![
        ("a", Json::Bool(true)),
        ("outbounds", s("bogus")),
        ("b", Json::Null),
    ]);
    let nodes = Json::Arr(vec![tag_entry("n")]);
    let merged = merge(template, nodes).unwrap();
    let expected = obj(vec![
        ("a", Json::Bool(true)),
        ("outbounds", Json::Arr(vec![tag_entry("n")])),
        ("b", Json::Null),
    ]);
    assert!(deep_eq(&merged, &expected));
}

#[test]
fn selector_group_without_own_outbounds_is_unchanged() {
    let template = obj(vec![(
        "outbounds",
        Json::Arr(vec![obj(vec![
            ("tag", s("🎈 自动选择")),
            ("type", s("urltest")),
        ])]),
    )]);
    let nodes = Json::Arr(vec![tag_entry("n")]);
    let merged = merge(template, nodes).unwrap();
    let expected = obj(vec![(
        "outbounds",
        Json::Arr(vec![
            obj(vec![("tag", s("🎈 自动选择")), ("type", s("urltest"))]),
            tag_entry("n"),
        ]),
    )]);
    assert!(deep_eq(&merged, &expected));
}

#[test]
fn non_selector_group_is_not_spliced() {
    let template = obj(vec![(
        "outbounds",
        Json::Arr(vec![obj(vec![
            ("tag", s("direct-out")),
            ("outbounds", Json::Arr(vec![s("DIRECT")])),
        ])]),
    )]);
    let nodes = Json::Arr(vec![tag_entry("n")]);
    let merged = merge(template, nodes).unwrap();
    let expected = obj(vec![(
        "outbounds",
        Json::Arr(vec![
            obj(vec![
                ("tag", s("direct-out")),
                ("outbounds", Json::Arr(vec![s("DIRECT")])),
            ]),
            tag_entry("n"),
        ]),
    )]);
    assert!(deep_eq(&merged, &expected));
}

#[test]
fn both_selector_groups_receive_all_tags() {
    let template = obj(vec![(
        "outbounds",
        Json::Arr(vec![
            obj(vec![
                ("tag", s("🚀 节点选择")),
                ("outbounds", Json::Arr(vec![])),
            ]),
            obj(vec![
                ("tag", s("🎈 自动选择")),
                ("outbounds", Json::Arr(vec![s("keep")])),
            ]),
        ]),
    )]);
    let nodes = Json::Arr(vec![tag_entry("p"), tag_entry("q")]);
    let merged = merge(template, nodes).unwrap();
    let expected = obj(vec![(
        "outbounds",
        Json::Arr(vec![
            obj(vec![
                ("tag", s("🚀 节点选择")),
                ("outbounds", Json::Arr(vec![s("p"), s("q")])),
            ]),
            obj(vec![
                ("tag", s("🎈 自动选择")),
                ("outbounds", Json::Arr(vec![s("keep"), s("p"), s("q")])),
            ]),
            tag_entry("p"),
            tag_entry("q"),
        ]),
    )]);
    assert!(deep_eq(&merged, &expected));
}

#[test]
fn entries_without_tags_append_but_splice_nothing() {
    let untagged = obj(vec![("type", s("vmess"))]);
    let template = obj(vec![(
        "outbounds",
        Json::Arr(vec![obj(vec![
            ("tag", s("🚀 节点选择")),
            ("outbounds", Json::Arr(vec![s("DIRECT")])),
        ])]),
    )]);
    let nodes = Json::Arr(vec![obj(vec![("type", s("vmess"))])]);
    let merged = merge(template, nodes).unwrap();
    let expected = obj(vec![(
        "outbounds",
        Json::Arr(vec![
            obj(vec![
                ("tag", s("🚀 节点选择")),
                ("outbounds", Json::Arr(vec![s("DIRECT")])),
            ]),
            untagged,
        ]),
    )]);
    assert!(deep_eq(&merged, &expected));
}

#[test]
fn duplicate_tags_are_kept() {
    let nodes = Json::Arr(vec![tag_entry("d"), tag_entry("d")]);
    let entries = extract_node_entries(nodes).unwrap();
    let tags = node_tags(&entries);
    assert_eq!(tags, vec!["d".to_string(), "d".to_string()]);
}

#[test]
fn non_string_tag_contributes_no_tag_and_no_match() {
    let odd = obj(vec![("tag", Json::Num("7".to_string()))]);
    let entries = extract_node_entries(Json::Arr(vec![odd])).unwrap();
    let tags = node_tags(&entries);
    assert!(tags.is_empty());
}

#[test]
fn group_without_tag_does_not_match_selectors() {
    let template = obj(vec![(
        "outbounds",
        Json::Arr(vec![obj(vec![("outbounds", Json::Arr(vec![]))])]),
    )]);
    let nodes = Json::Arr(vec![tag_entry("t")]);
    let merged = merge(template, nodes).unwrap();
    let expected = obj(vec![(
        "outbounds",
        Json::Arr(vec![
            obj(vec![("outbounds", Json::Arr(vec![]))]),
            tag_entry("t"),
        ]),
    )]);
    assert!(deep_eq(&merged, &expected));
}

#[test]
fn other_fields_survive_byte_for_byte() {
    let template = obj(vec![
        ("dns", obj(vec![("servers", Json::Arr(vec![s("1.1.1.1")]))])),
        ("outbounds", Json::Arr(vec![])),
        ("route", obj(vec![("auto_detect_interface", Json::Bool(true))])),
    ]);
    let nodes = Json::Arr(vec![]);
    let merged = merge(template, nodes).unwrap();
    let expected = obj(vec![
        ("dns", obj(vec![("servers", Json::Arr(vec![s("1.1.1.1")]))])),
        ("outbounds", Json::Arr(vec![])),
        ("route", obj(vec![("auto_detect_interface", Json::Bool(true))])),
    ]);
    assert!(deep_eq(&merged, &expected));
}

#[test]
fn merged_outbounds_length_adds_entry_count() {
    let template = obj(vec![(
        "outbounds",
        Json::Arr(vec![tag_entry("g1"), tag_entry("g2"), tag_entry("g3")]),
    )]);
    let nodes = Json::Arr(vec![tag_entry("n1"), tag_entry("n2")]);
    let merged = merge(template, nodes).unwrap();
    match merged {
        Json::Obj(fields) => {
            let mut found = false;
            for (k, v) in fields {
                if k == "outbounds" {
                    match v {
                        Json::Arr(items) => {
                            assert_eq!(items.len(), 3 + 2);
                            found = true;
                        }
                        _ => panic!("outbounds is not an array"),
                    }
                }
            }
            assert!(found);
        }
        _ => panic!("merged document is not an object"),
    }
}

#[test]
fn template_fetch_failure_is_final() {
    let nodes = Json::Arr(vec![tag_entry("n")]);
    let r = merge_fetched(Err(FetchError::Transport), Ok(nodes));
    assert!(matches!(
        r,
        Err(MergeFailure::TemplateFetch(FetchError::Transport))
    ));
}

#[test]
fn nodes_fetch_failure_is_final() {
    let template = obj(vec![("outbounds", Json::Arr(vec![]))]);
    let r = merge_fetched(Ok(template), Err(FetchError::Decode));
    assert!(matches!(r, Err(MergeFailure::NodesFetch(FetchError::Decode))));
}

#[test]
fn merge_runs_when_both_fetches_arrive() {
    let template = obj(vec![("outbounds", Json::Arr(vec![]))]);
    let nodes = Json::Arr(vec![tag_entry("n")]);
    let merged = merge_fetched(Ok(template), Ok(nodes)).unwrap();
    let expected = obj(vec![("outbounds", Json::Arr(vec![tag_entry("n")]))]);
    assert!(deep_eq(&merged, &expected));
}

#[test]
fn shape_error_surfaces_through_merge_fetched() {
    let template = obj(vec![("outbounds", Json::Arr(vec![]))]);
    let r = merge_fetched(Ok(template), Ok(obj(vec![])));
    assert!(matches!(r, Err(MergeFailure::NoNodeList)));
}

#[test]
fn deep_eq_distinguishes_documents() {
    let a = obj(vec![("x", Json::Num("1".to_string()))]);
    let b = obj(vec![("x", Json::Num("2".to_string()))]);
    let a2 = obj(vec![("x", Json::Num("1".to_string()))]);
    assert!(!deep_eq(&a, &b));
    assert!(deep_eq(&a, &a2));
}
