use monosetup::{
    aggregate, reconcile, Dependency, DependencyMap, Manifest, ParseError, Policy, ReconcileError,
    Version,
};

fn map(entries: &[(&str, &str)]) -> DependencyMap {
    let mut map = DependencyMap::new();
    for (name, range) in entries {
        assert_eq!(map.insert(name.to_string(), range.to_string()), None);
    }
    map
}

fn manifest(name: &str, dependencies: &[(&str, &str)], dev: &[(&str, &str)]) -> Manifest {
    Manifest { name: name.to_string(), dependencies: map(dependencies), dev_dependencies: map(dev) }
}

fn entries(map: &DependencyMap) -> Vec<(String, String)> {
    let mut out = Vec::new();
    let mut i = 0;
    while let Some(entry) = map.entry(i) {
        out.push((entry.name.clone(), entry.range.clone()));
        i += 1;
    }
    assert_eq!(i, map.len());
    out
}

fn pairs(entries: &[(&str, &str)]) -> Vec<(String, String)> {
    entries.iter().map(|(n, r)| (n.to_string(), r.to_string())).collect()
}

fn policy(merge: bool) -> Policy {
    Policy { merge, workspace_prefix: "@nmshd".to_string() }
}

#[test]
fn dependency_map_insert_and_get() {
    let mut map = DependencyMap::new();
    assert_eq!(map.len(), 0);
    assert_eq!(map.get("a"), None);
    assert_eq!(map.entry(0), None);
    assert_eq!(map.insert("a".to_string(), "1".to_string()), None);
    assert_eq!(map.insert("b".to_string(), "2".to_string()), None);
    assert_eq!(map.insert("a".to_string(), "3".to_string()), Some("1".to_string()));
    assert_eq!(map.len(), 2);
    assert_eq!(map.get("a"), Some(&"3".to_string()));
    assert_eq!(map.get("b"), Some(&"2".to_string()));
    assert_eq!(map.get("c"), None);
    assert_eq!(
        map.entry(0),
        Some(&Dependency { name: "a".to_string(), range: "3".to_string() })
    );
    assert_eq!(
        map.entry(1),
        Some(&Dependency { name: "b".to_string(), range: "2".to_string() })
    );
    assert_eq!(map.entry(2), None);
    assert_eq!(entries(&map), pairs(&[("a", "3"), ("b", "2")]));
}

#[test]
fn aggregate_counts_and_keeps_the_highest() {
    let manifests = vec![
        manifest("one", &[("left", "1.0.0"), ("right", "^2.0.0")], &[]),
        manifest("two", &[("right", "~2.5.0"), ("left", "1.0.1")], &[]),
        manifest("three", &[("left", "0.9.0"), ("other", "*")], &[]),
    ];
    let table = aggregate(&manifests, false).unwrap();
    let rows: Vec<(String, usize, String)> =
        table.iter().map(|t| (t.name.clone(), t.count, t.best.to_string())).collect();
    assert_eq!(
        rows,
        vec![
            ("left".to_string(), 3, "1.0.1".to_string()),
            ("right".to_string(), 2, "^2.0.0".to_string()),
            ("other".to_string(), 1, "*".to_string()),
        ]
    );
    assert_eq!(table[0].best, Version::parse("1.0.1").unwrap());
    assert_eq!(aggregate(&manifests, true), Ok(vec![]));
}

#[test]
fn aggregate_of_nothing_is_empty() {
    assert_eq!(aggregate(&vec![], false), Ok(vec![]));
    assert_eq!(aggregate(&vec![manifest("solo", &[], &[])], true), Ok(vec![]));
}

#[test]
fn first_of_equally_ranked_versions_is_kept() {
    let manifests = vec![
        manifest("one", &[], &[("tool", "1.2.3-first")]),
        manifest("two", &[], &[("tool", "1.2.3-second")]),
        manifest("three", &[], &[("tool", "1.2.2")]),
    ];
    let table = aggregate(&manifests, true).unwrap();
    assert_eq!(table.len(), 1);
    assert_eq!(table[0].count, 3);
    assert_eq!(table[0].best.to_string(), "1.2.3-first");
}

#[test]
fn hoisting_threshold() {
    let manifests = vec![
        manifest("a", &[], &[("typescript", "^5.0.0")]),
        manifest("b", &[], &[("typescript", "^5.1.2")]),
        manifest("c", &[], &[("typescript", "~5.0.3")]),
    ];
    let workspace = reconcile(&manifests, &policy(false)).unwrap();
    assert_eq!(entries(&workspace.root_dev_dependencies), pairs(&[("typescript", "^5.1.2")]));
    assert_eq!(entries(&workspace.root_dependencies), pairs(&[]));
    assert_eq!(workspace.manifests.len(), 3);
    for (i, name) in ["a", "b", "c"].iter().enumerate() {
        assert_eq!(workspace.manifests[i].name, *name);
        assert_eq!(entries(&workspace.manifests[i].dev_dependencies), pairs(&[]));
        assert_eq!(workspace.manifests[i].dev_dependencies.get("typescript"), None);
    }
}

#[test]
fn non_universal_dependency_retention() {
    let manifests = vec![
        manifest("a", &[], &[("typescript", "^5.0.0"), ("jest", "29.0.0")]),
        manifest("b", &[], &[("jest", "^29.1.0"), ("typescript", "^5.1.2")]),
        manifest("c", &[], &[("typescript", "~5.0.3")]),
    ];
    let workspace = reconcile(&manifests, &policy(false)).unwrap();
    assert_eq!(entries(&workspace.root_dev_dependencies), pairs(&[("typescript", "^5.1.2")]));
    assert_eq!(workspace.root_dev_dependencies.get("jest"), None);
    assert_eq!(entries(&workspace.manifests[0].dev_dependencies), pairs(&[("jest", "^29.1.0")]));
    assert_eq!(entries(&workspace.manifests[1].dev_dependencies), pairs(&[("jest", "^29.1.0")]));
    assert_eq!(entries(&workspace.manifests[2].dev_dependencies), pairs(&[]));
}

#[test]
fn dependency_in_all_but_one_manifest_is_not_hoisted() {
    let manifests = vec![
        manifest("a", &[], &[("eslint", "8.0.0")]),
        manifest("b", &[], &[("eslint", "8.2.0")]),
        manifest("c", &[], &[("eslint", "~8.1.0")]),
        manifest("d", &[], &[]),
    ];
    let workspace = reconcile(&manifests, &policy(true)).unwrap();
    assert_eq!(entries(&workspace.root_dev_dependencies), pairs(&[]));
    for i in 0..3 {
        assert_eq!(
            entries(&workspace.manifests[i].dev_dependencies),
            pairs(&[("eslint", "~8.1.0")])
        );
    }
    assert_eq!(entries(&workspace.manifests[3].dev_dependencies), pairs(&[]));
}

#[test]
fn single_manifest_hoists_all_its_dev_dependencies() {
    let manifests = vec![manifest("solo", &[("dep", "1.x")], &[("b", "1.2.x"), ("a", "*")])];
    let workspace = reconcile(&manifests, &policy(false)).unwrap();
    assert_eq!(entries(&workspace.root_dev_dependencies), pairs(&[("b", "~1.2"), ("a", "*")]));
    assert_eq!(entries(&workspace.manifests[0].dev_dependencies), pairs(&[]));
    assert_eq!(entries(&workspace.manifests[0].dependencies), pairs(&[("dep", "1.x")]));
}

#[test]
fn no_manifests_give_an_empty_workspace() {
    let workspace = reconcile(&vec![], &policy(true)).unwrap();
    assert_eq!(workspace.manifests.len(), 0);
    assert_eq!(workspace.root_dependencies.len(), 0);
    assert_eq!(workspace.root_dev_dependencies.len(), 0);
}

#[test]
fn merge_flag_gating() {
    let manifests = vec![
        manifest("a", &[("lodash", "^4.17.15")], &[]),
        manifest("b", &[("lodash", "^4.17.21")], &[]),
    ];
    let kept = reconcile(&manifests, &policy(false)).unwrap();
    assert_eq!(entries(&kept.manifests[0].dependencies), pairs(&[("lodash", "^4.17.15")]));
    assert_eq!(entries(&kept.manifests[1].dependencies), pairs(&[("lodash", "^4.17.21")]));
    let merged = reconcile(&manifests, &policy(true)).unwrap();
    assert_eq!(entries(&merged.manifests[0].dependencies), pairs(&[("lodash", "^4.17.21")]));
    assert_eq!(entries(&merged.manifests[1].dependencies), pairs(&[("lodash", "^4.17.21")]));
    assert_eq!(entries(&merged.root_dependencies), pairs(&[]));
    assert_eq!(entries(&kept.root_dependencies), pairs(&[]));
}

#[test]
fn workspace_packages_are_always_rewritten() {
    let manifests = vec![
        manifest("a", &[("@nmshd/crypto", "2.0.1"), ("lodash", "4.x"), ("@nmshdx", "1")], &[]),
        manifest("b", &[("lodash", "^4.17.21"), ("@nmshd/crypto", "~2.0.5")], &[]),
        manifest("c", &[("@nmsh", "1.0.0"), ("@nmshdx", "2"), ("@nmshd/crypto", "2.0.9")], &[]),
        manifest("d", &[("@nmsh", "^1.0.0")], &[]),
    ];
    let workspace = reconcile(&manifests, &policy(false)).unwrap();
    assert_eq!(
        entries(&workspace.manifests[0].dependencies),
        pairs(&[("@nmshd/crypto", "~2.0.5"), ("lodash", "4.x"), ("@nmshdx", "2")])
    );
    assert_eq!(
        entries(&workspace.manifests[1].dependencies),
        pairs(&[("lodash", "^4.17.21"), ("@nmshd/crypto", "~2.0.5")])
    );
    assert_eq!(
        entries(&workspace.manifests[2].dependencies),
        pairs(&[("@nmsh", "1.0.0"), ("@nmshdx", "2"), ("@nmshd/crypto", "~2.0.5")])
    );
    assert_eq!(entries(&workspace.manifests[3].dependencies), pairs(&[("@nmsh", "^1.0.0")]));
}

#[test]
fn merge_rewrites_to_canonical_strings() {
    let manifests = vec![
        manifest("a", &[("left", "001.2.x"), ("right", "3.x-rc")], &[]),
        manifest("b", &[("left", "1.1.9")], &[]),
    ];
    let workspace = reconcile(&manifests, &policy(true)).unwrap();
    assert_eq!(
        entries(&workspace.manifests[0].dependencies),
        pairs(&[("left", "~1.2"), ("right", "^3-rc")])
    );
    assert_eq!(entries(&workspace.manifests[1].dependencies), pairs(&[("left", "~1.2")]));
}

#[test]
fn empty_prefix_makes_every_package_a_workspace_package() {
    let manifests = vec![
        manifest("a", &[("lodash", "^4.17.15")], &[]),
        manifest("b", &[("lodash", "^4.17.21")], &[]),
    ];
    let everything = Policy { merge: false, workspace_prefix: String::new() };
    let workspace = reconcile(&manifests, &everything).unwrap();
    assert_eq!(entries(&workspace.manifests[0].dependencies), pairs(&[("lodash", "^4.17.21")]));
}

#[test]
fn regular_and_development_maps_are_folded_apart() {
    let manifests = vec![
        manifest("a", &[("shared", "1.0.0")], &[("shared", "9.0.0")]),
        manifest("b", &[("shared", "2.0.0")], &[]),
    ];
    let workspace = reconcile(&manifests, &policy(true)).unwrap();
    assert_eq!(entries(&workspace.manifests[0].dependencies), pairs(&[("shared", "2.0.0")]));
    assert_eq!(entries(&workspace.manifests[1].dependencies), pairs(&[("shared", "2.0.0")]));
    assert_eq!(entries(&workspace.manifests[0].dev_dependencies), pairs(&[("shared", "9.0.0")]));
    assert_eq!(entries(&workspace.root_dev_dependencies), pairs(&[]));
}

#[test]
fn fatal_parse() {
    let manifests = vec![
        manifest("good", &[("lodash", "^4.17.15")], &[("typescript", "^5.0.0")]),
        manifest("bad", &[("lodash", "^4.17.21"), ("broken", "abc")], &[]),
    ];
    let expected = ReconcileError {
        manifest: "bad".to_string(),
        dependency: "broken".to_string(),
        range: "abc".to_string(),
        kind: ParseError::InvalidFormat,
    };
    assert_eq!(reconcile(&manifests, &policy(false)), Err(expected));
    assert_eq!(reconcile(&manifests, &policy(true)).unwrap_err().kind.category(), "InvalidFormat");
    assert!(aggregate(&manifests, false).is_err());
    assert!(aggregate(&manifests, true).is_ok());
}

#[test]
fn fatal_parse_in_development_map() {
    let manifests = vec![
        manifest("one", &[("a", "1")], &[("ok", "1.0.0"), ("huge", "1.256.0")]),
        manifest("two", &[("b", "2")], &[("empty", "")]),
    ];
    let expected = ReconcileError {
        manifest: "one".to_string(),
        dependency: "huge".to_string(),
        range: "1.256.0".to_string(),
        kind: ParseError::ComponentOverflow,
    };
    assert_eq!(reconcile(&manifests, &policy(false)), Err(expected));
}

#[test]
fn regular_maps_are_read_before_development_maps() {
    let manifests = vec![
        manifest("one", &[("fine", "1.0.0")], &[("dev-broken", "")]),
        manifest("two", &[("broken", "1.2.3.4")], &[]),
    ];
    let error = reconcile(&manifests, &policy(false)).unwrap_err();
    assert_eq!(error.manifest, "two");
    assert_eq!(error.dependency, "broken");
    assert_eq!(error.range, "1.2.3.4");
    assert_eq!(error.kind, ParseError::InvalidFormat);
    let error = aggregate(&manifests, true).unwrap_err();
    assert_eq!(error.manifest, "one");
    assert_eq!(error.dependency, "dev-broken");
    assert_eq!(error.range, "");
    assert_eq!(error.kind, ParseError::Empty);
}

#[test]
fn unparsable_range_is_fatal_even_where_it_would_stay_unread() {
    let manifests = vec![manifest("one", &[("third-party", "latest")], &[])];
    assert!(reconcile(&manifests, &policy(false)).is_err());
}
