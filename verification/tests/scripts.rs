use monosetup::{
    frame_patterns, relocate, setup_notest_script, strip_tests, unescape_slashes, Frame,
    FrameError, ScriptError, ScriptMap,
};

fn scripts(entries: &[(&str, &str)]) -> ScriptMap {
    let mut map = ScriptMap::new();
    for (name, command) in entries {
        map.insert(name.to_string(), command.to_string());
    }
    map
}

fn listed(map: &ScriptMap) -> Vec<(String, String)> {
    let mut out = Vec::new();
    let mut i = 0;
    while let Some(entry) = map.entry(i) {
        out.push((entry.name.clone(), entry.range.clone()));
        i += 1;
    }
    out
}

fn pairs(entries: &[(&str, &str)]) -> Vec<(String, String)> {
    entries.iter().map(|(n, c)| (n.to_string(), c.to_string())).collect()
}

fn frame(head: &str, array: &str, tail: &str) -> Frame {
    Frame { head: head.to_string(), array: array.to_string(), tail: tail.to_string() }
}

#[test]
fn strips_test_steps_from_build_script() {
    assert_eq!(
        strip_tests("npm run lint && npm run test && npm run bundle", true),
        "npm run lint && npm run bundle:notest"
    );
    assert_eq!(
        strip_tests("tsc&&npm run test:ci&&npm run bundle&&echo done", true),
        "tsc&&npm run bundle:notest&&echo done"
    );
}

#[test]
fn strips_test_steps_without_marking_bundles() {
    assert_eq!(
        strip_tests("webpack && npm run test:web && npm run bundle:min", false),
        "webpack && npm run bundle:min"
    );
}

#[test]
fn script_without_tests_stays_as_it_is() {
    assert_eq!(strip_tests("tsc", true), "tsc");
    assert_eq!(strip_tests("tsc && webpack", false), "tsc && webpack");
    assert_eq!(strip_tests("", true), "");
    assert_eq!(strip_tests("a&b", true), "a&b");
}

#[test]
fn script_of_tests_only_becomes_empty() {
    assert_eq!(strip_tests("npm test", true), "");
    assert_eq!(strip_tests("jest --testPathPattern x&&mocha test", false), "");
}

#[test]
fn commands_are_cut_at_double_ampersand_from_the_left() {
    assert_eq!(strip_tests("a&&&test", true), "a");
    assert_eq!(strip_tests("test&&&b", true), "&b");
    assert_eq!(strip_tests("a&&&&b", true), "a&&&&b");
    assert_eq!(strip_tests("a&&", true), "a&&");
    assert_eq!(strip_tests("&&test&&", true), "&&");
    assert_eq!(strip_tests("bundle&&&bundle", true), "bundle:notest&&&bundle:notest");
}

#[test]
fn command_with_test_and_bundle_goes() {
    assert_eq!(strip_tests("bundle-test && bundle", true), " bundle:notest");
    assert_eq!(strip_tests("bundle && untested", true), "bundle :notest");
}

#[test]
fn notest_scripts_are_added() {
    let mut map = scripts(&[
        ("build", "npm run lint && npm run test && npm run bundle"),
        ("bundle", "webpack && npm run test:web"),
    ]);
    assert_eq!(setup_notest_script(&mut map), Ok(()));
    assert_eq!(
        listed(&map),
        pairs(&[
            ("build", "npm run lint && npm run test && npm run bundle"),
            ("bundle", "webpack && npm run test:web"),
            ("build:notest", "npm run lint && npm run bundle:notest"),
            ("bundle:notest", "webpack "),
        ])
    );
}

#[test]
fn existing_build_notest_stops_everything() {
    let before = [("build:notest", "tsc"), ("build", "tsc && jest test"), ("bundle", "webpack")];
    let mut map = scripts(&before);
    assert_eq!(setup_notest_script(&mut map), Ok(()));
    assert_eq!(listed(&map), pairs(&before));
    let mut alone = scripts(&[("build:notest", "tsc")]);
    assert_eq!(setup_notest_script(&mut alone), Ok(()));
    assert_eq!(listed(&alone), pairs(&[("build:notest", "tsc")]));
}

#[test]
fn missing_build_script_is_an_error() {
    let before = [("bundle", "webpack"), ("start", "node .")];
    let mut map = scripts(&before);
    assert_eq!(setup_notest_script(&mut map), Err(ScriptError::NoBuildScript));
    assert_eq!(listed(&map), pairs(&before));
    let mut empty = ScriptMap::new();
    assert_eq!(setup_notest_script(&mut empty), Err(ScriptError::NoBuildScript));
    assert_eq!(empty.len(), 0);
}

#[test]
fn bundle_script_is_optional() {
    let mut map = scripts(&[("build", "tsc && npm test")]);
    assert_eq!(setup_notest_script(&mut map), Ok(()));
    assert_eq!(listed(&map), pairs(&[("build", "tsc && npm test"), ("build:notest", "tsc ")]));
}

#[test]
fn existing_bundle_notest_is_kept() {
    let mut map = scripts(&[
        ("bundle:notest", "mine"),
        ("bundle", "webpack && test"),
        ("build", "bundle"),
    ]);
    assert_eq!(setup_notest_script(&mut map), Ok(()));
    assert_eq!(
        listed(&map),
        pairs(&[
            ("bundle:notest", "mine"),
            ("bundle", "webpack && test"),
            ("build", "bundle"),
            ("build:notest", "bundle:notest"),
        ])
    );
}

#[test]
fn frames_the_patterns_array() {
    let config = "module.exports = { plugins: [ new Copy({ patterns: [{ from: \"./a\" }] }) ] };";
    assert_eq!(
        frame_patterns(config),
        Ok(Some(frame(
            "module.exports = { plugins: [ new Copy({ patterns: ",
            "[{ from: \"./a\" }]",
            " }) ] };"
        )))
    );
    assert_eq!(frame_patterns("patterns[]"), Ok(Some(frame("patterns", "[]", ""))));
    assert_eq!(frame_patterns("x patterns: [1, [2]] y"), Ok(Some(frame("x patterns: ", "[1, [2]", "] y"))));
    assert_eq!(
        frame_patterns("p\u{e4}tterns patterns \u{2192} [\u{e9}] \u{fc}"),
        Ok(Some(frame("p\u{e4}tterns patterns \u{2192} ", "[\u{e9}]", " \u{fc}")))
    );
}

#[test]
fn configuration_without_patterns_is_not_framed() {
    assert_eq!(frame_patterns(""), Ok(None));
    assert_eq!(frame_patterns("module.exports = { entry: [\"a\"] };"), Ok(None));
    assert_eq!(frame_patterns("pattern [1]"), Ok(None));
}

#[test]
fn brackets_are_sought_behind_the_word() {
    assert_eq!(frame_patterns("[a] patterns"), Err(FrameError::MissingBracket));
    assert_eq!(frame_patterns("patterns: ["), Err(FrameError::MissingBracket));
    assert_eq!(frame_patterns("patterns: ]"), Err(FrameError::MissingBracket));
    assert_eq!(frame_patterns("[ patterns ]"), Err(FrameError::MissingBracket));
}

#[test]
fn closing_bracket_in_front_of_opening_one() {
    assert_eq!(frame_patterns("patterns ] x ["), Err(FrameError::ClosedBeforeOpened));
    assert_eq!(frame_patterns("patterns ] ["), Err(FrameError::ClosedBeforeOpened));
    assert_eq!(frame_patterns("patterns ][ rest"), Ok(Some(frame("patterns ]", "", "[ rest"))));
}

#[test]
fn relocates_pattern_paths() {
    assert_eq!(relocate("./dist"), "../../dist");
    assert_eq!(relocate("/lib"), ".././lib");
    assert_eq!(relocate(""), "../.");
}

#[test]
fn unescapes_slashes() {
    assert_eq!(unescape_slashes("[{\"from\":\"..\\/..\\/dist\"}]"), "[{\"from\":\"../../dist\"}]");
    assert_eq!(unescape_slashes("no escapes / here \\ at all"), "no escapes / here \\ at all");
    assert_eq!(unescape_slashes("\\/"), "/");
    assert_eq!(unescape_slashes("\\\\/"), "\\/");
    assert_eq!(unescape_slashes("\\/\\/"), "//");
    assert_eq!(unescape_slashes(""), "");
}
