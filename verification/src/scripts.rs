//! Build scripts without their test steps.

use vstd::prelude::*;
use vstd::string::StringExecFns;
use crate::manifest::{lookup, DependencyMap};
use crate::segments::{contains_text, contains_word, join, join_text, split_on, split_text, texts};

verus! {

/// The commands that stay when the test steps are taken out: a command
/// that holds the word `test` goes; with `mark_bundles` set, a command
/// that holds the word `bundle` gets `:notest` at its end.
pub open spec fn kept_commands(commands: Seq<Seq<char>>, mark_bundles: bool) -> Seq<Seq<char>>
    decreases commands.len(),
{
    if commands.len() == 0 {
        Seq::empty()
    } else {
        let front = kept_commands(commands.drop_last(), mark_bundles);
        let last = commands.last();
        if contains_word(last, "test"@) {
            front
        } else if mark_bundles && contains_word(last, "bundle"@) {
            front.push(last + ":notest"@)
        } else {
            front.push(last)
        }
    }
}

/// A script, which is a chain of commands joined by `&&`, without its
/// test steps.
pub open spec fn without_tests(script: Seq<char>, mark_bundles: bool) -> Seq<char> {
    join(kept_commands(split_on(script, "&&"@), mark_bundles), "&&"@)
}

/// The scripts of a manifest with the scripts that skip the tests added:
/// `build:notest`, made of `build`, unless it is there already, and then
/// `bundle:notest`, made of `bundle`, unless it is there already or
/// there is no `bundle`. Without `build:notest` and without `build`
/// nothing is added.
pub open spec fn with_notest_scripts(scripts: Seq<(Seq<char>, Seq<char>)>) -> Seq<
    (Seq<char>, Seq<char>),
> {
    if lookup(scripts, "build:notest"@) is Some || lookup(scripts, "build"@) is None {
        scripts
    } else {
        let built = scripts.push(
            ("build:notest"@, without_tests(lookup(scripts, "build"@)->Some_0, true)),
        );
        if lookup(scripts, "bundle:notest"@) is Some || lookup(scripts, "bundle"@) is None {
            built
        } else {
            built.push(
                ("bundle:notest"@, without_tests(lookup(scripts, "bundle"@)->Some_0, false)),
            )
        }
    }
}

/// The scripts of a manifest: a map from the names of the scripts to
/// their commands, in the order of the manifest.
pub type ScriptMap = DependencyMap;

/// A manifest has neither a `build:notest` script nor a `build` script to
/// make one of.
#[derive(Clone, Copy, Debug, PartialEq, Eq, Structural)]
pub enum ScriptError {
    NoBuildScript,
}

/// Takes the test steps out of a script.
pub fn strip_tests(script: &str, mark_bundles: bool) -> (stripped: String)
    ensures
        stripped@ == without_tests(script@, mark_bundles),
{
    proof {
        reveal_strlit("&&");
        reveal_strlit("test");
        reveal_strlit("bundle");
    }
    let commands = split_text(script, "&&");
    let mut kept: Vec<String> = Vec::new();
    let mut i: usize = 0;
    proof {
        assert(texts(commands@).take(0) =~= Seq::empty());
        assert(texts(kept@) =~= Seq::empty());
    }
    while i < commands.len()
        invariant
            i <= commands.len(),
            texts(kept@) == kept_commands(texts(commands@).take(i as int), mark_bundles),
        decreases commands.len() - i,
    {
        proof {
            reveal_strlit("test");
            reveal_strlit("bundle");
            assert(texts(commands@).take(i + 1).drop_last() =~= texts(commands@).take(i as int));
            assert(texts(commands@).take(i + 1).last() == commands@[i as int]@);
        }
        let command = commands[i].as_str();
        let ghost before = texts(kept@);
        if !contains_text(command, "test") {
            let mut copy = command.to_owned();
            if mark_bundles && contains_text(command, "bundle") {
                copy.append(":notest");
            }
            let ghost pushed = copy@;
            kept.push(copy);
            proof {
                assert(texts(kept@) =~= before.push(pushed));
            }
        }
        i += 1;
    }
    proof {
        assert(texts(commands@).take(commands.len() as int) =~= texts(commands@));
    }
    join_text(&kept, "&&")
}

/// Adds to the scripts of a manifest the scripts that skip the tests.
///
/// Fails, and leaves the scripts as they are, exactly when there is
/// neither a `build:notest` script nor a `build` script.
pub fn setup_notest_script(scripts: &mut ScriptMap) -> (r: Result<(), ScriptError>)
    ensures
        r is Err <==> lookup(old(scripts)@, "build:notest"@) is None && lookup(
            old(scripts)@,
            "build"@,
        ) is None,
        r is Err ==> final(scripts)@ == old(scripts)@,
        r is Ok ==> final(scripts)@ == with_notest_scripts(old(scripts)@),
{
    proof {
        reveal_strlit("build:notest");
        reveal_strlit("bundle:notest");
        reveal_strlit("build");
        reveal_strlit("bundle");
        assert("build:notest"@[2] != "bundle:notest"@[2]);
        assert("build:notest"@.len() != "bundle"@.len());
    }
    if scripts.get("build:notest").is_some() {
        return Ok(());
    }
    let build_notest = match scripts.get("build") {
        Some(build) => strip_tests(build.as_str(), true),
        None => {
            return Err(ScriptError::NoBuildScript);
        },
    };
    let ghost built = old(scripts)@.push(("build:notest"@, build_notest@));
    scripts.insert("build:notest".to_owned(), build_notest);
    proof {
        assert(scripts@ == built);
        assert(built.drop_last() =~= old(scripts)@);
        assert(built.last().0 == "build:notest"@);
        assert(lookup(built, "bundle:notest"@) == lookup(old(scripts)@, "bundle:notest"@));
        assert(lookup(built, "bundle"@) == lookup(old(scripts)@, "bundle"@));
    }
    if scripts.get("bundle:notest").is_some() {
        return Ok(());
    }
    let bundle_notest = match scripts.get("bundle") {
        Some(bundle) => strip_tests(bundle.as_str(), false),
        None => {
            return Ok(());
        },
    };
    scripts.insert("bundle:notest".to_owned(), bundle_notest);
    Ok(())
}

} // verus!
