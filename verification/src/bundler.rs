//! The copy patterns of a bundler configuration: where they stand in the
//! text of the file, and how their paths move one directory up.

use vstd::prelude::*;
use vstd::string::{StrSliceExecFns, StringExecFns};
use crate::segments::{find_text, join_text, replaced, seek, split_text};
use crate::text::{chars_of, find_char, position};

verus! {

/// A configuration cut in three: what stands before the array of copy
/// patterns, the array with its brackets, and what stands behind it.
#[derive(Debug, PartialEq, Eq)]
pub struct Frame {
    pub head: String,
    pub array: String,
    pub tail: String,
}

/// What a [`Frame`] is to the contracts.
pub ghost struct FrameView {
    pub head: Seq<char>,
    pub array: Seq<char>,
    pub tail: Seq<char>,
}

impl View for Frame {
    type V = FrameView;

    open spec fn view(&self) -> FrameView {
        FrameView { head: self.head@, array: self.array@, tail: self.tail@ }
    }
}

/// Why a configuration that names its patterns cannot be cut.
#[derive(Clone, Copy, Debug, PartialEq, Eq, Structural)]
pub enum FrameError {
    /// No `[` or no `]` follows the word `patterns`.
    MissingBracket,
    /// The first `]` stands before the first `[`, with something between
    /// them.
    ClosedBeforeOpened,
}

/// How a configuration is cut. The array runs from the first `[` to the
/// first `]` behind the first `patterns`, both brackets included; where
/// the `]` stands directly in front of the `[` the array is empty. A
/// configuration without the word `patterns` is not cut at all.
pub open spec fn framed(config: Seq<char>) -> Result<Option<FrameView>, FrameError> {
    let begin = seek(config, "patterns"@);
    let rest = config.skip(begin);
    let open = position(rest, '[');
    let close = position(rest, ']');
    if begin >= config.len() {
        Ok(None)
    } else if open >= rest.len() || close >= rest.len() {
        Err(FrameError::MissingBracket)
    } else if close + 1 < open {
        Err(FrameError::ClosedBeforeOpened)
    } else {
        Ok(
            Some(
                FrameView {
                    head: config.take(begin + open),
                    array: rest.subrange(open, close + 1),
                    tail: rest.skip(close + 1),
                },
            ),
        )
    }
}

/// The path of a copy pattern, seen from one directory further down.
pub open spec fn relocated(from: Seq<char>) -> Seq<char> {
    "../."@ + from
}

/// A text with `/` in the place of every `\/`.
pub open spec fn unescaped(text: Seq<char>) -> Seq<char> {
    replaced(text, "\\/"@, "/"@)
}

/// Cuts a configuration at the array of its copy patterns.
pub fn frame_patterns(config: &str) -> (r: Result<Option<Frame>, FrameError>)
    ensures
        match r {
            Ok(Some(frame)) => framed(config@) == Ok::<Option<FrameView>, FrameError>(
                Some(frame@),
            ),
            Ok(None) => framed(config@) == Ok::<Option<FrameView>, FrameError>(None),
            Err(e) => framed(config@) == Err::<Option<FrameView>, FrameError>(e),
        },
{
    proof {
        reveal_strlit("patterns");
    }
    let chars = chars_of(config);
    let word = chars_of("patterns");
    let len = chars.len();
    let begin = find_text(&chars, 0, &word);
    proof {
        assert(chars@.skip(0) =~= config@);
    }
    if begin == len {
        return Ok(None);
    }
    let ghost rest = config@.skip(begin as int);
    let open = find_char(&chars, begin, len, '[');
    let close = find_char(&chars, begin, len, ']');
    proof {
        assert(chars@.subrange(begin as int, len as int) =~= rest);
    }
    if open == len || close == len {
        return Err(FrameError::MissingBracket);
    }
    if close + 1 < open {
        return Err(FrameError::ClosedBeforeOpened);
    }
    let head = config.substring_char(0, open).to_owned();
    let array = config.substring_char(open, close + 1).to_owned();
    let tail = config.substring_char(close + 1, len).to_owned();
    proof {
        assert(config@.subrange(0, open as int) =~= config@.take(begin + (open - begin)));
        assert(config@.subrange(open as int, close + 1) =~= rest.subrange(
            open - begin,
            close - begin + 1,
        ));
        assert(config@.subrange(close + 1, len as int) =~= rest.skip(close - begin + 1));
    }
    Ok(Some(Frame { head, array, tail }))
}

/// Moves the path of a copy pattern one directory up.
pub fn relocate(from: &str) -> (moved: String)
    ensures
        moved@ == relocated(from@),
{
    let mut moved = "../.".to_owned();
    moved.append(from);
    moved
}

/// Writes `/` for every `\/` of a text.
pub fn unescape_slashes(text: &str) -> (plain: String)
    ensures
        plain@ == unescaped(text@),
{
    proof {
        reveal_strlit("\\/");
    }
    let pieces = split_text(text, "\\/");
    join_text(&pieces, "/")
}

} // verus!
