//! Reading a range string into a [`Version`].

use vstd::prelude::*;
use vstd::string::StrSliceExecFns;
use crate::error::ParseError;
use crate::number::{is_ascii_digit, is_digit, parse_component, read_component};
use crate::text::{chars_of, find_char, position, split};
use crate::version::{PatchStrategy, Version, VersionView};

verus! {

/// The single character `x`, which stands for "any" in a plain range.
pub open spec fn is_any_marker(part: Seq<char>) -> bool {
    part.len() == 1 && part[0] == 'x'
}

/// A tilde or caret range without its sigil: one to three numeric
/// components, separated by dots.
pub open spec fn parse_loose(
    rest: Seq<char>,
    appendix: Option<Seq<char>>,
    strategy: PatchStrategy,
) -> Result<VersionView, ParseError> {
    let parts = split(rest, '.');
    if rest.len() == 0 {
        Err(ParseError::InvalidFormat)
    } else {
        match parse_component(parts[0]) {
            Err(e) => Err(e),
            Ok(major) => if parts.len() == 1 {
                Ok(
                    VersionView {
                        major: Some(major),
                        minor: None,
                        patch: None,
                        appendix,
                        patch_strategy: strategy,
                    },
                )
            } else {
                match parse_component(parts[1]) {
                    Err(e) => Err(e),
                    Ok(minor) => if parts.len() == 2 {
                        Ok(
                            VersionView {
                                major: Some(major),
                                minor: Some(minor),
                                patch: None,
                                appendix,
                                patch_strategy: strategy,
                            },
                        )
                    } else {
                        match parse_component(parts[2]) {
                            Err(e) => Err(e),
                            Ok(patch) => if parts.len() == 3 {
                                Ok(
                                    VersionView {
                                        major: Some(major),
                                        minor: Some(minor),
                                        patch: Some(patch),
                                        appendix,
                                        patch_strategy: strategy,
                                    },
                                )
                            } else {
                                Err(ParseError::InvalidFormat)
                            },
                        }
                    },
                }
            },
        }
    }
}

/// A range that starts with a digit: up to three components, of which the
/// second or the third may be `x`. An `x` in second place makes a caret
/// range and an `x` in third place a tilde range; whatever follows the
/// `x` is not read.
pub open spec fn parse_plain(body: Seq<char>, appendix: Option<Seq<char>>) -> Result<
    VersionView,
    ParseError,
> {
    let parts = split(body, '.');
    match parse_component(parts[0]) {
        Err(e) => Err(e),
        Ok(major) => if parts.len() == 1 {
            Ok(
                VersionView {
                    major: Some(major),
                    minor: None,
                    patch: None,
                    appendix,
                    patch_strategy: PatchStrategy::Exact,
                },
            )
        } else if is_any_marker(parts[1]) {
            Ok(
                VersionView {
                    major: Some(major),
                    minor: None,
                    patch: None,
                    appendix,
                    patch_strategy: PatchStrategy::Minor,
                },
            )
        } else {
            match parse_component(parts[1]) {
                Err(e) => Err(e),
                Ok(minor) => if parts.len() == 2 {
                    Ok(
                        VersionView {
                            major: Some(major),
                            minor: Some(minor),
                            patch: None,
                            appendix,
                            patch_strategy: PatchStrategy::Exact,
                        },
                    )
                } else if is_any_marker(parts[2]) {
                    Ok(
                        VersionView {
                            major: Some(major),
                            minor: Some(minor),
                            patch: None,
                            appendix,
                            patch_strategy: PatchStrategy::Patch,
                        },
                    )
                } else {
                    match parse_component(parts[2]) {
                        Err(e) => Err(e),
                        Ok(patch) => if parts.len() == 3 {
                            Ok(
                                VersionView {
                                    major: Some(major),
                                    minor: Some(minor),
                                    patch: Some(patch),
                                    appendix,
                                    patch_strategy: PatchStrategy::Exact,
                                },
                            )
                        } else {
                            Err(ParseError::InvalidFormat)
                        },
                    }
                },
            }
        },
    }
}

/// What a range string stands for, or why it is rejected.
///
/// Everything from the first `-` on is the appendix. What comes before it
/// is a tilde range (`~1.2.3`), a caret range (`^1.2`), a plain range
/// (`1.2.3`, `1.x`, `1.2.x`) or a wildcard (anything that starts with `*`
/// or `x`).
pub open spec fn parse_range(s: Seq<char>) -> Result<VersionView, ParseError> {
    let cut = position(s, '-');
    let body = s.take(cut);
    let appendix = if cut < s.len() {
        Some(s.skip(cut))
    } else {
        None
    };
    if s.len() == 0 {
        Err(ParseError::Empty)
    } else if body.len() == 0 {
        Err(ParseError::InvalidFormat)
    } else if body[0] == '~' {
        parse_loose(body.skip(1), appendix, PatchStrategy::Patch)
    } else if body[0] == '^' {
        parse_loose(body.skip(1), appendix, PatchStrategy::Minor)
    } else if is_digit(body[0]) {
        parse_plain(body, appendix)
    } else if body[0] == '*' || body[0] == 'x' {
        Ok(
            VersionView {
                major: None,
                minor: None,
                patch: None,
                appendix,
                patch_strategy: PatchStrategy::Major,
            },
        )
    } else {
        Err(ParseError::InvalidFormat)
    }
}

/// The first piece of `s[start..end]` ends at the first dot; when there is
/// a dot, the remaining pieces are those of what follows it.
proof fn lemma_split_step(s: Seq<char>, start: int, dot: int, end: int)
    requires
        0 <= start <= dot <= end <= s.len(),
        dot - start == position(s.subrange(start, end), '.'),
    ensures
        split(s.subrange(start, end), '.')[0] == s.subrange(start, dot),
        dot == end ==> split(s.subrange(start, end), '.').len() == 1,
        dot < end ==> split(s.subrange(start, end), '.') == seq![s.subrange(start, dot)] + split(
            s.subrange(dot + 1, end),
            '.',
        ),
        dot < end ==> split(s.subrange(start, end), '.').len() == 1 + split(
            s.subrange(dot + 1, end),
            '.',
        ).len(),
{
    let piece = s.subrange(start, end);
    assert(piece.take(dot - start) =~= s.subrange(start, dot));
    if dot < end {
        assert(piece.skip(dot - start + 1) =~= s.subrange(dot + 1, end));
    } else {
        assert(piece =~= s.subrange(start, dot));
    }
}

impl Version {
    fn assemble(
        major: u8,
        minor: Option<u8>,
        patch: Option<u8>,
        appendix: Option<String>,
        patch_strategy: PatchStrategy,
    ) -> (v: Version)
        ensures
            v.major == Some(major),
            v.minor == minor,
            v.patch == patch,
            v.appendix == appendix,
            v.patch_strategy == patch_strategy,
    {
        Version { major: Some(major), minor, patch, appendix, patch_strategy }
    }

    /// Reads the one to three components held in `chars[start..end]`. With
    /// `plain` set an `x` may stand in second or third place; without it
    /// the range is a tilde or caret range of the given strategy.
    fn read_fields(
        chars: &Vec<char>,
        start: usize,
        end: usize,
        appendix: Option<String>,
        plain: bool,
        strategy: PatchStrategy,
    ) -> (r: Result<Version, ParseError>)
        requires
            start <= end <= chars.len(),
            plain || start < end,
        ensures
            match r {
                Ok(v) => Ok::<VersionView, ParseError>(v@),
                Err(e) => Err(e),
            } == (if plain {
                parse_plain(
                    chars@.subrange(start as int, end as int),
                    match appendix {
                        Some(a) => Some(a@),
                        None => None,
                    },
                )
            } else {
                parse_loose(
                    chars@.subrange(start as int, end as int),
                    match appendix {
                        Some(a) => Some(a@),
                        None => None,
                    },
                    strategy,
                )
            }),
    {
        let exact = if plain {
            PatchStrategy::Exact
        } else {
            strategy
        };
        let dot0 = find_char(chars, start, end, '.');
        proof {
            lemma_split_step(chars@, start as int, dot0 as int, end as int);
        }
        let major = match read_component(chars, start, dot0) {
            Ok(n) => n,
            Err(e) => {
                return Err(e);
            },
        };
        if dot0 == end {
            return Ok(Version::assemble(major, None, None, appendix, exact));
        }
        let dot1 = find_char(chars, dot0 + 1, end, '.');
        proof {
            lemma_split_step(chars@, dot0 + 1, dot1 as int, end as int);
        }
        if plain && dot1 - dot0 == 2 && chars[dot0 + 1] == 'x' {
            return Ok(Version::assemble(major, None, None, appendix, PatchStrategy::Minor));
        }
        let minor = match read_component(chars, dot0 + 1, dot1) {
            Ok(n) => n,
            Err(e) => {
                return Err(e);
            },
        };
        if dot1 == end {
            return Ok(Version::assemble(major, Some(minor), None, appendix, exact));
        }
        let dot2 = find_char(chars, dot1 + 1, end, '.');
        proof {
            lemma_split_step(chars@, dot1 + 1, dot2 as int, end as int);
        }
        if plain && dot2 - dot1 == 2 && chars[dot1 + 1] == 'x' {
            return Ok(Version::assemble(major, Some(minor), None, appendix, PatchStrategy::Patch));
        }
        let patch = match read_component(chars, dot1 + 1, dot2) {
            Ok(n) => n,
            Err(e) => {
                return Err(e);
            },
        };
        if dot2 == end {
            Ok(Version::assemble(major, Some(minor), Some(patch), appendix, exact))
        } else {
            Err(ParseError::InvalidFormat)
        }
    }

    /// Parses a range string.
    ///
    /// The result is `Ok` exactly on the strings that [`parse_range`]
    /// accepts, and then holds the version that it names; otherwise it is
    /// the error that [`parse_range`] names.
    pub fn parse(range: &str) -> (r: Result<Version, ParseError>)
        ensures
            match r {
                Ok(v) => parse_range(range@) == Ok::<VersionView, ParseError>(v@),
                Err(e) => parse_range(range@) == Err::<VersionView, ParseError>(e),
            },
    {
        let chars = chars_of(range);
        let len = chars.len();
        if len == 0 {
            return Err(ParseError::Empty);
        }
        let cut = find_char(&chars, 0, len, '-');
        proof {
            assert(chars@.subrange(0, len as int) =~= range@);
        }
        let appendix = if cut < len {
            let tail = range.substring_char(cut, len);
            proof {
                assert(range@.subrange(cut as int, len as int) =~= range@.skip(cut as int));
            }
            Some(tail.to_owned())
        } else {
            None
        };
        if cut == 0 {
            return Err(ParseError::InvalidFormat);
        }
        let ghost body = range@.take(cut as int);
        proof {
            assert(chars@.subrange(0, cut as int) =~= body);
            assert(chars@.subrange(1, cut as int) =~= body.skip(1));
        }
        let first = chars[0];
        if first == '~' {
            if cut == 1 {
                return Err(ParseError::InvalidFormat);
            }
            Version::read_fields(&chars, 1, cut, appendix, false, PatchStrategy::Patch)
        } else if first == '^' {
            if cut == 1 {
                return Err(ParseError::InvalidFormat);
            }
            Version::read_fields(&chars, 1, cut, appendix, false, PatchStrategy::Minor)
        } else if is_ascii_digit(first) {
            Version::read_fields(&chars, 0, cut, appendix, true, PatchStrategy::Exact)
        } else if first == '*' || first == 'x' {
            Ok(
                Version {
                    major: None,
                    minor: None,
                    patch: None,
                    appendix,
                    patch_strategy: PatchStrategy::Major,
                },
            )
        } else {
            Err(ParseError::InvalidFormat)
        }
    }
}

impl<'a> TryFrom<&'a str> for Version {
    type Error = ParseError;

    /// Parses a range string, as [`Version::parse`] does.
    fn try_from(range: &'a str) -> (r: Result<Version, ParseError>)
        ensures
            match r {
                Ok(v) => parse_range(range@) == Ok::<VersionView, ParseError>(v@),
                Err(e) => parse_range(range@) == Err::<VersionView, ParseError>(e),
            },
    {
        Version::parse(range)
    }
}

impl<'a> vstd::std_specs::convert::TryFromSpecImpl<&'a str> for Version {
    open spec fn obeys_try_from_spec() -> bool {
        false
    }

    open spec fn try_from_spec(range: &'a str) -> Result<Version, ParseError> {
        arbitrary()
    }
}

} // verus!
