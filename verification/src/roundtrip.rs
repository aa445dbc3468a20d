//! Parsing undoes rendering on every version that the parser can give.

use vstd::prelude::*;
use crate::error::ParseError;
use crate::number::{all_digits, decimal_value, digit_value, is_digit, parse_component, unsigned};
use crate::parse::{is_any_marker, parse_range};
use crate::render::{components, digit_char, digits_of, dotted, render, sigil, tail};
use crate::text::{
    free_of,
    lemma_position_bounds,
    lemma_position_concat,
    lemma_split_concat,
    lemma_split_single,
    position,
    split,
};
use crate::version::{PatchStrategy, VersionView};

verus! {

/// A numeral is made of digits, at least one, and writes its number.
pub proof fn lemma_digits_of(n: nat)
    ensures
        digits_of(n).len() >= 1,
        all_digits(digits_of(n)),
        decimal_value(digits_of(n)) == n,
    decreases n,
{
    if n < 10 {
        let d = digits_of(n);
        assert(d.drop_last() =~= Seq::<char>::empty());
        assert(decimal_value(d.drop_last()) == 0);
        assert(digit_value(digit_char(n)) == n);
    } else {
        lemma_digits_of(n / 10);
        let front = digits_of(n / 10);
        let d = front.push(digit_char(n % 10));
        assert(d.drop_last() =~= front);
        assert(digit_value(digit_char(n % 10)) == n % 10);
        assert(is_digit(digit_char(n % 10)));
    }
}

/// The numeral of a component reads back as that component, and holds
/// none of the characters that mean something else in a range.
pub proof fn lemma_component_round_trip(n: u8)
    ensures
        parse_component(digits_of(n as nat)) == Ok::<u8, ParseError>(n),
        digits_of(n as nat).len() >= 1,
        is_digit(digits_of(n as nat)[0]),
        free_of(digits_of(n as nat), '.'),
        free_of(digits_of(n as nat), '-'),
        !is_any_marker(digits_of(n as nat)),
{
    lemma_digits_of(n as nat);
    let d = digits_of(n as nat);
    assert(is_digit(d[0]));
    assert(unsigned(d) == d);
    assert forall|i: int| 0 <= i < d.len() implies d[i] != '.' && d[i] != '-' by {
        assert(is_digit(d[i]));
    }
}

/// Every version that the parser gives is well formed.
pub proof fn lemma_parsed_is_well_formed(s: Seq<char>)
    requires
        parse_range(s) is Ok,
    ensures
        parse_range(s)->Ok_0.well_formed(),
{
    lemma_position_bounds(s, '-');
}

/// The pieces of the rendered components are their numerals, and the
/// rendering holds no `-` and starts with a digit.
proof fn lemma_dotted(parts: Seq<u8>)
    requires
        1 <= parts.len() <= 3,
    ensures
        split(dotted(parts), '.').len() == parts.len(),
        forall|i: int|
            0 <= i < parts.len() ==> #[trigger] split(dotted(parts), '.')[i] == digits_of(
                parts[i] as nat,
            ),
        free_of(dotted(parts), '-'),
        dotted(parts).len() >= 1,
        is_digit(dotted(parts)[0]),
{
    reveal_with_fuel(dotted, 4);
    let d0 = digits_of(parts[0] as nat);
    lemma_component_round_trip(parts[0]);
    if parts.len() == 1 {
        lemma_split_single(d0, '.');
    } else {
        let d1 = digits_of(parts[1] as nat);
        lemma_component_round_trip(parts[1]);
        if parts.len() == 2 {
            assert(parts.drop_last() =~= seq![parts[0]]);
            assert(dotted(parts) == d0 + seq!['.'] + d1);
            lemma_split_concat(d0, d1, '.');
            lemma_split_single(d1, '.');
        } else {
            let d2 = digits_of(parts[2] as nat);
            lemma_component_round_trip(parts[2]);
            assert(parts.drop_last().drop_last() =~= seq![parts[0]]);
            assert(parts.drop_last()[1] == parts[1]);
            assert(dotted(parts.drop_last()) == d0 + seq!['.'] + d1);
            assert(dotted(parts) =~= d0 + seq!['.'] + (d1 + seq!['.'] + d2));
            lemma_split_concat(d0, d1 + seq!['.'] + d2, '.');
            lemma_split_concat(d1, d2, '.');
            lemma_split_single(d2, '.');
        }
    }
}

/// Parsing the canonical string of a parsed version gives that version
/// again, field for field. (A range written with `x`, such as `1.x` or
/// `1.2.x`, comes back as the caret or tilde range that it stands for, and
/// that is what the parser had made of it in the first place.)
pub proof fn law_round_trip(s: Seq<char>)
    requires
        parse_range(s) is Ok,
    ensures
        parse_range(render(parse_range(s)->Ok_0)) == parse_range(s),
{
    lemma_parsed_is_well_formed(s);
    lemma_render_parses(parse_range(s)->Ok_0);
}

/// Parsing the canonical string of a well-formed version gives that
/// version.
pub proof fn lemma_render_parses(v: VersionView)
    requires
        v.well_formed(),
    ensures
        parse_range(render(v)) == Ok::<VersionView, ParseError>(v),
{
    let text = render(v);
    let rest = tail(v);
    let head = if v.is_wildcard() {
        sigil(v.patch_strategy)
    } else {
        sigil(v.patch_strategy) + dotted(components(v))
    };
    assert(text =~= head + rest);
    if !v.is_wildcard() {
        assert(components(v).len() >= 1);
        assert(components(v).len() <= 3);
        lemma_dotted(components(v));
    }
    assert(free_of(head, '-'));
    assert(head.len() >= 1);
    lemma_position_concat(head, rest, '-');
    assert(position(rest, '-') == 0);
    let cut = position(text, '-');
    assert(cut == head.len());
    assert(text.take(cut) =~= head);
    assert(text.skip(cut) =~= rest);
    if !v.is_wildcard() {
        let parts = components(v);
        let numbers = dotted(parts);
        let pieces = split(numbers, '.');
        assert(pieces[0] == digits_of(parts[0] as nat));
        lemma_component_round_trip(parts[0]);
        if parts.len() >= 2 {
            assert(pieces[1] == digits_of(parts[1] as nat));
            lemma_component_round_trip(parts[1]);
        }
        if parts.len() >= 3 {
            assert(pieces[2] == digits_of(parts[2] as nat));
            lemma_component_round_trip(parts[2]);
        }
        if v.patch_strategy == PatchStrategy::Exact {
            assert(head =~= numbers);
        } else {
            assert(head.skip(1) =~= numbers);
        }
    }
}

} // verus!
