//! Writing a [`Version`] back as a range string.

use vstd::prelude::*;
use vstd::string::StringExecFns;
use crate::version::{PatchStrategy, Version, VersionView};

verus! {

/// The character that writes a digit `d` below ten.
pub open spec fn digit_char(d: nat) -> char {
    if d == 0 {
        '0'
    } else if d == 1 {
        '1'
    } else if d == 2 {
        '2'
    } else if d == 3 {
        '3'
    } else if d == 4 {
        '4'
    } else if d == 5 {
        '5'
    } else if d == 6 {
        '6'
    } else if d == 7 {
        '7'
    } else if d == 8 {
        '8'
    } else {
        '9'
    }
}

/// The decimal numeral of `n`, without leading zeros.
pub open spec fn digits_of(n: nat) -> Seq<char>
    decreases n,
{
    if n < 10 {
        seq![digit_char(n)]
    } else {
        digits_of(n / 10).push(digit_char(n % 10))
    }
}

/// A component as a list of zero or one numbers.
pub open spec fn present(component: Option<u8>) -> Seq<u8> {
    match component {
        Some(n) => seq![n],
        None => Seq::empty(),
    }
}

/// The numerals of `parts`, joined by dots.
pub open spec fn dotted(parts: Seq<u8>) -> Seq<char>
    decreases parts.len(),
{
    if parts.len() == 0 {
        Seq::empty()
    } else if parts.len() == 1 {
        digits_of(parts[0] as nat)
    } else {
        dotted(parts.drop_last()) + seq!['.'] + digits_of(parts.last() as nat)
    }
}

/// The components that a version has, major first.
pub open spec fn components(v: VersionView) -> Seq<u8> {
    present(v.major) + present(v.minor) + present(v.patch)
}

/// The sign that a strategy puts in front of the numbers.
pub open spec fn sigil(strategy: PatchStrategy) -> Seq<char> {
    match strategy {
        PatchStrategy::Exact => Seq::empty(),
        PatchStrategy::Patch => seq!['~'],
        PatchStrategy::Minor => seq!['^'],
        PatchStrategy::Major => seq!['*'],
    }
}

/// The appendix of a version, or nothing.
pub open spec fn tail(v: VersionView) -> Seq<char> {
    match v.appendix {
        Some(a) => a,
        None => Seq::empty(),
    }
}

/// The canonical range string of a version: the sigil of its strategy, the
/// components that are present joined by dots, and the appendix. A wildcard
/// is `*` and its appendix, whatever its components hold.
pub open spec fn render(v: VersionView) -> Seq<char> {
    if v.is_wildcard() {
        sigil(v.patch_strategy) + tail(v)
    } else {
        sigil(v.patch_strategy) + dotted(components(v)) + tail(v)
    }
}

fn push_digit(out: &mut String, d: u8)
    requires
        d < 10,
    ensures
        final(out)@ == old(out)@.push(digit_char(d as nat)),
{
    proof {
        reveal_strlit("0");
        reveal_strlit("1");
        reveal_strlit("2");
        reveal_strlit("3");
        reveal_strlit("4");
        reveal_strlit("5");
        reveal_strlit("6");
        reveal_strlit("7");
        reveal_strlit("8");
        reveal_strlit("9");
    }
    let text = if d == 0 {
        "0"
    } else if d == 1 {
        "1"
    } else if d == 2 {
        "2"
    } else if d == 3 {
        "3"
    } else if d == 4 {
        "4"
    } else if d == 5 {
        "5"
    } else if d == 6 {
        "6"
    } else if d == 7 {
        "7"
    } else if d == 8 {
        "8"
    } else {
        "9"
    };
    assert(text@ =~= seq![digit_char(d as nat)]);
    out.append(text);
    assert(out@ =~= old(out)@.push(digit_char(d as nat)));
}

fn push_number(out: &mut String, n: u8)
    ensures
        final(out)@ == old(out)@ + digits_of(n as nat),
{
    proof {
        reveal_with_fuel(digits_of, 3);
    }
    if n >= 100 {
        push_digit(out, n / 100);
    }
    if n >= 10 {
        push_digit(out, (n / 10) % 10);
    }
    push_digit(out, n % 10);
    assert(out@ =~= old(out)@ + digits_of(n as nat));
}

/// Appends the numerals of `parts`, joined by dots.
fn push_dotted(out: &mut String, parts: &Vec<u8>)
    ensures
        final(out)@ == old(out)@ + dotted(parts@),
{
    let mut i: usize = 0;
    assert(out@ =~= old(out)@ + dotted(parts@.take(0)));
    while i < parts.len()
        invariant
            i <= parts.len(),
            out@ == old(out)@ + dotted(parts@.take(i as int)),
        decreases parts.len() - i,
    {
        let ghost before = parts@.take(i as int);
        let ghost after = parts@.take(i + 1);
        let ghost joined = out@;
        if i > 0 {
            out.append(".");
            proof {
                reveal_strlit(".");
            }
            assert(out@ =~= joined + seq!['.']);
        }
        let ghost mid = out@;
        push_number(out, parts[i]);
        proof {
            assert(after.drop_last() =~= before);
            assert(after.last() == parts@[i as int]);
            assert(out@ == mid + digits_of(parts@[i as int] as nat));
            if i > 0 {
                assert(before.len() > 0);
                assert(out@ =~= old(out)@ + (dotted(before) + seq!['.'] + digits_of(
                    parts@[i as int] as nat,
                )));
            } else {
                assert(dotted(before) =~= Seq::<char>::empty());
                assert(out@ =~= old(out)@ + digits_of(parts@[i as int] as nat));
            }
        }
        i += 1;
    }
    proof {
        assert(parts@.take(parts.len() as int) =~= parts@);
    }
}

impl Version {
    /// The components that are present, major first.
    fn shown(&self) -> (parts: Vec<u8>)
        ensures
            parts@ == components(self@),
    {
        let mut parts: Vec<u8> = Vec::new();
        if let Some(n) = self.major {
            parts.push(n);
        }
        if let Some(n) = self.minor {
            parts.push(n);
        }
        if let Some(n) = self.patch {
            parts.push(n);
        }
        assert(parts@ =~= components(self@));
        parts
    }

    /// The canonical range string of the version.
    pub fn to_string(&self) -> (s: String)
        ensures
            s@ == render(self@),
    {
        let mut out = String::new();
        proof {
            reveal_strlit("*");
            reveal_strlit("~");
            reveal_strlit("^");
        }
        match self.patch_strategy {
            PatchStrategy::Exact => {},
            PatchStrategy::Patch => {
                out.append("~");
            },
            PatchStrategy::Minor => {
                out.append("^");
            },
            PatchStrategy::Major => {
                out.append("*");
            },
        }
        assert(out@ =~= sigil(self.patch_strategy));
        if self.patch_strategy != PatchStrategy::Major {
            let parts = self.shown();
            push_dotted(&mut out, &parts);
        }
        match &self.appendix {
            Some(a) => {
                out.append(a.as_str());
            },
            None => {},
        }
        assert(out@ =~= render(self@));
        out
    }
}

impl From<Version> for String {
    /// The canonical range string of the version.
    fn from(value: Version) -> (s: String)
        ensures
            s@ == render(value@),
    {
        value.to_string()
    }
}

impl vstd::std_specs::convert::FromSpecImpl<Version> for String {
    open spec fn obeys_from_spec() -> bool {
        false
    }

    open spec fn from_spec(v: Version) -> String {
        arbitrary()
    }
}

} // verus!
