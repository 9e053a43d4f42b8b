//! Identifiers: ordinary, type-level, and generated.

use vstd::prelude::*;
use vstd::string::StringExecFns;

verus! {

/// An identifier of one of three flavors.
#[derive(Debug, Hash)]
pub enum Name {
    /// An ordinary (term-level) identifier.
    Ident(String),
    /// A type-level identifier.
    Type(String),
    /// A generated identifier: a base name and a serial number.
    Unique(Box<Name>, i32),
}

/// The mathematical value of a [`Name`].
pub ghost enum NameView {
    Ident(Seq<char>),
    Type(Seq<char>),
    Unique(Box<NameView>, int),
}

/// The value that `n` stands for.
pub open spec fn name_view(n: &Name) -> NameView
    decreases n,
{
    match n {
        Name::Ident(s) => NameView::Ident(s@),
        Name::Type(s) => NameView::Type(s@),
        Name::Unique(base, k) => NameView::Unique(Box::new(name_view(&**base)), *k as int),
    }
}

impl View for Name {
    type V = NameView;

    open spec fn view(&self) -> NameView {
        name_view(self)
    }
}

impl Clone for Name {
    fn clone(&self) -> (res: Name)
        ensures
            res@ == self@,
        decreases self,
    {
        match self {
            Name::Ident(s) => Name::Ident(s.clone()),
            Name::Type(s) => Name::Type(s.clone()),
            Name::Unique(base, n) => Name::Unique(Box::new((**base).clone()), *n),
        }
    }
}

impl Name {
    /// Structural comparison: same flavor and same payload.
    pub fn same(&self, other: &Name) -> (res: bool)
        ensures
            res == (self@ == other@),
        decreases self,
    {
        match self {
            Name::Ident(a) => match other {
                Name::Ident(b) => *a == *b,
                _ => false,
            },
            Name::Type(a) => match other {
                Name::Type(b) => *a == *b,
                _ => false,
            },
            Name::Unique(a, m) => match other {
                Name::Unique(b, n) => *m == *n && a.same(b),
                _ => false,
            },
        }
    }
}

impl PartialEq for Name {
    fn eq(&self, other: &Name) -> (res: bool) {
        self.same(other)
    }
}

impl vstd::std_specs::cmp::PartialEqSpecImpl for Name {
    open spec fn obeys_eq_spec() -> bool {
        true
    }

    open spec fn eq_spec(&self, other: &Name) -> bool {
        self@ == other@
    }
}

impl Eq for Name {}

/// An ordinary identifier named `s`.
pub fn ident(s: &str) -> (res: Name)
    ensures
        res@ == NameView::Ident(s@),
{
    Name::Ident(s.to_owned())
}

/// A type-level identifier named `s`.
pub fn typ(s: &str) -> (res: Name)
    ensures
        res@ == NameView::Type(s@),
{
    Name::Type(s.to_owned())
}

/// The character of the decimal digit `d`.
pub open spec fn digit_char(d: int) -> char {
    ((d + 48) as u8) as char
}

/// The decimal digits of `n`, without leading zeros.
pub open spec fn digits(n: nat) -> Seq<char>
    decreases n,
{
    if n < 10 {
        seq![digit_char(n as int)]
    } else {
        digits(n / 10).push(digit_char((n % 10) as int))
    }
}

/// The number `i` in decimal, with a minus sign where it is negative.
pub open spec fn decimal(i: int) -> Seq<char> {
    if i < 0 {
        seq!['-'] + digits((-i) as nat)
    } else {
        digits(i as nat)
    }
}

impl NameView {
    /// The name as it is shown: an identifier as it is, a generated name as
    /// its base, a dollar sign and its number.
    pub open spec fn text(self) -> Seq<char>
        decreases self,
    {
        match self {
            NameView::Ident(s) => s,
            NameView::Type(s) => s,
            NameView::Unique(base, n) => base.text() + seq!['$'] + decimal(n),
        }
    }
}

/// The one-character text of the decimal digit `d`.
fn digit_text(d: u64) -> (res: &'static str)
    requires
        d < 10,
    ensures
        res@ == seq![digit_char(d as int)],
{
    proof {
        reveal_strlit("0");
        reveal_strlit("1");
        reveal_strlit("2");
        reveal_strlit("3");
        reveal_strlit("4");
        reveal_strlit("5");
        reveal_strlit("6");
        reveal_strlit("7");
        reveal_strlit("8");
        reveal_strlit("9");
    }
    let res = if d == 0 {
        "0"
    } else if d == 1 {
        "1"
    } else if d == 2 {
        "2"
    } else if d == 3 {
        "3"
    } else if d == 4 {
        "4"
    } else if d == 5 {
        "5"
    } else if d == 6 {
        "6"
    } else if d == 7 {
        "7"
    } else if d == 8 {
        "8"
    } else {
        "9"
    };
    proof {
        assert(res@ =~= seq![digit_char(d as int)]);
    }
    res
}

/// Appends the decimal digits of `n` to `out`.
fn push_digits(out: &mut String, n: u64)
    ensures
        final(out)@ == old(out)@ + digits(n as nat),
    decreases n,
{
    if n >= 10 {
        push_digits(out, n / 10);
    }
    out.append(digit_text(n % 10));
    proof {
        if n >= 10 {
            assert(final(out)@ =~= old(out)@ + digits(n as nat));
        } else {
            assert(out@ =~= old(out)@ + digits(n as nat));
        }
    }
}

impl Name {
    /// Appends the name as it is shown to `out`.
    fn push_text(&self, out: &mut String)
        ensures
            final(out)@ == old(out)@ + self@.text(),
        decreases self,
    {
        match self {
            Name::Ident(s) => {
                out.append(s.as_str());
            },
            Name::Type(s) => {
                out.append(s.as_str());
            },
            Name::Unique(base, n) => {
                base.push_text(out);
                proof {
                    reveal_strlit("$");
                    reveal_strlit("-");
                }
                out.append("$");
                let wide: i64 = *n as i64;
                if wide < 0 {
                    out.append("-");
                    push_digits(out, (-wide) as u64);
                } else {
                    push_digits(out, wide as u64);
                }
                proof {
                    assert("$"@ =~= seq!['$']);
                    assert("-"@ =~= seq!['-']);
                    assert(out@ =~= old(out)@ + self@.text());
                }
            },
        }
    }

    /// The name as it is shown: an identifier as it is, a generated name as
    /// its base, a dollar sign and its number.
    pub fn to_text(&self) -> (res: String)
        ensures
            res@ == self@.text(),
    {
        let mut out = String::new();
        self.push_text(&mut out);
        proof {
            assert(out@ =~= self@.text());
        }
        out
    }
}

} // verus!
