use vstd::prelude::*;
use vstd::string::*;

verus! {

/// A monotonic counter that hands out the fresh numbers used for renamed
/// identifiers, temporaries and loop ids across the whole pipeline.
#[derive(Debug)]
pub struct UniqueIdGenerator {
    counter: usize,
}

impl UniqueIdGenerator {
    /// The number that the next call to `next` returns.
    pub closed spec fn peek(&self) -> nat {
        self.counter as nat
    }

    pub fn new() -> (r: Self)
        ensures
            r.peek() == 0,
    {
        UniqueIdGenerator { counter: 0 }
    }

    /// Returns the current number and advances the counter by one.
    pub fn next(&mut self) -> (id: usize)
        requires
            old(self).peek() < usize::MAX,
        ensures
            id as nat == old(self).peek(),
            final(self).peek() == old(self).peek() + 1,
    {
        let id = self.counter;
        self.counter = self.counter + 1;
        id
    }
}

/// The character of a decimal digit.
pub open spec fn digit_char(d: nat) -> char {
    if d == 0 {
        '0'
    } else if d == 1 {
        '1'
    } else if d == 2 {
        '2'
    } else if d == 3 {
        '3'
    } else if d == 4 {
        '4'
    } else if d == 5 {
        '5'
    } else if d == 6 {
        '6'
    } else if d == 7 {
        '7'
    } else if d == 8 {
        '8'
    } else {
        '9'
    }
}

/// The decimal notation of `n`, without leading zeros.
pub open spec fn decimal(n: nat) -> Seq<char>
    decreases n,
{
    if n < 10 {
        seq![digit_char(n)]
    } else {
        decimal(n / 10).push(digit_char(n % 10))
    }
}

/// `base` followed by a dot and the decimal notation of `id` (`x.3`).
pub open spec fn numbered(base: Seq<char>, id: nat) -> Seq<char> {
    base + seq!['.'] + decimal(id)
}

/// `base` followed by an underscore and the decimal notation of `id` (`_break_2`).
pub open spec fn underscored(base: Seq<char>, id: nat) -> Seq<char> {
    base + seq!['_'] + decimal(id)
}

pub open spec fn is_digit(c: char) -> bool {
    '0' <= c && c <= '9'
}

proof fn lemma_digit_char(d: nat)
    requires
        d < 10,
    ensures
        is_digit(digit_char(d)),
        forall|e: nat| e < 10 && digit_char(e) == digit_char(d) ==> e == d,
{
}

/// Decimal notation is non-empty and made of digits.
pub proof fn lemma_decimal_digits(n: nat)
    ensures
        decimal(n).len() >= 1,
        forall|i: int| 0 <= i < decimal(n).len() ==> is_digit(#[trigger] decimal(n)[i]),
    decreases n,
{
    lemma_digit_char(n % 10);
    if n >= 10 {
        lemma_decimal_digits(n / 10);
        assert forall|i: int| 0 <= i < decimal(n).len() implies is_digit(#[trigger] decimal(n)[i]) by {
            if i < decimal(n / 10).len() {
                assert(decimal(n)[i] == decimal(n / 10)[i]);
            }
        }
    }
}

/// Different numbers have different decimal notations.
pub proof fn lemma_decimal_injective(n: nat, m: nat)
    requires
        decimal(n) == decimal(m),
    ensures
        n == m,
    decreases n,
{
    lemma_decimal_digits(n / 10);
    lemma_decimal_digits(m / 10);
    lemma_digit_char(n % 10);
    lemma_digit_char(m % 10);
    if n >= 10 && m >= 10 {
        assert(decimal(n).drop_last() =~= decimal(n / 10));
        assert(decimal(m).drop_last() =~= decimal(m / 10));
        lemma_decimal_injective(n / 10, m / 10);
        assert(decimal(n).last() == digit_char(n % 10));
        assert(decimal(m).last() == digit_char(m % 10));
    } else if n < 10 && m < 10 {
        assert(decimal(n)[0] == digit_char(n));
        assert(decimal(m)[0] == digit_char(m));
    } else {
        assert(decimal(n).len() != decimal(m).len());
    }
}

/// `base_N` determines `N`, whatever the base: the digits of `N` are exactly
/// what follows the last `_`.
pub proof fn lemma_underscored_number(p: Seq<char>, q: Seq<char>, n: nat, m: nat)
    requires
        underscored(p, n) == underscored(q, m),
    ensures
        n == m,
{
    let s = underscored(p, n);
    lemma_decimal_digits(n);
    lemma_decimal_digits(m);
    let a = decimal(n).len() as int;
    let b = decimal(m).len() as int;
    if a < b {
        // the character before n's digits is '_' but lies among m's digits
        assert(s[s.len() - 1 - a] == '_');
        assert(underscored(q, m)[s.len() - 1 - a] == decimal(m)[b - 1 - a]);
        assert(false);
    } else if b < a {
        assert(underscored(q, m)[s.len() - 1 - b] == '_');
        assert(s[s.len() - 1 - b] == decimal(n)[a - 1 - b]);
        assert(false);
    }
    assert(s.subrange(s.len() - a, s.len() as int) =~= decimal(n));
    assert(underscored(q, m).subrange(s.len() - b, s.len() as int) =~= decimal(m));
    lemma_decimal_injective(n, m);
}

fn digit_str(d: usize) -> (r: &'static str)
    requires
        d < 10,
    ensures
        r@ == seq![digit_char(d as nat)],
{
    proof {
        reveal_strlit("0");
        reveal_strlit("1");
        reveal_strlit("2");
        reveal_strlit("3");
        reveal_strlit("4");
        reveal_strlit("5");
        reveal_strlit("6");
        reveal_strlit("7");
        reveal_strlit("8");
        reveal_strlit("9");
    }
    if d == 0 {
        "0"
    } else if d == 1 {
        "1"
    } else if d == 2 {
        "2"
    } else if d == 3 {
        "3"
    } else if d == 4 {
        "4"
    } else if d == 5 {
        "5"
    } else if d == 6 {
        "6"
    } else if d == 7 {
        "7"
    } else if d == 8 {
        "8"
    } else {
        "9"
    }
}

/// The decimal notation of `n`.
pub fn decimal_string(n: usize) -> (r: String)
    ensures
        r@ == decimal(n as nat),
    decreases n,
{
    if n < 10 {
        String::from_str(digit_str(n))
    } else {
        let mut s = decimal_string(n / 10);
        s.append(digit_str(n % 10));
        s
    }
}

/// `base.id`: the name given to a local identifier or a temporary.
pub fn numbered_name(base: &str, id: usize) -> (r: String)
    ensures
        r@ == numbered(base@, id as nat),
{
    let mut s = String::from_str(base);
    proof {
        reveal_strlit(".");
    }
    s.append(".");
    let d = decimal_string(id);
    s.append(d.as_str());
    s
}

/// `base_id`: the name of a label.
pub fn underscored_name(base: &str, id: usize) -> (r: String)
    ensures
        r@ == underscored(base@, id as nat),
{
    let mut s = String::from_str(base);
    proof {
        reveal_strlit("_");
    }
    s.append("_");
    let d = decimal_string(id);
    s.append(d.as_str());
    s
}

} // verus!
