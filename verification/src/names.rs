//! Fresh names: a prefix, a user-chosen part, a dot and a decimal number.
use vstd::prelude::*;

verus! {

pub open spec fn digit_char(d: nat) -> char {
    if d == 0 {
        '0'
    } else if d == 1 {
        '1'
    } else if d == 2 {
        '2'
    } else if d == 3 {
        '3'
    } else if d == 4 {
        '4'
    } else if d == 5 {
        '5'
    } else if d == 6 {
        '6'
    } else if d == 7 {
        '7'
    } else if d == 8 {
        '8'
    } else {
        '9'
    }
}

/// The decimal digits of `n`, as `format!("{}", n)` writes them.
pub open spec fn decimal(n: nat) -> Seq<char>
    decreases n,
{
    if n < 10 {
        seq![digit_char(n)]
    } else {
        decimal(n / 10).push(digit_char(n % 10))
    }
}

/// `prefix`, `name`, a dot, and the decimal digits of `id`.
pub open spec fn numbered(prefix: Seq<char>, name: Seq<char>, id: nat) -> Seq<char> {
    prefix + name + seq!['.'] + decimal(id)
}

fn digit_str(d: usize) -> (s: &'static str)
    requires
        d < 10,
    ensures
        s@ == seq![digit_char(d as nat)],
{
    proof {
        reveal_strlit("0");
        reveal_strlit("1");
        reveal_strlit("2");
        reveal_strlit("3");
        reveal_strlit("4");
        reveal_strlit("5");
        reveal_strlit("6");
        reveal_strlit("7");
        reveal_strlit("8");
        reveal_strlit("9");
    }
    if d == 0 {
        "0"
    } else if d == 1 {
        "1"
    } else if d == 2 {
        "2"
    } else if d == 3 {
        "3"
    } else if d == 4 {
        "4"
    } else if d == 5 {
        "5"
    } else if d == 6 {
        "6"
    } else if d == 7 {
        "7"
    } else if d == 8 {
        "8"
    } else {
        "9"
    }
}

/// Appends the decimal digits of `n`.
pub fn push_decimal(s: &mut String, n: usize)
    ensures
        final(s)@ == old(s)@ + decimal(n as nat),
    decreases n,
{
    if n < 10 {
        s.append(digit_str(n));
    } else {
        push_decimal(s, n / 10);
        s.append(digit_str(n % 10));
        assert(final(s)@ =~= old(s)@ + decimal(n as nat));
    }
}

/// The name `prefix`, `name`, `.`, `id`.
pub fn numbered_name(prefix: &str, name: &str, id: usize) -> (r: String)
    ensures
        r@ == numbered(prefix@, name@, id as nat),
{
    proof {
        reveal_strlit(".");
    }
    let mut s = String::from_str(prefix);
    s.append(name);
    s.append(".");
    assert(s@ =~= prefix@ + name@ + seq!['.']);
    push_decimal(&mut s, id);
    s
}

/// The counter after `c`: one more, wrapping round to zero past the largest
/// value.
pub open spec fn bump(c: usize) -> usize {
    if c == usize::MAX {
        0
    } else {
        (c + 1) as usize
    }
}

pub fn bump_count(c: usize) -> (r: usize)
    ensures
        r == bump(c),
{
    if c == usize::MAX {
        0
    } else {
        c + 1
    }
}

/// A copy of an optional name.
pub fn clone_name(s: &Option<String>) -> (r: Option<String>)
    ensures
        r == *s,
{
    match s {
        Some(x) => Some(x.clone()),
        None => None,
    }
}


proof fn lemma_decimal_nonempty(n: nat)
    ensures
        decimal(n).len() >= 1,
        n >= 10 ==> decimal(n).len() >= 2,
    decreases n,
{
    if n >= 10 {
        lemma_decimal_nonempty(n / 10);
    }
}

proof fn lemma_digit_char_injective(a: nat, b: nat)
    requires
        a < 10,
        b < 10,
        digit_char(a) == digit_char(b),
    ensures
        a == b,
{
}

/// Different numbers are written with different digits.
pub proof fn lemma_decimal_injective(n: nat, m: nat)
    requires
        decimal(n) == decimal(m),
    ensures
        n == m,
    decreases n,
{
    lemma_decimal_nonempty(n);
    lemma_decimal_nonempty(m);
    if n < 10 && m < 10 {
        let x = digit_char(n);
        let y = digit_char(m);
        assert(decimal(n) == seq![x]);
        assert(decimal(m) == seq![y]);
        assert(seq![x][0] == x);
        assert(seq![y][0] == y);
        assert(x == y);
        lemma_digit_char_injective(n, m);
    } else if n >= 10 && m >= 10 {
        let dn = decimal(n);
        let dm = decimal(m);
        assert(dn.last() == dm.last());
        lemma_digit_char_injective(n % 10, m % 10);
        assert(dn.drop_last() =~= decimal(n / 10));
        assert(dm.drop_last() =~= decimal(m / 10));
        lemma_decimal_injective(n / 10, m / 10);
    } else {
        assert(decimal(n).len() != decimal(m).len());
    }
}

proof fn lemma_decimal_has_no_dot(n: nat)
    ensures
        forall|k: int| 0 <= k < decimal(n).len() ==> #[trigger] decimal(n)[k] != '.',
    decreases n,
{
    if n >= 10 {
        lemma_decimal_has_no_dot(n / 10);
        let d = decimal(n / 10);
        assert forall|k: int| 0 <= k < decimal(n).len() implies #[trigger] decimal(n)[k] != '.' by {
            if k < d.len() {
                assert(decimal(n)[k] == d[k]);
            }
        }
    }
}

/// A fresh name determines the user-chosen part and the number it was made
/// from: names made with the same prefix from different parts or different
/// numbers are different.
pub proof fn law_numbered_names_are_distinct(
    prefix: Seq<char>,
    name1: Seq<char>,
    a: nat,
    name2: Seq<char>,
    b: nat,
)
    requires
        numbered(prefix, name1, a) == numbered(prefix, name2, b),
    ensures
        name1 == name2,
        a == b,
{
    let x = numbered(prefix, name1, a);
    let y = numbered(prefix, name2, b);
    let da = decimal(a);
    let db = decimal(b);
    lemma_decimal_has_no_dot(a);
    lemma_decimal_has_no_dot(b);
    assert(x == prefix + name1 + seq!['.'] + da);
    assert(y == prefix + name2 + seq!['.'] + db);
    if da.len() < db.len() {
        let k = x.len() - da.len() - 1;
        assert(x[k] == '.');
        assert(y[k] == db[db.len() - da.len() - 1]);
    } else if db.len() < da.len() {
        let k = y.len() - db.len() - 1;
        assert(y[k] == '.');
        assert(x[k] == da[da.len() - db.len() - 1]);
    }
    assert(da.len() == db.len());
    assert(x.subrange(x.len() - da.len(), x.len() as int) =~= da);
    assert(y.subrange(y.len() - db.len(), y.len() as int) =~= db);
    lemma_decimal_injective(a, b);
    assert(x.subrange(prefix.len() as int, x.len() - da.len() - 1) =~= name1);
    assert(y.subrange(prefix.len() as int, y.len() - db.len() - 1) =~= name2);
}

} // verus!
