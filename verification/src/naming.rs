//! Decimal spellings of machine integers, and the canonical names built
//! from them.
//!
//! A synthesized constant cell is named `"_<value>_<width>"`.  The proofs
//! here show that this naming is injective: distinct value/width pairs can
//! never collide, so constant cells may be deduplicated by name equality
//! alone.

use vstd::prelude::*;
use vstd::string::StringExecFns;

verus! {

/// The decimal digit character for a value below ten.
pub open spec fn digit_char(d: nat) -> char
    recommends
        d < 10,
{
    if d == 0 {
        '0'
    } else if d == 1 {
        '1'
    } else if d == 2 {
        '2'
    } else if d == 3 {
        '3'
    } else if d == 4 {
        '4'
    } else if d == 5 {
        '5'
    } else if d == 6 {
        '6'
    } else if d == 7 {
        '7'
    } else if d == 8 {
        '8'
    } else {
        '9'
    }
}

/// The value of a decimal digit character.
pub open spec fn digit_val(ch: char) -> nat {
    if ch == '0' {
        0
    } else if ch == '1' {
        1
    } else if ch == '2' {
        2
    } else if ch == '3' {
        3
    } else if ch == '4' {
        4
    } else if ch == '5' {
        5
    } else if ch == '6' {
        6
    } else if ch == '7' {
        7
    } else if ch == '8' {
        8
    } else {
        9
    }
}

/// Whether the character is a decimal digit.
pub open spec fn is_digit(ch: char) -> bool {
    ch == '0' || ch == '1' || ch == '2' || ch == '3' || ch == '4' || ch == '5' || ch == '6' || ch
        == '7' || ch == '8' || ch == '9'
}

/// The decimal spelling of a natural number, most significant digit
/// first, without leading zeros (zero itself is spelled `"0"`).
pub open spec fn dec_rep(n: nat) -> Seq<char>
    decreases n,
{
    if n < 10 {
        seq![digit_char(n)]
    } else {
        dec_rep(n / 10) + seq![digit_char(n % 10)]
    }
}

/// The number a digit string spells.
pub open spec fn dec_val(s: Seq<char>) -> nat
    decreases s.len(),
{
    if s.len() == 0 {
        0
    } else {
        dec_val(s.drop_last()) * 10 + digit_val(s.last())
    }
}

/// A decimal spelling is never empty and holds digits only.
pub proof fn lemma_dec_rep_digits(n: nat)
    ensures
        dec_rep(n).len() >= 1,
        forall|i: int| 0 <= i < dec_rep(n).len() ==> is_digit(#[trigger] dec_rep(n)[i]),
    decreases n,
{
    if n >= 10 {
        lemma_dec_rep_digits(n / 10);
    }
}

/// Reading a spelling back yields the number spelled: decimal spelling is
/// inverted by decimal evaluation.
pub proof fn lemma_dec_val_rep(n: nat)
    ensures
        dec_val(dec_rep(n)) == n,
    decreases n,
{
    if n < 10 {
        assert(dec_rep(n).drop_last() =~= Seq::<char>::empty());
        assert(dec_val(Seq::<char>::empty()) == 0);
        assert(dec_rep(n).last() == digit_char(n));
        assert(digit_val(digit_char(n)) == n);
    } else {
        lemma_dec_val_rep(n / 10);
        assert(dec_rep(n).len() > 0) by {
            lemma_dec_rep_digits(n);
        }
        assert(dec_rep(n).drop_last() =~= dec_rep(n / 10));
        assert(dec_rep(n).last() == digit_char(n % 10));
        assert(digit_val(digit_char(n % 10)) == n % 10);
        assert(dec_val(dec_rep(n)) == dec_val(dec_rep(n / 10)) * 10 + digit_val(
            dec_rep(n).last(),
        ));
        assert((n / 10) * 10 + n % 10 == n);
    }
}

/// Distinct numbers have distinct decimal spellings.
pub proof fn lemma_dec_rep_injective(m: nat, n: nat)
    ensures
        (dec_rep(m) == dec_rep(n)) <==> (m == n),
{
    lemma_dec_val_rep(m);
    lemma_dec_val_rep(n);
}

/// A separator that occurs in neither half locates the split uniquely:
/// two equal separator-joined strings have equal halves.
pub proof fn lemma_separator_split(a: Seq<char>, b: Seq<char>, c: Seq<char>, d: Seq<char>)
    requires
        forall|i: int| 0 <= i < a.len() ==> a[i] != '_',
        forall|i: int| 0 <= i < b.len() ==> b[i] != '_',
        forall|i: int| 0 <= i < c.len() ==> c[i] != '_',
        forall|i: int| 0 <= i < d.len() ==> d[i] != '_',
        a + seq!['_'] + b == c + seq!['_'] + d,
    ensures
        a == c,
        b == d,
{
    let s = a + seq!['_'] + b;
    let t = c + seq!['_'] + d;
    assert(s[a.len() as int] == '_');
    assert forall|i: int| 0 <= i < s.len() && i != a.len() implies s[i] != '_' by {
        if i < a.len() {
            assert(s[i] == a[i]);
        } else {
            assert(s[i] == b[i - a.len() - 1]);
        }
    }
    assert(t[c.len() as int] == '_');
    assert forall|i: int| 0 <= i < t.len() && i != c.len() implies t[i] != '_' by {
        if i < c.len() {
            assert(t[i] == c[i]);
        } else {
            assert(t[i] == d[i - c.len() - 1]);
        }
    }
    assert(a.len() == c.len());
    assert(a =~= c) by {
        assert forall|i: int| 0 <= i < a.len() implies a[i] == c[i] by {
            assert(s[i] == a[i]);
            assert(t[i] == c[i]);
        }
    }
    assert(b =~= d) by {
        assert forall|i: int| 0 <= i < b.len() implies b[i] == d[i] by {
            assert(s[a.len() + 1 + i] == b[i]);
            assert(t[c.len() + 1 + i] == d[i]);
        }
    }
}

/// The canonical name of a synthesized constant cell for a value and a
/// bit width: an underscore, the value, an underscore, the width.
pub open spec fn constant_name_spec(val: u64, width: u64) -> Seq<char> {
    seq!['_'] + dec_rep(val as nat) + seq!['_'] + dec_rep(width as nat)
}

/// Constant-cell naming is injective: two value/width pairs share a name
/// exactly when they are the same pair.  With spelling a pure function of
/// its arguments, repeated requests for the same constant may be
/// deduplicated by name equality alone.
pub proof fn lemma_constant_name_injective(v1: u64, w1: u64, v2: u64, w2: u64)
    ensures
        (constant_name_spec(v1, w1) == constant_name_spec(v2, w2)) <==> (v1 == v2 && w1 == w2),
{
    if constant_name_spec(v1, w1) == constant_name_spec(v2, w2) {
        lemma_dec_rep_digits(v1 as nat);
        lemma_dec_rep_digits(w1 as nat);
        lemma_dec_rep_digits(v2 as nat);
        lemma_dec_rep_digits(w2 as nat);
        let s1 = dec_rep(v1 as nat) + seq!['_'] + dec_rep(w1 as nat);
        let s2 = dec_rep(v2 as nat) + seq!['_'] + dec_rep(w2 as nat);
        assert(constant_name_spec(v1, w1) =~= seq!['_'] + s1);
        assert(constant_name_spec(v2, w2) =~= seq!['_'] + s2);
        assert(s1 =~= (seq!['_'] + s1).subrange(1, (seq!['_'] + s1).len() as int));
        assert(s2 =~= (seq!['_'] + s2).subrange(1, (seq!['_'] + s2).len() as int));
        assert(s1 == s2);
        assert forall|i: int| 0 <= i < dec_rep(v1 as nat).len() implies dec_rep(v1 as nat)[i]
            != '_' by {
            assert(is_digit(dec_rep(v1 as nat)[i]));
        }
        assert forall|i: int| 0 <= i < dec_rep(w1 as nat).len() implies dec_rep(w1 as nat)[i]
            != '_' by {
            assert(is_digit(dec_rep(w1 as nat)[i]));
        }
        assert forall|i: int| 0 <= i < dec_rep(v2 as nat).len() implies dec_rep(v2 as nat)[i]
            != '_' by {
            assert(is_digit(dec_rep(v2 as nat)[i]));
        }
        assert forall|i: int| 0 <= i < dec_rep(w2 as nat).len() implies dec_rep(w2 as nat)[i]
            != '_' by {
            assert(is_digit(dec_rep(w2 as nat)[i]));
        }
        lemma_separator_split(
            dec_rep(v1 as nat),
            dec_rep(w1 as nat),
            dec_rep(v2 as nat),
            dec_rep(w2 as nat),
        );
        lemma_dec_rep_injective(v1 as nat, v2 as nat);
        lemma_dec_rep_injective(w1 as nat, w2 as nat);
    }
}


/// Append one decimal digit character to the string.
fn push_digit(s: &mut String, d: u64)
    requires
        d < 10,
    ensures
        final(s)@ == old(s)@ + seq![digit_char(d as nat)],
{
    proof {
        reveal_strlit("0");
        reveal_strlit("1");
        reveal_strlit("2");
        reveal_strlit("3");
        reveal_strlit("4");
        reveal_strlit("5");
        reveal_strlit("6");
        reveal_strlit("7");
        reveal_strlit("8");
        reveal_strlit("9");
    }
    let ds: &str = if d == 0 {
        "0"
    } else if d == 1 {
        "1"
    } else if d == 2 {
        "2"
    } else if d == 3 {
        "3"
    } else if d == 4 {
        "4"
    } else if d == 5 {
        "5"
    } else if d == 6 {
        "6"
    } else if d == 7 {
        "7"
    } else if d == 8 {
        "8"
    } else {
        "9"
    };
    s.append(ds);
}

/// Append the decimal spelling of the number to the string.
pub fn push_decimal(s: &mut String, n: u64)
    ensures
        final(s)@ == old(s)@ + dec_rep(n as nat),
    decreases n,
{
    if n < 10 {
        push_digit(s, n);
    } else {
        push_decimal(s, n / 10);
        push_digit(s, n % 10);
        proof {
            assert((n / 10) as nat == (n as nat) / 10);
            assert((n % 10) as nat == (n as nat) % 10);
            assert(old(s)@ + dec_rep((n as nat) / 10) + seq![digit_char((n as nat) % 10)] =~= old(
                s,
            )@ + dec_rep(n as nat));
        }
    }
}

/// Append one underscore separator to the string.
pub fn push_separator(s: &mut String)
    ensures
        final(s)@ == old(s)@ + seq!['_'],
{
    proof {
        reveal_strlit("_");
    }
    s.append("_");
}

} // verus!
