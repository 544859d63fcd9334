//! Small text utilities the wire layer needs: character-exact string
//! comparison, decimal rendering and reading of unsigned numbers, and
//! literal matching inside a string.

use vstd::arithmetic::div_mod::lemma_fundamental_div_mod;
use vstd::arithmetic::div_mod::lemma_fundamental_div_mod_converse;
use vstd::prelude::*;

verus! {

/// The decimal digit character for `d` (`0 <= d < 10`).
pub open spec fn spec_digit(d: int) -> char {
    if d == 0 {
        '0'
    } else if d == 1 {
        '1'
    } else if d == 2 {
        '2'
    } else if d == 3 {
        '3'
    } else if d == 4 {
        '4'
    } else if d == 5 {
        '5'
    } else if d == 6 {
        '6'
    } else if d == 7 {
        '7'
    } else if d == 8 {
        '8'
    } else {
        '9'
    }
}

/// The usual decimal rendering of `n`: no sign, no leading zeroes
/// (a single `'0'` for zero).
pub open spec fn spec_dec(n: int) -> Seq<char>
    recommends
        n >= 0,
    decreases n,
{
    if n < 10 {
        seq![spec_digit(n)]
    } else {
        spec_dec(n / 10).push(spec_digit(n % 10))
    }
}

/// Character-by-character string equality, stated over the views.
pub fn str_eq(a: &str, b: &str) -> (r: bool)
    ensures
        r == (a@ == b@),
{
    let alen = a.unicode_len();
    let blen = b.unicode_len();
    if alen != blen {
        return false;
    }
    let mut i: usize = 0;
    while i < alen
        invariant
            i <= alen,
            alen == a@.len(),
            alen == b@.len(),
            forall|j: int| 0 <= j < i ==> a@[j] == b@[j],
        decreases alen - i,
    {
        if a.get_char(i) != b.get_char(i) {
            return false;
        }
        i = i + 1;
    }
    proof {
        assert(a@ =~= b@);
    }
    true
}

fn digit_str(d: usize) -> (r: &'static str)
    requires
        d < 10,
    ensures
        r@ =~= seq![spec_digit(d as int)],
{
    let r = match d {
        0 => "0",
        1 => "1",
        2 => "2",
        3 => "3",
        4 => "4",
        5 => "5",
        6 => "6",
        7 => "7",
        8 => "8",
        _ => "9",
    };
    proof {
        reveal_strlit("0");
        reveal_strlit("1");
        reveal_strlit("2");
        reveal_strlit("3");
        reveal_strlit("4");
        reveal_strlit("5");
        reveal_strlit("6");
        reveal_strlit("7");
        reveal_strlit("8");
        reveal_strlit("9");
    }
    r
}

/// Whether `c` is a decimal digit character.
pub open spec fn spec_is_digit(c: char) -> bool {
    c == '0' || c == '1' || c == '2' || c == '3' || c == '4' || c == '5' || c == '6' || c == '7'
        || c == '8' || c == '9'
}

/// The numeric value of a decimal digit character.
pub open spec fn spec_digit_val(c: char) -> int {
    if c == '0' {
        0
    } else if c == '1' {
        1
    } else if c == '2' {
        2
    } else if c == '3' {
        3
    } else if c == '4' {
        4
    } else if c == '5' {
        5
    } else if c == '6' {
        6
    } else if c == '7' {
        7
    } else if c == '8' {
        8
    } else {
        9
    }
}

/// The numeric value of a digit string, most significant digit first.
pub open spec fn spec_digits_val(ds: Seq<char>) -> int
    decreases ds.len(),
{
    if ds.len() == 0 {
        0
    } else {
        spec_digits_val(ds.drop_last()) * 10 + spec_digit_val(ds.last())
    }
}

/// The decimal digits of `n` stand at `i` in `s`, ended by the end of `s`
/// or by a non-digit character.
pub open spec fn spec_number_at(s: Seq<char>, i: int, n: int) -> bool {
    &&& 0 <= i
    &&& i + spec_dec(n).len() <= s.len()
    &&& s.subrange(i, i + spec_dec(n).len() as int) == spec_dec(n)
    &&& (i + spec_dec(n).len() == s.len() || !spec_is_digit(s[i + spec_dec(n).len() as int]))
}

/// `spec_dec(n)` is one or more digit characters, with a leading zero only
/// for zero itself.
pub proof fn lemma_dec_shape(n: int)
    requires
        n >= 0,
    ensures
        spec_dec(n).len() >= 1,
        forall|k: int| 0 <= k < spec_dec(n).len() ==> spec_is_digit(#[trigger] spec_dec(n)[k]),
        n >= 1 ==> spec_dec(n)[0] != '0',
        n == 0 ==> spec_dec(n) == seq!['0'],
    decreases n,
{
    if n < 10 {
    } else {
        lemma_dec_shape(n / 10);
        assert(spec_dec(n) == spec_dec(n / 10).push(spec_digit(n % 10)));
        assert forall|k: int| 0 <= k < spec_dec(n).len() implies spec_is_digit(
            #[trigger] spec_dec(n)[k],
        ) by {
            if k < spec_dec(n / 10).len() {
                assert(spec_dec(n)[k] == spec_dec(n / 10)[k]);
            } else {
                assert(spec_dec(n)[k] == spec_digit(n % 10));
            }
        }
        assert(spec_dec(n)[0] == spec_dec(n / 10)[0]);
    }
}

/// Reading the digit string of `n` back as a number yields `n`.
pub proof fn lemma_dec_val(n: int)
    requires
        n >= 0,
    ensures
        spec_digits_val(spec_dec(n)) == n,
    decreases n,
{
    if n < 10 {
        assert(spec_dec(n) == seq![spec_digit(n)]);
        assert(spec_dec(n).drop_last() =~= Seq::<char>::empty());
        assert(spec_dec(n).last() == spec_digit(n));
        assert(spec_digits_val(Seq::<char>::empty()) == 0);
        assert(spec_digits_val(spec_dec(n).drop_last()) == 0);
        assert(spec_digits_val(spec_dec(n)) == spec_digits_val(spec_dec(n).drop_last()) * 10
            + spec_digit_val(spec_dec(n).last()));
        assert(spec_digit_val(spec_digit(n)) == n);
    } else {
        lemma_dec_val(n / 10);
        assert(spec_dec(n) == spec_dec(n / 10).push(spec_digit(n % 10)));
        assert(spec_dec(n).drop_last() =~= spec_dec(n / 10));
        assert(spec_dec(n).last() == spec_digit(n % 10));
        assert(0 <= n % 10 < 10);
        assert(spec_digit_val(spec_digit(n % 10)) == n % 10);
        lemma_fundamental_div_mod(n, 10);
    }
}

/// A digit string's value is nonnegative, and positive when it does not
/// start with `'0'`.
pub proof fn lemma_digits_val_bounds(ds: Seq<char>)
    requires
        forall|k: int| 0 <= k < ds.len() ==> spec_is_digit(#[trigger] ds[k]),
    ensures
        spec_digits_val(ds) >= 0,
        ds.len() >= 1 && ds[0] != '0' ==> spec_digits_val(ds) >= 1,
    decreases ds.len(),
{
    if ds.len() > 0 {
        lemma_digits_val_bounds(ds.drop_last());
        if ds.len() > 1 {
            assert(ds.drop_last()[0] == ds[0]);
        }
    }
}

/// A prefix of a digit string is worth no more than the whole string.
pub proof fn lemma_digits_val_prefix_le(ds: Seq<char>, m: int)
    requires
        0 <= m <= ds.len(),
        forall|k: int| 0 <= k < ds.len() ==> spec_is_digit(#[trigger] ds[k]),
    ensures
        spec_digits_val(ds.take(m)) <= spec_digits_val(ds),
    decreases ds.len(),
{
    if m == ds.len() {
        assert(ds.take(m) =~= ds);
    } else {
        assert(ds.drop_last().take(m) =~= ds.take(m));
        lemma_digits_val_prefix_le(ds.drop_last(), m);
        lemma_digits_val_bounds(ds.drop_last());
    }
}

/// A nonempty digit string in canonical form (no leading zero unless it is
/// `"0"` itself) is the decimal rendering of its own value.
pub proof fn lemma_digits_canonical(ds: Seq<char>)
    requires
        ds.len() >= 1,
        forall|k: int| 0 <= k < ds.len() ==> spec_is_digit(#[trigger] ds[k]),
        ds.len() > 1 ==> ds[0] != '0',
    ensures
        ds == spec_dec(spec_digits_val(ds)),
    decreases ds.len(),
{
    if ds.len() == 1 {
        assert(ds.last() == ds[0]);
        assert(ds.drop_last() =~= Seq::<char>::empty());
        assert(spec_digits_val(Seq::<char>::empty()) == 0);
        assert(spec_digits_val(ds.drop_last()) == 0);
        assert(spec_digits_val(ds) == spec_digits_val(ds.drop_last()) * 10 + spec_digit_val(
            ds.last(),
        ));
        assert(spec_digits_val(ds) == spec_digit_val(ds[0]));
        assert(0 <= spec_digit_val(ds[0]) < 10);
        assert(spec_dec(spec_digits_val(ds)) == seq![spec_digit(spec_digit_val(ds[0]))]);
        assert(spec_digit(spec_digit_val(ds[0])) == ds[0]);
        assert(ds =~= spec_dec(spec_digits_val(ds)));
    } else {
        assert(ds.drop_last()[0] == ds[0]);
        lemma_digits_canonical(ds.drop_last());
        lemma_digits_val_bounds(ds.drop_last());
        let w = spec_digits_val(ds.drop_last());
        let d = spec_digit_val(ds.last());
        let v = spec_digits_val(ds);
        assert(w >= 1);
        assert(0 <= d < 10);
        assert(v == w * 10 + d);
        lemma_fundamental_div_mod_converse(v, 10, w, d);
        assert(v >= 10);
        assert(spec_dec(v) == spec_dec(v / 10).push(spec_digit(v % 10)));
        assert(spec_dec(v / 10) == ds.drop_last());
        assert(spec_digit(spec_digit_val(ds.last())) == ds.last());
        assert(ds =~= spec_dec(v));
    }
}

/// Two numbers whose digits stand at the same place, each ended there, are
/// the same number.
pub proof fn lemma_number_at_unique(s: Seq<char>, i: int, n: int, m: int)
    requires
        n >= 0,
        m >= 0,
        spec_number_at(s, i, n),
        spec_number_at(s, i, m),
    ensures
        n == m,
{
    lemma_dec_shape(n);
    lemma_dec_shape(m);
    let ln = spec_dec(n).len() as int;
    let lm = spec_dec(m).len() as int;
    if ln < lm {
        assert(s[i + ln] == spec_dec(m)[ln]);
        assert(false);
    } else if lm < ln {
        assert(s[i + lm] == spec_dec(n)[lm]);
        assert(false);
    } else {
        assert(spec_dec(n) =~= spec_dec(m));
        lemma_dec_val(n);
        lemma_dec_val(m);
    }
}

/// Where digits fill `[i, j)` of `s` and `j` ends the run, a number whose
/// digits stand at `i` fills exactly that range.
pub proof fn lemma_number_at_region(s: Seq<char>, i: int, j: int, n: int)
    requires
        0 <= i <= j <= s.len(),
        forall|k: int| i <= k < j ==> spec_is_digit(#[trigger] s[k]),
        j == s.len() || !spec_is_digit(s[j]),
        n >= 0,
        spec_number_at(s, i, n),
    ensures
        spec_dec(n) == s.subrange(i, j),
{
    lemma_dec_shape(n);
    let ln = spec_dec(n).len() as int;
    if i + ln > j {
        assert(j < s.len());
        assert(s[j] == spec_dec(n)[j - i]);
        assert(false);
    }
    if i + ln < j {
        assert(spec_is_digit(s[i + ln]));
        assert(false);
    }
    assert(spec_dec(n) =~= s.subrange(i, j));
}

fn is_digit_char(c: char) -> (r: bool)
    ensures
        r == spec_is_digit(c),
{
    c == '0' || c == '1' || c == '2' || c == '3' || c == '4' || c == '5' || c == '6' || c == '7'
        || c == '8' || c == '9'
}

fn digit_val(c: char) -> (d: usize)
    requires
        spec_is_digit(c),
    ensures
        d == spec_digit_val(c),
{
    match c {
        '0' => 0,
        '1' => 1,
        '2' => 2,
        '3' => 3,
        '4' => 4,
        '5' => 5,
        '6' => 6,
        '7' => 7,
        '8' => 8,
        _ => 9,
    }
}

/// The literal `lit` stands at `i` in `s`.
pub open spec fn spec_lit_at(s: Seq<char>, i: int, lit: Seq<char>) -> bool {
    &&& 0 <= i
    &&& i + lit.len() <= s.len()
    &&& s.subrange(i, i + lit.len() as int) == lit
}

/// Looks for the literal `lit` at position `i` of `s`; on a match returns
/// the position just past it.
pub fn expect_lit(s: &str, i: usize, lit: &str) -> (r: Option<usize>)
    requires
        i <= s@.len(),
    ensures
        match r {
            Some(j) => j == i + lit@.len() && spec_lit_at(s@, i as int, lit@),
            None => !spec_lit_at(s@, i as int, lit@),
        },
{
    let slen = s.unicode_len();
    let litlen = lit.unicode_len();
    if slen - i < litlen {
        return None;
    }
    let mut k: usize = 0;
    while k < litlen
        invariant
            k <= litlen,
            litlen == lit@.len(),
            slen == s@.len(),
            i + litlen <= slen,
            forall|t: int| 0 <= t < k ==> s@[i + t] == lit@[t],
        decreases litlen - k,
    {
        if s.get_char(i + k) != lit.get_char(k) {
            proof {
                if spec_lit_at(s@, i as int, lit@) {
                    assert(s@.subrange(i as int, i + lit@.len() as int)[k as int] == s@[i + k]);
                    assert(s@.subrange(i as int, i + lit@.len() as int)[k as int] == lit@[k as int]);
                    assert(false);
                }
            }
            return None;
        }
        k = k + 1;
    }
    proof {
        assert(s@.subrange(i as int, i + lit@.len() as int) =~= lit@);
    }
    Some(i + litlen)
}

/// Reads the decimal number standing at `i` in `s`: the longest run of
/// digits, accepted only in canonical form (nonempty, no leading zero) and
/// only when its value fits `usize`.  Returns the value and the position
/// just past the digits.
pub fn parse_number(s: &str, i: usize) -> (r: Option<(usize, usize)>)
    requires
        i <= s@.len(),
    ensures
        match r {
            Some((n, j)) => i < j <= s@.len() && s@.subrange(i as int, j as int) == spec_dec(
                n as int,
            ) && (j == s@.len() || !spec_is_digit(s@[j as int])),
            None => forall|n: usize| !spec_number_at(s@, i as int, n as int),
        },
{
    let slen = s.unicode_len();
    let mut j: usize = i;
    while j < slen
        invariant
            i <= j <= slen,
            slen == s@.len(),
            forall|k: int| i <= k < j ==> spec_is_digit(#[trigger] s@[k]),
        ensures
            i <= j <= slen,
            slen == s@.len(),
            forall|k: int| i <= k < j ==> spec_is_digit(#[trigger] s@[k]),
            j == slen || !spec_is_digit(s@[j as int]),
        decreases slen - j,
    {
        if !is_digit_char(s.get_char(j)) {
            break ;
        }
        j = j + 1;
    }
    if j == i {
        proof {
            assert forall|n: usize| !spec_number_at(s@, i as int, n as int) by {
                if spec_number_at(s@, i as int, n as int) {
                    lemma_dec_shape(n as int);
                    assert(s@[i as int] == spec_dec(n as int)[0]);
                    assert(spec_is_digit(s@[i as int]));
                }
            }
        }
        return None;
    }
    if j - i > 1 && s.get_char(i) == '0' {
        proof {
            assert forall|n: usize| !spec_number_at(s@, i as int, n as int) by {
                if spec_number_at(s@, i as int, n as int) {
                    lemma_dec_shape(n as int);
                    assert(s@[i as int] == spec_dec(n as int)[0]);
                    assert(n == 0);
                    assert(spec_dec(0).len() == 1);
                    assert(spec_is_digit(s@[i as int + 1]));
                }
            }
        }
        return None;
    }
    let ghost ds = s@.subrange(i as int, j as int);
    let mut acc: usize = 0;
    let mut k: usize = i;
    while k < j
        invariant
            i <= k <= j <= slen,
            slen == s@.len(),
            forall|kk: int| i <= kk < j ==> spec_is_digit(#[trigger] s@[kk]),
            j == slen || !spec_is_digit(s@[j as int]),
            ds == s@.subrange(i as int, j as int),
            acc == spec_digits_val(s@.subrange(i as int, k as int)),
        decreases j - k,
    {
        let d = digit_val(s.get_char(k));
        let overflowed: bool = match acc.checked_mul(10) {
            Some(x) => match x.checked_add(d) {
                Some(y) => {
                    proof {
                        assert(s@.subrange(i as int, k as int + 1).drop_last() =~= s@.subrange(
                            i as int,
                            k as int,
                        ));
                        assert(s@.subrange(i as int, k as int + 1).last() == s@[k as int]);
                    }
                    acc = y;
                    false
                },
                None => true,
            },
            None => true,
        };
        if overflowed {
            proof {
                assert(s@.subrange(i as int, k as int + 1).drop_last() =~= s@.subrange(
                    i as int,
                    k as int,
                ));
                assert(s@.subrange(i as int, k as int + 1).last() == s@[k as int]);
                assert(spec_digits_val(s@.subrange(i as int, k as int + 1)) > usize::MAX);
                assert(ds.take(k as int + 1 - i) =~= s@.subrange(i as int, k as int + 1));
                assert forall|kk: int| 0 <= kk < ds.len() implies spec_is_digit(
                    #[trigger] ds[kk],
                ) by {
                    assert(ds[kk] == s@[i + kk]);
                }
                lemma_digits_val_prefix_le(ds, k as int + 1 - i);
                assert(spec_digits_val(ds) > usize::MAX);
                assert forall|n: usize| !spec_number_at(s@, i as int, n as int) by {
                    if spec_number_at(s@, i as int, n as int) {
                        lemma_number_at_region(s@, i as int, j as int, n as int);
                        lemma_dec_val(n as int);
                    }
                }
            }
            return None;
        }
        k = k + 1;
    }
    proof {
        assert(ds.len() >= 1);
        assert forall|kk: int| 0 <= kk < ds.len() implies spec_is_digit(#[trigger] ds[kk]) by {
            assert(ds[kk] == s@[i + kk]);
        }
        assert(ds[0] == s@[i as int]);
        if ds.len() > 1 {
            assert(ds[0] != '0');
        }
        lemma_digits_canonical(ds);
    }
    Some((acc, j))
}
pub fn dec_of_usize(n: usize) -> (r: String)
    ensures
        r@ == spec_dec(n as int),
    decreases n,
{
    if n < 10 {
        digit_str(n).to_owned()
    } else {
        let mut r = dec_of_usize(n / 10);
        r.append(digit_str(n % 10));
        proof {
            assert(r@ =~= spec_dec(n as int));
        }
        r
    }
}

} // verus!
