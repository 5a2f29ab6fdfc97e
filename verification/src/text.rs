//! Small verified text utilities shared by the policy filter and the
//! credential codec: decimal rendering of counters and prefix tests.

use vstd::prelude::*;

verus! {

/// The character sequence behind an optional string slice.
pub open spec fn opt_str_view(o: Option<&str>) -> Option<Seq<char>> {
    match o {
        Some(s) => Some(s@),
        None => None,
    }
}

/// The character sequence behind an optional owned string.
pub open spec fn opt_string_view(o: Option<String>) -> Option<Seq<char>> {
    match o {
        Some(s) => Some(s@),
        None => None,
    }
}

/// The decimal digit character for a value below ten.
pub open spec fn digit_char(d: nat) -> char
    recommends
        d < 10,
{
    if d == 0 {
        '0'
    } else if d == 1 {
        '1'
    } else if d == 2 {
        '2'
    } else if d == 3 {
        '3'
    } else if d == 4 {
        '4'
    } else if d == 5 {
        '5'
    } else if d == 6 {
        '6'
    } else if d == 7 {
        '7'
    } else if d == 8 {
        '8'
    } else {
        '9'
    }
}

/// The decimal rendering of a natural number, most significant digit first,
/// with no leading zeros (zero itself renders as a single digit).
pub open spec fn dec_str_of(n: nat) -> Seq<char>
    decreases n,
{
    if n < 10 {
        seq![digit_char(n)]
    } else {
        dec_str_of(n / 10).push(digit_char(n % 10))
    }
}

/// `prefix` is an initial segment of `s`.
pub open spec fn seq_starts_with(s: Seq<char>, prefix: Seq<char>) -> bool {
    prefix.len() <= s.len() && s.subrange(0, prefix.len() as int) == prefix
}

/// Character-level prefix test on string slices.
pub fn str_starts_with(s: &str, prefix: &str) -> (r: bool)
    ensures
        r == seq_starts_with(s@, prefix@),
{
    let n = s.unicode_len();
    let p = prefix.unicode_len();
    if p > n {
        return false;
    }
    let mut i: usize = 0;
    while i < p
        invariant
            i <= p,
            p <= n,
            p == prefix@.len(),
            n == s@.len(),
            forall|j: int| 0 <= j < i ==> s@[j] == prefix@[j],
        decreases p - i,
    {
        if s.get_char(i) != prefix.get_char(i) {
            proof {
                if seq_starts_with(s@, prefix@) {
                    assert(s@.subrange(0, p as int)[i as int] == s@[i as int]);
                }
            }
            return false;
        }
        i += 1;
    }
    proof {
        assert(s@.subrange(0, p as int) =~= prefix@);
    }
    true
}

/// The digit characters of `ds`, read back to front.
pub open spec fn rev_digit_chars(ds: Seq<u64>) -> Seq<char> {
    Seq::new(ds.len(), |i: int| digit_char(ds[ds.len() - 1 - i] as nat))
}

proof fn lemma_rev_digit_chars_push(ds: Seq<u64>, d: u64)
    ensures
        rev_digit_chars(ds.push(d)) =~= seq![digit_char(d as nat)] + rev_digit_chars(ds),
{
}

/// The one-character string for a decimal digit.
fn digit_str(d: u64) -> (r: &'static str)
    requires
        d < 10,
    ensures
        r@ == seq![digit_char(d as nat)],
{
    if d == 0 {
        proof {
            reveal_strlit("0");
            assert("0"@ =~= seq![digit_char(0nat)]);
        }
        "0"
    } else if d == 1 {
        proof {
            reveal_strlit("1");
            assert("1"@ =~= seq![digit_char(1nat)]);
        }
        "1"
    } else if d == 2 {
        proof {
            reveal_strlit("2");
            assert("2"@ =~= seq![digit_char(2nat)]);
        }
        "2"
    } else if d == 3 {
        proof {
            reveal_strlit("3");
            assert("3"@ =~= seq![digit_char(3nat)]);
        }
        "3"
    } else if d == 4 {
        proof {
            reveal_strlit("4");
            assert("4"@ =~= seq![digit_char(4nat)]);
        }
        "4"
    } else if d == 5 {
        proof {
            reveal_strlit("5");
            assert("5"@ =~= seq![digit_char(5nat)]);
        }
        "5"
    } else if d == 6 {
        proof {
            reveal_strlit("6");
            assert("6"@ =~= seq![digit_char(6nat)]);
        }
        "6"
    } else if d == 7 {
        proof {
            reveal_strlit("7");
            assert("7"@ =~= seq![digit_char(7nat)]);
        }
        "7"
    } else if d == 8 {
        proof {
            reveal_strlit("8");
            assert("8"@ =~= seq![digit_char(8nat)]);
        }
        "8"
    } else {
        proof {
            reveal_strlit("9");
            assert("9"@ =~= seq![digit_char(9nat)]);
        }
        "9"
    }
}

/// Renders `n` in decimal, agreeing with `dec_str_of`.
pub fn u64_to_string(n: u64) -> (r: String)
    ensures
        r@ == dec_str_of(n as nat),
{
    if n == 0 {
        return String::from_str(digit_str(0));
    }
    let mut m: u64 = n;
    let mut digs: Vec<u64> = Vec::new();
    while m > 0
        invariant
            forall|j: int| 0 <= j < digs@.len() ==> digs@[j] < 10,
            if m > 0 {
                dec_str_of(n as nat) == dec_str_of(m as nat) + rev_digit_chars(digs@)
            } else {
                dec_str_of(n as nat) == rev_digit_chars(digs@)
            },
        decreases m,
    {
        let ghost old_m = m as nat;
        let ghost old_digs = digs@;
        let d = m % 10;
        digs.push(d);
        m = m / 10;
        proof {
            lemma_rev_digit_chars_push(old_digs, d);
            if old_m >= 10 {
                assert(dec_str_of(old_m) == dec_str_of(old_m / 10).push(digit_char(old_m % 10)));
                assert(dec_str_of(old_m / 10).push(digit_char(old_m % 10)) =~= dec_str_of(
                    old_m / 10,
                ) + seq![digit_char(old_m % 10)]);
                assert(dec_str_of(n as nat) =~= dec_str_of(m as nat) + rev_digit_chars(digs@));
            } else {
                assert(dec_str_of(old_m) =~= seq![digit_char(old_m)]);
                assert(dec_str_of(n as nat) =~= rev_digit_chars(digs@));
            }
        }
    }
    let mut out = String::new();
    let len = digs.len();
    let mut k: usize = 0;
    while k < len
        invariant
            len == digs@.len(),
            forall|j: int| 0 <= j < digs@.len() ==> digs@[j] < 10,
            k <= len,
            out@ == rev_digit_chars(digs@).take(k as int),
            dec_str_of(n as nat) == rev_digit_chars(digs@),
        decreases len - k,
    {
        let d = digs[len - 1 - k];
        out.append(digit_str(d));
        k += 1;
        proof {
            assert(out@ =~= rev_digit_chars(digs@).take(k as int));
        }
    }
    proof {
        assert(rev_digit_chars(digs@).take(len as int) =~= rev_digit_chars(digs@));
    }
    out
}

} // verus!
