//! Small verified helpers on strings and characters: equality of string
//! slices, search for a two-character delimiter, and decimal rendering of
//! integers (the textual form the variable store gives to numbers).

use vstd::prelude::*;

verus! {

/// Index of the first position `i` with `s[i] == c0 && s[i + 1] == c1`,
/// or `-1` when no such pair exists.
pub open spec fn find_pair(s: Seq<char>, c0: char, c1: char) -> int
    decreases s.len(),
{
    if s.len() < 2 {
        -1
    } else if s[0] == c0 && s[1] == c1 {
        0
    } else if find_pair(s.drop_first(), c0, c1) == -1 {
        -1
    } else {
        1 + find_pair(s.drop_first(), c0, c1)
    }
}

/// What `find_pair` returns: either `-1` and no pair occurs anywhere, or the
/// least position holding the pair.
pub proof fn lemma_find_pair(s: Seq<char>, c0: char, c1: char)
    ensures
        find_pair(s, c0, c1) == -1 ==> forall|i: int|
            0 <= i && i + 1 < s.len() ==> !(#[trigger] s[i] == c0 && s[i + 1] == c1),
        find_pair(s, c0, c1) != -1 ==> {
            let r = find_pair(s, c0, c1);
            &&& 0 <= r
            &&& r + 1 < s.len()
            &&& s[r] == c0
            &&& s[r + 1] == c1
            &&& forall|i: int| 0 <= i < r ==> !(#[trigger] s[i] == c0 && s[i + 1] == c1)
        },
    decreases s.len(),
{
    if s.len() < 2 {
    } else if s[0] == c0 && s[1] == c1 {
    } else {
        lemma_find_pair(s.drop_first(), c0, c1);
        let t = s.drop_first();
        assert(forall|i: int| 0 <= i && i + 1 < t.len() ==> #[trigger] t[i] == s[i + 1] && t[i + 1] == s[i + 2]);
        if find_pair(t, c0, c1) == -1 {
            assert forall|i: int| 0 <= i && i + 1 < s.len() implies !(#[trigger] s[i] == c0 && s[i + 1] == c1) by {
                if i > 0 {
                    assert(t[i - 1] == s[i] && t[i] == s[i + 1]);
                }
            }
        } else {
            let r = find_pair(t, c0, c1);
            assert(s[r + 1] == t[r] && s[r + 2] == t[r + 1]);
            assert forall|i: int| 0 <= i < r + 1 implies !(#[trigger] s[i] == c0 && s[i + 1] == c1) by {
                if i > 0 {
                    assert(t[i - 1] == s[i] && t[i] == s[i + 1]);
                }
            }
        }
    }
}

/// Finds the first occurrence of the two-character pattern `c0 c1` in `s`.
pub fn find_pair_in_str(s: &str, c0: char, c1: char) -> (r: Option<usize>)
    ensures
        match r {
            Some(i) => find_pair(s@, c0, c1) == i as int,
            None => find_pair(s@, c0, c1) == -1,
        },
{
    let n = s.unicode_len();
    if n < 2 {
        proof {
            lemma_find_pair(s@, c0, c1);
        }
        return None;
    }
    let mut i: usize = 0;
    while i + 1 < n
        invariant
            n == s@.len(),
            n >= 2,
            i < n,
            forall|j: int| 0 <= j < i ==> !(#[trigger] s@[j] == c0 && s@[j + 1] == c1),
        decreases n - i,
    {
        let a = s.get_char(i);
        let b = s.get_char(i + 1);
        if a == c0 && b == c1 {
            proof {
                lemma_find_pair(s@, c0, c1);
            }
            return Some(i);
        }
        i = i + 1;
    }
    proof {
        lemma_find_pair(s@, c0, c1);
    }
    None
}

/// Character-by-character equality of two string slices.
pub fn str_eq(a: &str, b: &str) -> (r: bool)
    ensures
        r == (a@ == b@),
{
    let na = a.unicode_len();
    let nb = b.unicode_len();
    if na != nb {
        return false;
    }
    let mut i: usize = 0;
    while i < na
        invariant
            na == a@.len(),
            na == b@.len(),
            i <= na,
            forall|j: int| 0 <= j < i ==> #[trigger] a@[j] == b@[j],
        decreases na - i,
    {
        if a.get_char(i) != b.get_char(i) {
            return false;
        }
        i = i + 1;
    }
    proof {
        assert(a@ =~= b@);
    }
    true
}

/// The decimal digit character for `d`.
pub open spec fn digit_char(d: nat) -> char {
    if d == 0 {
        '0'
    } else if d == 1 {
        '1'
    } else if d == 2 {
        '2'
    } else if d == 3 {
        '3'
    } else if d == 4 {
        '4'
    } else if d == 5 {
        '5'
    } else if d == 6 {
        '6'
    } else if d == 7 {
        '7'
    } else if d == 8 {
        '8'
    } else {
        '9'
    }
}

/// Decimal form of a natural number, most significant digit first.
pub open spec fn nat_text(n: nat) -> Seq<char>
    decreases n,
{
    if n < 10 {
        seq![digit_char(n)]
    } else {
        nat_text(n / 10).push(digit_char(n % 10))
    }
}

/// Decimal form of an integer: a minus sign before the magnitude when
/// negative.
pub open spec fn int_text(n: int) -> Seq<char> {
    if n < 0 {
        seq!['-'].add(nat_text((-n) as nat))
    } else {
        nat_text(n as nat)
    }
}

fn digit_str(d: u64) -> (r: &'static str)
    requires
        d < 10,
    ensures
        r@ == seq![digit_char(d as nat)],
{
    let r = match d {
        0 => "0",
        1 => "1",
        2 => "2",
        3 => "3",
        4 => "4",
        5 => "5",
        6 => "6",
        7 => "7",
        8 => "8",
        _ => "9",
    };
    proof {
        reveal_strlit("0");
        reveal_strlit("1");
        reveal_strlit("2");
        reveal_strlit("3");
        reveal_strlit("4");
        reveal_strlit("5");
        reveal_strlit("6");
        reveal_strlit("7");
        reveal_strlit("8");
        reveal_strlit("9");
        assert(r@ =~= seq![digit_char(d as nat)]);
    }
    r
}

fn nat_to_string(n: u64) -> (r: String)
    ensures
        r@ == nat_text(n as nat),
    decreases n,
{
    if n < 10 {
        digit_str(n).to_owned()
    } else {
        let high = nat_to_string(n / 10);
        let low = digit_str(n % 10);
        proof {
            assert(nat_text(n as nat) =~= nat_text((n / 10) as nat).add(
                seq![digit_char((n % 10) as nat)],
            ));
        }
        high.concat(low)
    }
}

/// Renders `n` in its decimal form, the textual shape numbers take in
/// rendered templates.
pub fn int_to_string(n: i64) -> (r: String)
    ensures
        r@ == int_text(n as int),
{
    if n >= 0 {
        nat_to_string(n as u64)
    } else {
        let magnitude: u64 = (-(n as i128)) as u64;
        let digits = nat_to_string(magnitude);
        let sign = "-";
        proof {
            reveal_strlit("-");
            assert(sign@ =~= seq!['-']);
            assert(int_text(n as int) =~= sign@.add(nat_text(magnitude as nat)));
        }
        sign.to_owned().concat(digits.as_str())
    }
}

} // verus!
