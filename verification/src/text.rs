//! Character and string groundwork: whitespace classification, line
//! normalization, space runs, and decimal rendering of line numbers.

use vstd::prelude::*;

verus! {

/// The whitespace characters, as Rust's `char::is_whitespace` defines them.
pub open spec fn is_ws_char(c: char) -> bool {
    c == ' ' || c == '\t' || c == '\n' || c == '\r' || c == '\u{b}' || c == '\u{c}'
        || c == '\u{85}' || c == '\u{a0}' || c == '\u{1680}'
        || ('\u{2000}' <= c && c <= '\u{200a}')
        || c == '\u{2028}' || c == '\u{2029}' || c == '\u{202f}' || c == '\u{205f}'
        || c == '\u{3000}'
}

/// Whether `c` is a whitespace character.
pub fn is_whitespace_char(c: char) -> (r: bool)
    ensures
        r == is_ws_char(c),
{
    c == ' ' || c == '\t' || c == '\n' || c == '\r' || c == '\u{b}' || c == '\u{c}'
        || c == '\u{85}' || c == '\u{a0}' || c == '\u{1680}'
        || ('\u{2000}' <= c && c <= '\u{200a}')
        || c == '\u{2028}' || c == '\u{2029}' || c == '\u{202f}' || c == '\u{205f}'
        || c == '\u{3000}'
}

/// A line that holds only whitespace counts as blank.
pub open spec fn is_blank_line(line: Seq<char>) -> bool {
    forall|i: int| 0 <= i < line.len() ==> is_ws_char(#[trigger] line[i])
}

/// Normalize a line for comparison: a blank line becomes the empty line,
/// every other line stands as it is.
pub open spec fn norm_spec(line: Seq<char>) -> Seq<char> {
    if is_blank_line(line) {
        Seq::<char>::empty()
    } else {
        line
    }
}

/// Whether the line holds nothing but whitespace.
pub fn is_blank(line: &str) -> (r: bool)
    ensures
        r == is_blank_line(line@),
{
    let len = line.unicode_len();
    let mut i: usize = 0;
    while i < len
        invariant
            0 <= i <= len,
            len == line@.len(),
            forall|k: int| 0 <= k < i ==> is_ws_char(#[trigger] line@[k]),
        decreases len - i,
    {
        if !is_whitespace_char(line.get_char(i)) {
            return false;
        }
        i += 1;
    }
    true
}

/// Whether the two lines are equal after normalization: both blank, or
/// literally equal.
pub fn norm_eq(a: &str, b: &str) -> (r: bool)
    ensures
        r == (norm_spec(a@) == norm_spec(b@)),
{
    let ba = is_blank(a);
    let bb = is_blank(b);
    if ba || bb {
        proof {
            if ba && !bb {
                let i = choose|i: int| 0 <= i < b@.len() && !is_ws_char(b@[i]);
                assert(norm_spec(b@).len() > 0);
            }
            if bb && !ba {
                let i = choose|i: int| 0 <= i < a@.len() && !is_ws_char(a@[i]);
                assert(norm_spec(a@).len() > 0);
            }
        }
        ba && bb
    } else {
        str_eq(a, b)
    }
}

/// Character-for-character equality of two string slices.
pub fn str_eq(a: &str, b: &str) -> (r: bool)
    ensures
        r == (a@ == b@),
{
    let la = a.unicode_len();
    let lb = b.unicode_len();
    if la != lb {
        proof {
            assert(a@ != b@) by {
                if a@ == b@ {
                    assert(a@.len() == b@.len());
                }
            }
        }
        return false;
    }
    let mut i: usize = 0;
    while i < la
        invariant
            0 <= i <= la,
            la == a@.len(),
            la == b@.len(),
            forall|k: int| 0 <= k < i ==> a@[k] == b@[k],
        decreases la - i,
    {
        if a.get_char(i) != b.get_char(i) {
            proof {
                assert(a@ != b@) by {
                    if a@ == b@ {
                        assert(a@[i as int] == b@[i as int]);
                    }
                }
            }
            return false;
        }
        i += 1;
    }
    proof {
        assert(a@ =~= b@);
    }
    true
}

/// `p` is a prefix of `s`.
pub open spec fn is_prefix_of(p: Seq<char>, s: Seq<char>) -> bool {
    p.len() <= s.len() && s.take(p.len() as int) == p
}

/// Whether `p` is a prefix of `s`.
pub fn str_is_prefix(p: &str, s: &str) -> (r: bool)
    ensures
        r == is_prefix_of(p@, s@),
{
    let lp = p.unicode_len();
    let ls = s.unicode_len();
    if lp > ls {
        return false;
    }
    let mut i: usize = 0;
    while i < lp
        invariant
            0 <= i <= lp,
            lp == p@.len(),
            ls == s@.len(),
            lp <= ls,
            forall|k: int| 0 <= k < i ==> p@[k] == s@[k],
        decreases lp - i,
    {
        if p.get_char(i) != s.get_char(i) {
            proof {
                assert(s@.take(lp as int) != p@) by {
                    if s@.take(lp as int) == p@ {
                        assert(s@.take(lp as int)[i as int] == p@[i as int]);
                    }
                }
            }
            return false;
        }
        i += 1;
    }
    proof {
        assert(s@.take(lp as int) =~= p@);
    }
    true
}

/// A run of `n` spaces.
pub fn spaces(n: usize) -> (r: String)
    ensures
        r@ == Seq::new(n as nat, |i: int| ' '),
{
    let mut r = String::new();
    let mut i: usize = 0;
    proof {
        reveal_strlit(" ");
    }
    while i < n
        invariant
            0 <= i <= n,
            r@ == Seq::new(i as nat, |k: int| ' '),
            (" ")@ == seq![' '],
        decreases n - i,
    {
        r.append(" ");
        i += 1;
        proof {
            assert(r@ =~= Seq::new(i as nat, |k: int| ' '));
        }
    }
    r
}

/// What Unicode lowercasing yields for a character sequence. The result
/// depends on the characters alone; no shorter statement covers the
/// Unicode tables, so the value only carries this name.
pub uninterp spec fn lower_of(s: Seq<char>) -> Seq<char>;

/// Lowercase a string. Relies on `str::to_lowercase`: the result is the
/// Unicode lowercase of the input, a value of its characters alone, and
/// an empty input stays empty.
#[verifier::external_body]
pub fn to_lowercase(s: &str) -> (r: String)
    ensures
        r@ == lower_of(s@),
        s@.len() == 0 ==> r@.len() == 0,
{
    s.to_lowercase()
}

/// The decimal digit character for `d` (0 through 9).
pub open spec fn dec_digit(d: nat) -> char {
    if d == 0 { '0' }
    else if d == 1 { '1' }
    else if d == 2 { '2' }
    else if d == 3 { '3' }
    else if d == 4 { '4' }
    else if d == 5 { '5' }
    else if d == 6 { '6' }
    else if d == 7 { '7' }
    else if d == 8 { '8' }
    else { '9' }
}

/// The decimal representation of `n`, most significant digit first.
pub open spec fn dec_rep(n: nat) -> Seq<char>
    decreases n,
{
    if n < 10 {
        seq![dec_digit(n)]
    } else {
        dec_rep(n / 10) + seq![dec_digit(n % 10)]
    }
}

/// A one-character string slice holding the digit `d`.
fn digit_str(d: usize) -> (r: &'static str)
    requires
        d < 10,
    ensures
        r@ == seq![dec_digit(d as nat)],
{
    proof {
        reveal_strlit("0");
        reveal_strlit("1");
        reveal_strlit("2");
        reveal_strlit("3");
        reveal_strlit("4");
        reveal_strlit("5");
        reveal_strlit("6");
        reveal_strlit("7");
        reveal_strlit("8");
        reveal_strlit("9");
    }
    let r = if d == 0 { "0" }
    else if d == 1 { "1" }
    else if d == 2 { "2" }
    else if d == 3 { "3" }
    else if d == 4 { "4" }
    else if d == 5 { "5" }
    else if d == 6 { "6" }
    else if d == 7 { "7" }
    else if d == 8 { "8" }
    else { "9" };
    proof {
        assert(r@ =~= seq![dec_digit(d as nat)]);
    }
    r
}

/// Render `n` in decimal.
pub fn dec_string(n: usize) -> (r: String)
    ensures
        r@ == dec_rep(n as nat),
    decreases n,
{
    if n < 10 {
        digit_str(n).to_owned()
    } else {
        let mut r = dec_string(n / 10);
        r.append(digit_str(n % 10));
        r
    }
}

/// How many digits the decimal representation of `n` has.
pub open spec fn digit_count_spec(n: nat) -> nat {
    dec_rep(n).len()
}

proof fn lemma_dec_rep_len(n: nat, k: nat)
    requires
        n < pow10(k),
        k >= 1,
    ensures
        dec_rep(n).len() <= k,
    decreases n,
{
    if n < 10 {
    } else {
        assert(pow10(k) == 10 * pow10((k - 1) as nat));
        assert(n / 10 < pow10((k - 1) as nat)) by {
            assert(n < 10 * pow10((k - 1) as nat));
        };
        assert(k - 1 >= 1) by {
            if k == 1 {
                assert(pow10(1nat) == 10 * pow10(0nat));
                assert(pow10(0nat) == 1);
                assert(n < 10);
            }
        };
        lemma_dec_rep_len(n / 10, (k - 1) as nat);
    }
}

/// Ten to the power `k`.
pub open spec fn pow10(k: nat) -> nat
    decreases k,
{
    if k == 0 {
        1
    } else {
        10 * pow10((k - 1) as nat)
    }
}

/// A number no larger than another has no more decimal digits.
pub proof fn lemma_digit_count_mono(m: nat, n: nat)
    requires
        m <= n,
    ensures
        digit_count_spec(m) <= digit_count_spec(n),
    decreases n,
{
    if m < 10 {
        assert(dec_rep(m).len() == 1);
        assert(dec_rep(n).len() >= 1) by {
            if n >= 10 {
            }
        }
    } else {
        lemma_digit_count_mono(m / 10, n / 10);
    }
}

/// The decimal representation of a machine-sized number has at most 20
/// digits.
pub proof fn lemma_digit_count_bound(n: nat)
    requires
        n <= usize::MAX,
    ensures
        1 <= digit_count_spec(n) <= 20,
{
    assert(dec_rep(n).len() >= 1) by {
        if n >= 10 {
        }
    };
    assert(pow10(20nat) > 0xffff_ffff_ffff_ffffnat) by {
        reveal_with_fuel(pow10, 21);
    };
    assert(n < pow10(20nat));
    lemma_dec_rep_len(n, 20nat);
}

/// Count the decimal digits of `n`.
pub fn digit_count(n: usize) -> (r: usize)
    ensures
        r == digit_count_spec(n as nat),
        1 <= r <= 20,
    decreases n,
{
    proof {
        lemma_digit_count_bound(n as nat);
    }
    if n < 10 {
        1
    } else {
        let d = digit_count(n / 10);
        d + 1
    }
}

} // verus!
