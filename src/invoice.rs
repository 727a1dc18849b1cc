//! Layout helpers for invoice documents.
use vstd::prelude::*;

verus! {

/// The number of line breaks in `s`.
pub open spec fn break_count(s: Seq<char>) -> nat
    decreases s.len(),
{
    if s.len() == 0 {
        0
    } else if s.last() == '\n' {
        break_count(s.drop_last()) + 1
    } else {
        break_count(s.drop_last())
    }
}

/// The number of lines of `s`: one more than its line breaks.
pub open spec fn line_count(s: Seq<char>) -> nat {
    break_count(s) + 1
}

/// `n` line breaks.
pub open spec fn breaks(n: nat) -> Seq<char> {
    Seq::new(n, |i: int| '\n')
}

/// The number of line breaks in `s`.
pub fn count_breaks(s: &str) -> (r: usize)
    ensures
        r == break_count(s@),
{
    let n = s.unicode_len();
    let mut c: usize = 0;
    let mut i: usize = 0;
    while i < n
        invariant
            n == s@.len(),
            i <= n,
            c == break_count(s@.subrange(0, i as int)),
            c <= i,
        decreases n - i,
    {
        proof {
            assert(s@.subrange(0, i + 1).drop_last() =~= s@.subrange(0, i as int));
        }
        if s.get_char(i) == '\n' {
            c = c + 1;
        }
        i = i + 1;
    }
    assert(s@.subrange(0, i as int) =~= s@);
    c
}

/// Appending line breaks adds as many lines.
proof fn lemma_breaks_lines(s: Seq<char>, n: nat)
    ensures
        break_count(s + breaks(n)) == break_count(s) + n,
    decreases n,
{
    if n > 0 {
        lemma_breaks_lines(s, (n - 1) as nat);
        assert((s + breaks(n)).drop_last() =~= s + breaks((n - 1) as nat));
    } else {
        assert(s + breaks(n) =~= s);
    }
}

/// `s` followed by `n` line breaks.
fn pad_lines(s: String, n: usize) -> (r: String)
    ensures
        r@ == s@ + breaks(n as nat),
{
    let mut r = s;
    let mut k: usize = 0;
    while k < n
        invariant
            k <= n,
            r@ == s@ + breaks(k as nat),
        decreases n - k,
    {
        proof {
            reveal_strlit("\n");
        }
        r.append("\n");
        assert(r@ =~= s@ + breaks((k + 1) as nat));
        k = k + 1;
    }
    r
}

/// Pads the shorter of the biller and recipient blocks with line breaks so
/// that both have as many lines; the longer one is left as it is.
pub fn balance_lines(payee: String, payer: String) -> (r: (String, String))
    ensures
        line_count(r.0@) == line_count(r.1@),
        line_count(payee@) <= line_count(payer@) ==> r.0@ == payee@ + breaks(
            (line_count(payer@) - line_count(payee@)) as nat,
        ) && r.1@ == payer@,
        line_count(payee@) > line_count(payer@) ==> r.0@ == payee@ && r.1@ == payer@ + breaks(
            (line_count(payee@) - line_count(payer@)) as nat,
        ),
{
    let ee = count_breaks(payee.as_str());
    let er = count_breaks(payer.as_str());
    if ee <= er {
        let padded = pad_lines(payee, er - ee);
        proof {
            lemma_breaks_lines(payee@, (er - ee) as nat);
        }
        (padded, payer)
    } else {
        let padded = pad_lines(payer, ee - er);
        proof {
            lemma_breaks_lines(payer@, (ee - er) as nat);
        }
        (payee, padded)
    }
}

} // verus!
