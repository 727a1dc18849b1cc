//! The schema migration plan: which numbered steps still have to run, given
//! whether the database file exists and the level it has recorded.
use vstd::prelude::*;

verus! {

/// The number of the last migration step this schema knows.
pub const LATEST_LEVEL: u32 = 12;

/// Whether `c` is a decimal digit.
pub open spec fn is_digit(c: char) -> bool {
    '0' <= c && c <= '9'
}

/// The value of a decimal digit.
pub open spec fn digit_value(c: char) -> int {
    c as int - '0' as int
}

/// Whether every character of `s` is a decimal digit.
pub open spec fn all_digits(s: Seq<char>) -> bool {
    forall|i: int| 0 <= i < s.len() ==> is_digit(#[trigger] s[i])
}

/// The value of a string of decimal digits.
pub open spec fn digits_value(s: Seq<char>) -> int
    decreases s.len(),
{
    if s.len() == 0 {
        0
    } else {
        digits_value(s.drop_last()) * 10 + digit_value(s.last())
    }
}

/// The digits of `s` after an optional leading sign.
pub open spec fn unsigned_part(s: Seq<char>) -> Seq<char> {
    if s.len() > 0 && (s[0] == '-' || s[0] == '+') {
        s.drop_first()
    } else {
        s
    }
}

/// The 32-bit integer written in `s`: an optional sign, then one or more
/// decimal digits, with a value in range; `None` for any other text.
pub open spec fn parsed_i32(s: Seq<char>) -> Option<int> {
    let body = unsigned_part(s);
    let v = if s.len() > 0 && s[0] == '-' {
        -digits_value(body)
    } else {
        digits_value(body)
    };
    if body.len() == 0 || !all_digits(body) || v < i32::MIN || v > i32::MAX {
        None
    } else {
        Some(v)
    }
}

/// The level recorded in the name/value table: what `stored` reads as a
/// 32-bit integer, and zero when it is absent or unreadable.
pub open spec fn recorded_level(stored: Option<Seq<char>>) -> int {
    match stored {
        Some(s) => match parsed_i32(s) {
            Some(v) => v,
            None => 0,
        },
        None => 0,
    }
}

/// The steps that remain from `level`, in ascending order: every step number
/// above `level` up to the latest.
pub open spec fn pending_steps(level: int) -> Seq<int> {
    let first = if level < 0 {
        1
    } else if level > LATEST_LEVEL {
        LATEST_LEVEL + 1
    } else {
        level + 1
    };
    Seq::new((LATEST_LEVEL + 1 - first) as nat, |i: int| first + i)
}

/// The decimal text of `n`, without leading zeros.
pub open spec fn decimal_text(n: nat) -> Seq<char>
    decreases n,
{
    if n < 10 {
        seq![('0' as u8 + n as u8) as char]
    } else {
        decimal_text(n / 10).push(('0' as u8 + (n % 10) as u8) as char)
    }
}

/// What the engine has to do at startup.
#[derive(Clone, Debug)]
pub struct MigrationPlan {
    /// Whether the initial schema has to be created first.
    pub initial: bool,
    /// The numbered steps to run, in this order. After each one the level is
    /// recorded as that step's number.
    pub steps: Vec<u32>,
}

/// A prefix of a digit string has no greater value.
proof fn lemma_digits_prefix(s: Seq<char>, k: int)
    requires
        all_digits(s),
        0 <= k <= s.len(),
    ensures
        0 <= digits_value(s.subrange(0, k)) <= digits_value(s),
    decreases s.len(),
{
    if s.len() > 0 {
        assert(all_digits(s.drop_last()));
        if k == s.len() {
            assert(s.subrange(0, k) =~= s);
            lemma_digits_prefix(s.drop_last(), k - 1);
            assert(s.drop_last().subrange(0, k - 1) =~= s.drop_last());
        } else {
            lemma_digits_prefix(s.drop_last(), k);
            assert(s.drop_last().subrange(0, k) =~= s.subrange(0, k));
            lemma_digits_prefix(s.drop_last(), s.len() - 1);
            assert(s.drop_last().subrange(0, s.len() - 1) =~= s.drop_last());
        }
    } else {
        assert(s.subrange(0, k) =~= s);
    }
}

/// Reads text as a 32-bit integer: an optional sign, then decimal digits.
pub fn parse_i32(s: &str) -> (r: Option<i32>)
    ensures
        match parsed_i32(s@) {
            Some(v) => r == Some(v as i32),
            None => r is None,
        },
{
    let n = s.unicode_len();
    let mut start: usize = 0;
    let mut neg = false;
    if n > 0 {
        let c = s.get_char(0);
        if c == '-' {
            neg = true;
            start = 1;
        } else if c == '+' {
            start = 1;
        }
    }
    let ghost body = unsigned_part(s@);
    assert(body =~= s@.subrange(start as int, n as int));
    if start >= n {
        return None;
    }
    let mut acc: i64 = 0;
    let mut i: usize = start;
    while i < n
        invariant
            start <= i <= n,
            n == s@.len(),
            body == s@.subrange(start as int, n as int),
            body == unsigned_part(s@),
            neg == (s@.len() > 0 && s@[0] == '-'),
            all_digits(body.subrange(0, i - start)),
            acc == digits_value(body.subrange(0, i - start)),
            0 <= acc <= 2147483648,
        decreases n - i,
    {
        let c = s.get_char(i);
        let ghost pre = body.subrange(0, i - start);
        let ghost next = body.subrange(0, i + 1 - start);
        assert(next.drop_last() =~= pre);
        if c < '0' || c > '9' {
            assert(!all_digits(body)) by {
                assert(body[i - start] == c);
            }
            assert(parsed_i32(s@) is None);
            return None;
        }
        let d = (c as u32 - '0' as u32) as i64;
        assert(all_digits(next));
        acc = acc * 10 + d;
        assert(acc == digits_value(next));
        if acc > 2147483648 {
            proof {
                if all_digits(body) {
                    lemma_digits_prefix(body, i + 1 - start);
                    assert(digits_value(body) > 2147483648);
                }
            }
            assert(parsed_i32(s@) is None);
            return None;
        }
        i = i + 1;
    }
    assert(body.subrange(0, n - start) =~= body);
    if neg {
        Some((0 - acc) as i32)
    } else if acc > 2147483647 {
        None
    } else {
        Some(acc as i32)
    }
}

/// The level recorded in the name/value table; absent or unreadable text
/// counts as level zero.
pub fn stored_level(stored: Option<&str>) -> (r: i32)
    ensures
        r == recorded_level(
            match stored {
                Some(s) => Some(s@),
                None => None,
            },
        ),
{
    match stored {
        Some(s) => match parse_i32(s) {
            Some(v) => v,
            None => 0,
        },
        None => 0,
    }
}

/// The steps that remain from `level`, in ascending order.
pub fn steps_after(level: i32) -> (r: Vec<u32>)
    ensures
        r@.len() == pending_steps(level as int).len(),
        forall|i: int| 0 <= i < r@.len() ==> r@[i] as int == pending_steps(level as int)[i],
{
    let first: u32 = if level < 0 {
        1
    } else if level > LATEST_LEVEL as i32 {
        LATEST_LEVEL + 1
    } else {
        level as u32 + 1
    };
    let mut r: Vec<u32> = Vec::new();
    let mut k: u32 = first;
    while k <= LATEST_LEVEL
        invariant
            1 <= first <= k <= LATEST_LEVEL + 1,
            first as int == pending_steps(level as int)[0] || first == LATEST_LEVEL + 1,
            pending_steps(level as int).len() == LATEST_LEVEL + 1 - first,
            r@.len() == k - first,
            forall|i: int| 0 <= i < r@.len() ==> r@[i] as int == first + i,
        decreases LATEST_LEVEL + 1 - k,
    {
        r.push(k);
        k = k + 1;
    }
    r
}

/// Decides what to run at startup: the initial schema when the file did not
/// exist, then every step above the recorded level, in ascending order.
pub fn plan_migrations(file_exists: bool, stored: Option<&str>) -> (r: MigrationPlan)
    ensures
        r.initial == !file_exists,
        r.steps@.len() == pending_steps(
            recorded_level(
                match stored {
                    Some(s) => Some(s@),
                    None => None,
                },
            ),
        ).len(),
        forall|i: int|
            0 <= i < r.steps@.len() ==> r.steps@[i] as int == pending_steps(
                recorded_level(
                    match stored {
                        Some(s) => Some(s@),
                        None => None,
                    },
                ),
            )[i],
{
    let level = stored_level(stored);
    MigrationPlan { initial: !file_exists, steps: steps_after(level) }
}

/// The decimal digit character of `d`.
fn digit_str(d: u32) -> (r: &'static str)
    requires
        d < 10,
    ensures
        r@ == seq![('0' as u8 + d as u8) as char],
{
    proof {
        reveal_strlit("0");
        reveal_strlit("1");
        reveal_strlit("2");
        reveal_strlit("3");
        reveal_strlit("4");
        reveal_strlit("5");
        reveal_strlit("6");
        reveal_strlit("7");
        reveal_strlit("8");
        reveal_strlit("9");
    }
    let r = if d == 0 {
        "0"
    } else if d == 1 {
        "1"
    } else if d == 2 {
        "2"
    } else if d == 3 {
        "3"
    } else if d == 4 {
        "4"
    } else if d == 5 {
        "5"
    } else if d == 6 {
        "6"
    } else if d == 7 {
        "7"
    } else if d == 8 {
        "8"
    } else {
        "9"
    };
    assert(r@ =~= seq![('0' as u8 + d as u8) as char]);
    r
}

/// The text under which a level is recorded: its decimal digits.
pub fn level_text(n: u32) -> (r: String)
    ensures
        r@ == decimal_text(n as nat),
    decreases n,
{
    if n < 10 {
        String::from_str(digit_str(n))
    } else {
        let head = level_text(n / 10);
        let r = head.concat(digit_str(n % 10));
        assert(r@ =~= decimal_text(n as nat));
        r
    }
}

/// The decimal text of `n` is made of digits, begins with one, and reads back as `n`.
proof fn lemma_decimal_text(n: nat)
    ensures
        decimal_text(n).len() > 0,
        all_digits(decimal_text(n)),
        is_digit(decimal_text(n)[0]),
        digits_value(decimal_text(n)) == n,
    decreases n,
{
    let t = decimal_text(n);
    if n < 10 {
        assert(t.drop_last() =~= Seq::<char>::empty());
        assert(digit_value(t.last()) == n);
        assert(digits_value(t.drop_last()) == 0);
        assert(digits_value(t) == digits_value(t.drop_last()) * 10 + digit_value(t.last()));
    } else {
        lemma_decimal_text(n / 10);
        assert(t.drop_last() =~= decimal_text(n / 10));
        assert(digit_value(t.last()) == n % 10);
        assert((n / 10) * 10 + n % 10 == n);
        assert(digits_value(t) == digits_value(t.drop_last()) * 10 + digit_value(t.last()));
        assert forall|i: int| 0 <= i < t.len() implies is_digit(#[trigger] t[i]) by {
            if i < t.len() - 1 {
                assert(t[i] == decimal_text(n / 10)[i]);
            }
        }
    }
}

/// A level recorded as decimal text reads back as that level.
proof fn lemma_level_read_back(n: nat)
    requires
        n <= i32::MAX,
    ensures
        recorded_level(Some(decimal_text(n))) == n,
{
    lemma_decimal_text(n);
    let t = decimal_text(n);
    assert(unsigned_part(t) == t);
}

/// What the name/value table holds after the whole plan has run: the latest
/// step's number when any step ran, the earlier text otherwise.
pub open spec fn recorded_after_run(stored: Option<Seq<char>>) -> Option<Seq<char>> {
    let steps = pending_steps(recorded_level(stored));
    if steps.len() == 0 {
        stored
    } else {
        Some(decimal_text(steps.last() as nat))
    }
}

/// Migrating is idempotent: once the plan has run, planning again against
/// the same file runs no step, whatever level was recorded before.
pub proof fn lemma_migration_idempotent(stored: Option<Seq<char>>)
    ensures
        pending_steps(recorded_level(recorded_after_run(stored))).len() == 0,
{
    let steps = pending_steps(recorded_level(stored));
    if steps.len() > 0 {
        assert(steps.last() == LATEST_LEVEL);
        lemma_level_read_back(LATEST_LEVEL as nat);
    }
}

/// Migrating resumes where it stopped: with level `k` recorded, exactly the
/// steps `k + 1` to the latest run, in ascending order, none at or below `k`;
/// and once step `j` has run and been recorded, what remains is the tail of
/// that same plan after `j`.
pub proof fn lemma_migration_resumes(k: nat)
    requires
        k <= LATEST_LEVEL,
    ensures
        pending_steps(recorded_level(Some(decimal_text(k)))) == Seq::new(
            (LATEST_LEVEL - k) as nat,
            |i: int| k + 1 + i,
        ),
        forall|i: int|
            0 <= i < pending_steps(recorded_level(Some(decimal_text(k)))).len()
                ==> #[trigger] pending_steps(recorded_level(Some(decimal_text(k))))[i] > k,
        forall|j: nat|
            k <= j <= LATEST_LEVEL ==> #[trigger] pending_steps(
                recorded_level(Some(decimal_text(j))),
            ) == pending_steps(recorded_level(Some(decimal_text(k)))).subrange(
                j - k,
                LATEST_LEVEL - k,
            ),
{
    lemma_level_read_back(k);
    assert(pending_steps(k as int) =~= Seq::new((LATEST_LEVEL - k) as nat, |i: int| k + 1 + i));
    assert forall|j: nat| k <= j <= LATEST_LEVEL implies #[trigger] pending_steps(
        recorded_level(Some(decimal_text(j))),
    ) == pending_steps(recorded_level(Some(decimal_text(k)))).subrange(
        j - k,
        LATEST_LEVEL - k,
    ) by {
        lemma_level_read_back(j);
        assert(pending_steps(j as int) =~= pending_steps(k as int).subrange(j - k, LATEST_LEVEL - k));
    }
}

} // verus!
