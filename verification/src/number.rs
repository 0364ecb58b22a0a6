//! Numbers as text.

use vstd::prelude::*;

verus! {

/// Whether a text is one or more decimal digits.
pub open spec fn all_digits(s: Seq<char>) -> bool {
    s.len() > 0 && forall|i: int| 0 <= i < s.len() ==> '0' <= #[trigger] s[i] <= '9'
}

/// The number that decimal digits stand for.
pub open spec fn digits_value(s: Seq<char>) -> int
    decreases s.len(),
{
    if s.len() == 0 {
        0
    } else {
        10 * digits_value(s.drop_last()) + (s.last() as int - '0' as int)
    }
}

/// The number that a text stands for: digits, behind a sign or not. Only a signed type takes a
/// minus.
pub open spec fn number_of(s: Seq<char>, signed: bool) -> Option<int> {
    if s.len() > 0 && (s[0] == '+' || (signed && s[0] == '-')) {
        if all_digits(s.skip(1)) {
            Some(
                if s[0] == '-' {
                    -digits_value(s.skip(1))
                } else {
                    digits_value(s.skip(1))
                },
            )
        } else {
            None
        }
    } else if all_digits(s) {
        Some(digits_value(s))
    } else {
        None
    }
}

/// More digits make no smaller number.
proof fn lemma_digits_grow(s: Seq<char>, n: int)
    requires
        all_digits(s),
        0 <= n <= s.len(),
    ensures
        0 <= digits_value(s.take(n)) <= digits_value(s),
    decreases s.len(),
{
    let front = s.drop_last();
    assert('0' <= s[s.len() - 1] <= '9');
    if n == s.len() {
        assert(s.take(n) =~= s);
    }
    if s.len() > 1 {
        assert forall|i: int| 0 <= i < front.len() implies '0' <= #[trigger] front[i] <= '9' by {
            assert(front[i] == s[i]);
        }
        if n < s.len() {
            assert(s.take(n) =~= front.take(n));
            lemma_digits_grow(front, n);
        } else {
            assert(front.take(n - 1) =~= front);
            lemma_digits_grow(front, n - 1);
        }
    } else {
        assert(digits_value(front) == 0);
        if n == 0 {
            assert(s.take(n) =~= Seq::empty());
        }
    }
}

/// An unsigned number is not negative.
pub proof fn lemma_unsigned(s: Seq<char>)
    ensures
        number_of(s, false) matches Some(n) ==> n >= 0,
{
    if all_digits(s) {
        lemma_digits_grow(s, 0);
    }
    if all_digits(s.skip(1)) {
        lemma_digits_grow(s.skip(1), 0);
    }
}

fn digit_of(c: char) -> (d: Option<u64>)
    ensures
        match d {
            Some(d) => '0' <= c <= '9' && d == c as int - '0' as int,
            None => !('0' <= c <= '9'),
        },
{
    if '0' <= c && c <= '9' {
        Some((c as u32 - '0' as u32) as u64)
    } else {
        None
    }
}

/// Reads the digits of a text from a place on.
fn parse_digits(s: &str, from: usize) -> (r: Option<u64>)
    requires
        from <= s@.len(),
    ensures
        match r {
            Some(n) => all_digits(s@.skip(from as int)) && n == digits_value(s@.skip(from as int)),
            None => !(all_digits(s@.skip(from as int)) && digits_value(s@.skip(from as int))
                <= u64::MAX),
        },
{
    let ghost tail = s@.skip(from as int);
    let len = s.unicode_len();
    if from == len {
        return None;
    }
    let mut i: usize = from;
    let mut n: u64 = 0;
    while i < len
        invariant
            from <= i <= len,
            from < len,
            len == s@.len(),
            tail == s@.skip(from as int),
            forall|j: int| 0 <= j < i - from ==> '0' <= #[trigger] tail[j] <= '9',
            n == digits_value(tail.take(i - from)),
        decreases len - i,
    {
        let c = s.get_char(i);
        let ghost k = i - from;
        proof {
            assert(tail[k] == c);
            let next = tail.take(k + 1);
            assert(next.drop_last() =~= tail.take(k));
            assert(next.last() == c);
            if all_digits(tail) {
                lemma_digits_grow(tail, k + 1);
            }
        }
        let d: u64 = match digit_of(c) {
            Some(d) => d,
            None => {
                return None;
            },
        };
        match n.checked_mul(10) {
            Some(m) => match m.checked_add(d) {
                Some(sum) => {
                    n = sum;
                },
                None => {
                    return None;
                },
            },
            None => {
                return None;
            },
        }
        i += 1;
    }
    proof {
        assert(tail.take(i - from) =~= tail);
    }
    Some(n)
}

/// Reads a number of type `i64`.
pub fn parse_i64(s: &str) -> (r: Option<i64>)
    ensures
        r == match number_of(s@, true) {
            Some(n) => if i64::MIN <= n <= i64::MAX {
                Some(n as i64)
            } else {
                None
            },
            None => None,
        },
{
    proof {
        assert(s@.skip(0) =~= s@);
    }
    if s.unicode_len() == 0 {
        return None;
    }
    let c = s.get_char(0);
    let from: usize = if c == '+' || c == '-' {
        1
    } else {
        0
    };
    match parse_digits(s, from) {
        None => None,
        Some(n) => if c == '-' {
            if n <= 0x7fff_ffff_ffff_ffff {
                Some(-(n as i64))
            } else if n == 0x8000_0000_0000_0000 {
                Some(i64::MIN)
            } else {
                None
            }
        } else if n <= 0x7fff_ffff_ffff_ffff {
            Some(n as i64)
        } else {
            None
        },
    }
}

/// Reads a number of type `usize`.
pub fn parse_usize(s: &str) -> (r: Option<usize>)
    ensures
        r == match number_of(s@, false) {
            Some(n) => if n <= usize::MAX {
                Some(n as usize)
            } else {
                None
            },
            None => None,
        },
{
    proof {
        assert(s@.skip(0) =~= s@);
    }
    if s.unicode_len() == 0 {
        return None;
    }
    let from: usize = if s.get_char(0) == '+' {
        1
    } else {
        0
    };
    match parse_digits(s, from) {
        None => None,
        Some(n) => if n <= usize::MAX as u64 {
            Some(n as usize)
        } else {
            None
        },
    }
}

/// Each digit makes a number ten times as large, and adds itself.
pub proof fn law_digits(s: Seq<char>, c: char)
    ensures
        digits_value(Seq::empty()) == 0,
        digits_value(s.push(c)) == 10 * digits_value(s) + (c as int - 48),
        all_digits(s.push(c)) <==> (s.len() == 0 || all_digits(s)) && 48 <= c as int <= 57,
{
    let t = s.push(c);
    assert(t.drop_last() =~= s);
    if all_digits(t) {
        assert forall|i: int| 0 <= i < s.len() implies '0' <= #[trigger] s[i] <= '9' by {
            assert(t[i] == s[i]);
        }
        assert('0' <= t[s.len() as int] <= '9');
    }
}

/// Which texts are numbers: digits alone or behind a plus, and behind a minus where the type has a
/// sign. Nothing else is.
pub proof fn law_numbers(digits: Seq<char>, s: Seq<char>, signed: bool)
    requires
        all_digits(digits),
    ensures
        number_of(digits, signed) == Some(digits_value(digits)),
        number_of(seq!['+'] + digits, signed) == Some(digits_value(digits)),
        number_of(seq!['-'] + digits, true) == Some(-digits_value(digits)),
        number_of(seq!['-'] + digits, false) is None,
        number_of(s, signed) is Some ==> all_digits(s) || (s.len() > 1 && all_digits(s.skip(1)) && (
        s[0] == '+' || (signed && s[0] == '-'))),
{
    assert('0' <= digits[0] <= '9');
    let plus = seq!['+'] + digits;
    let minus = seq!['-'] + digits;
    assert(plus.skip(1) =~= digits);
    assert(minus.skip(1) =~= digits);
    assert(minus[0] == '-');
    assert(!all_digits(minus)) by {
        if all_digits(minus) {
            assert('0' <= minus[0] <= '9');
        }
    }
}

} // verus!
