//! The values that are counted: ordered, printable, and with a place in JSON.

use crate::json::{json_of, text_value, unsigned_value, Json};
use crate::number::{all_digits, digits_value};
use serde_json::Value;
use vstd::prelude::*;

verus! {

/// How one key stands to another.
pub enum Rank {
    Before,
    Same,
    After,
}

/// A value that can be counted.
pub trait Key: View + Sized {
    /// The order of the keys.
    spec fn before(a: Self::V, b: Self::V) -> bool;

    /// The text of the key.
    spec fn text(v: Self::V) -> Seq<char>;

    /// The JSON document of the key.
    spec fn json(v: Self::V) -> Json;

    proof fn before_irreflexive(a: Self::V)
        ensures
            !Self::before(a, a),
    ;

    proof fn before_transitive(a: Self::V, b: Self::V, c: Self::V)
        requires
            Self::before(a, b),
            Self::before(b, c),
        ensures
            Self::before(a, c),
    ;

    proof fn before_total(a: Self::V, b: Self::V)
        ensures
            a == b || Self::before(a, b) || Self::before(b, a),
    ;

    proof fn text_injective(a: Self::V, b: Self::V)
        requires
            Self::text(a) == Self::text(b),
        ensures
            a == b,
    ;

    /// Compares two keys.
    fn rank(&self, other: &Self) -> (r: Rank)
        ensures
            match r {
                Rank::Before => Self::before(self@, other@),
                Rank::Same => self@ == other@,
                Rank::After => Self::before(other@, self@),
            },
    ;

    /// A key of its own with the same value.
    fn copied(&self) -> (r: Self)
        ensures
            r@ == self@,
    ;

    /// The key as text.
    fn to_text(&self) -> (r: String)
        ensures
            r@ == Self::text(self@),
    ;

    /// The key as a JSON document.
    fn to_json(&self) -> (r: Value)
        ensures
            json_of(r) == Self::json(self@),
    ;
}

/// The lexicographic order of two texts by the code points of their characters.
pub open spec fn text_before(a: Seq<char>, b: Seq<char>) -> bool
    decreases a.len(),
{
    if b.len() == 0 {
        false
    } else if a.len() == 0 {
        true
    } else if a[0] != b[0] {
        (a[0] as int) < (b[0] as int)
    } else {
        text_before(a.drop_first(), b.drop_first())
    }
}

proof fn lemma_text_before_irreflexive(a: Seq<char>)
    ensures
        !text_before(a, a),
    decreases a.len(),
{
    if a.len() > 0 {
        lemma_text_before_irreflexive(a.drop_first());
    }
}

proof fn lemma_text_before_transitive(a: Seq<char>, b: Seq<char>, c: Seq<char>)
    requires
        text_before(a, b),
        text_before(b, c),
    ensures
        text_before(a, c),
    decreases a.len(),
{
    if a.len() > 0 && a[0] == b[0] && b[0] == c[0] {
        lemma_text_before_transitive(a.drop_first(), b.drop_first(), c.drop_first());
    }
}

proof fn lemma_text_before_total(a: Seq<char>, b: Seq<char>)
    ensures
        a == b || text_before(a, b) || text_before(b, a),
    decreases a.len(),
{
    if a.len() > 0 && b.len() > 0 && a[0] == b[0] {
        lemma_text_before_total(a.drop_first(), b.drop_first());
        if a.drop_first() == b.drop_first() {
            assert(a =~= seq![a[0]] + a.drop_first());
            assert(b =~= seq![b[0]] + b.drop_first());
        }
    } else if a.len() == 0 && b.len() == 0 {
        assert(a =~= b);
    }
}

/// Compares two texts by the code points of their characters.
pub fn rank_text(a: &str, b: &str) -> (r: Rank)
    ensures
        match r {
            Rank::Before => text_before(a@, b@),
            Rank::Same => a@ == b@,
            Rank::After => text_before(b@, a@),
        },
{
    let mut ca = a.chars();
    let mut cb = b.chars();
    let ghost mut i: int = 0;
    proof {
        assert(a@.skip(0) =~= a@);
        assert(b@.skip(0) =~= b@);
    }
    loop
        invariant
            0 <= i <= a@.len(),
            i <= b@.len(),
            vstd::std_specs::iter::IteratorSpec::remaining(&ca) == a@.skip(i),
            vstd::std_specs::iter::IteratorSpec::remaining(&cb) == b@.skip(i),
            a@.take(i) == b@.take(i),
            text_before(a@, b@) == text_before(a@.skip(i), b@.skip(i)),
            text_before(b@, a@) == text_before(b@.skip(i), a@.skip(i)),
        decreases a@.len() - i,
    {
        let x = ca.next();
        let y = cb.next();
        match (x, y) {
            (None, None) => {
                proof {
                    assert(a@.take(i) =~= a@);
                    assert(b@.take(i) =~= b@);
                }
                return Rank::Same;
            },
            (None, Some(_)) => {
                return Rank::Before;
            },
            (Some(_), None) => {
                return Rank::After;
            },
            (Some(c), Some(d)) => {
                if c != d {
                    if c < d {
                        return Rank::Before;
                    }
                    return Rank::After;
                }
                proof {
                    assert(a@.skip(i).drop_first() =~= a@.skip(i + 1));
                    assert(b@.skip(i).drop_first() =~= b@.skip(i + 1));
                    assert(a@.take(i + 1) =~= a@.take(i).push(a@[i]));
                    assert(b@.take(i + 1) =~= b@.take(i).push(b@[i]));
                    i = i + 1;
                }
            },
        }
    }
}

/// Whether two texts are the same.
pub fn same_text(a: &str, b: &str) -> (r: bool)
    ensures
        r == (a@ == b@),
{
    match rank_text(a, b) {
        Rank::Same => true,
        _ => {
            proof {
                lemma_text_before_irreflexive(a@);
            }
            false
        },
    }
}

/// The character of a decimal digit.
pub open spec fn digit(d: nat) -> char {
    (48 + d) as char
}

/// A number in decimal, without leading zeros.
pub open spec fn decimal(n: nat) -> Seq<char>
    decreases n,
{
    if n < 10 {
        seq![digit(n)]
    } else {
        decimal(n / 10).push(digit(n % 10))
    }
}

proof fn lemma_decimal_nonempty(n: nat)
    ensures
        decimal(n).len() > 0,
{
}

proof fn lemma_decimal_injective(a: nat, b: nat)
    requires
        decimal(a) == decimal(b),
    ensures
        a == b,
    decreases a,
{
    assert(decimal(a).last() == digit(a % 10));
    assert(decimal(b).last() == digit(b % 10));
    assert(a % 10 == b % 10);
    if a >= 10 && b >= 10 {
        assert(decimal(a).drop_last() =~= decimal(a / 10));
        assert(decimal(b).drop_last() =~= decimal(b / 10));
        lemma_decimal_injective(a / 10, b / 10);
    } else if a >= 10 {
        lemma_decimal_nonempty(a / 10);
    } else if b >= 10 {
        lemma_decimal_nonempty(b / 10);
    }
}

fn digit_text(d: u64) -> (r: &'static str)
    requires
        d < 10,
    ensures
        r@ == seq![digit(d as nat)],
{
    proof {
        reveal_strlit("0");
        reveal_strlit("1");
        reveal_strlit("2");
        reveal_strlit("3");
        reveal_strlit("4");
        reveal_strlit("5");
        reveal_strlit("6");
        reveal_strlit("7");
        reveal_strlit("8");
        reveal_strlit("9");
    }
    match d {
        0 => "0",
        1 => "1",
        2 => "2",
        3 => "3",
        4 => "4",
        5 => "5",
        6 => "6",
        7 => "7",
        8 => "8",
        _ => "9",
    }
}

/// Writes a number in decimal.
pub fn decimal_text(n: u64) -> (r: String)
    ensures
        r@ == decimal(n as nat),
    decreases n,
{
    if n < 10 {
        digit_text(n).to_owned()
    } else {
        let mut r = decimal_text(n / 10);
        r.append(digit_text(n % 10));
        r
    }
}

impl Key for String {
    open spec fn before(a: Seq<char>, b: Seq<char>) -> bool {
        text_before(a, b)
    }

    open spec fn text(v: Seq<char>) -> Seq<char> {
        v
    }

    open spec fn json(v: Seq<char>) -> Json {
        Json::Text(v)
    }

    proof fn before_irreflexive(a: Seq<char>) {
        lemma_text_before_irreflexive(a);
    }

    proof fn before_transitive(a: Seq<char>, b: Seq<char>, c: Seq<char>) {
        lemma_text_before_transitive(a, b, c);
    }

    proof fn before_total(a: Seq<char>, b: Seq<char>) {
        lemma_text_before_total(a, b);
    }

    proof fn text_injective(a: Seq<char>, b: Seq<char>) {
    }

    fn rank(&self, other: &String) -> (r: Rank) {
        rank_text(self.as_str(), other.as_str())
    }

    fn copied(&self) -> (r: String) {
        self.clone()
    }

    fn to_text(&self) -> (r: String) {
        self.clone()
    }

    fn to_json(&self) -> (r: Value) {
        text_value(self.clone())
    }
}

impl Key for u8 {
    open spec fn before(a: u8, b: u8) -> bool {
        a < b
    }

    open spec fn text(v: u8) -> Seq<char> {
        decimal(v as nat)
    }

    open spec fn json(v: u8) -> Json {
        Json::Number(v as int)
    }

    proof fn before_irreflexive(a: u8) {
    }

    proof fn before_transitive(a: u8, b: u8, c: u8) {
    }

    proof fn before_total(a: u8, b: u8) {
    }

    proof fn text_injective(a: u8, b: u8) {
        lemma_decimal_injective(a as nat, b as nat);
    }

    fn rank(&self, other: &u8) -> (r: Rank) {
        if *self < *other {
            Rank::Before
        } else if *self == *other {
            Rank::Same
        } else {
            Rank::After
        }
    }

    fn copied(&self) -> (r: u8) {
        *self
    }

    fn to_text(&self) -> (r: String) {
        decimal_text(*self as u64)
    }

    fn to_json(&self) -> (r: Value) {
        unsigned_value(*self as u64)
    }
}

impl Key for u32 {
    open spec fn before(a: u32, b: u32) -> bool {
        a < b
    }

    open spec fn text(v: u32) -> Seq<char> {
        decimal(v as nat)
    }

    open spec fn json(v: u32) -> Json {
        Json::Number(v as int)
    }

    proof fn before_irreflexive(a: u32) {
    }

    proof fn before_transitive(a: u32, b: u32, c: u32) {
    }

    proof fn before_total(a: u32, b: u32) {
    }

    proof fn text_injective(a: u32, b: u32) {
        lemma_decimal_injective(a as nat, b as nat);
    }

    fn rank(&self, other: &u32) -> (r: Rank) {
        if *self < *other {
            Rank::Before
        } else if *self == *other {
            Rank::Same
        } else {
            Rank::After
        }
    }

    fn copied(&self) -> (r: u32) {
        *self
    }

    fn to_text(&self) -> (r: String) {
        decimal_text(*self as u64)
    }

    fn to_json(&self) -> (r: Value) {
        unsigned_value(*self as u64)
    }
}

impl Key for usize {
    open spec fn before(a: usize, b: usize) -> bool {
        a < b
    }

    open spec fn text(v: usize) -> Seq<char> {
        decimal(v as nat)
    }

    open spec fn json(v: usize) -> Json {
        Json::Number(v as int)
    }

    proof fn before_irreflexive(a: usize) {
    }

    proof fn before_transitive(a: usize, b: usize, c: usize) {
    }

    proof fn before_total(a: usize, b: usize) {
    }

    proof fn text_injective(a: usize, b: usize) {
        lemma_decimal_injective(a as nat, b as nat);
    }

    fn rank(&self, other: &usize) -> (r: Rank) {
        if *self < *other {
            Rank::Before
        } else if *self == *other {
            Rank::Same
        } else {
            Rank::After
        }
    }

    fn copied(&self) -> (r: usize) {
        *self
    }

    fn to_text(&self) -> (r: String) {
        decimal_text(*self as u64)
    }

    fn to_json(&self) -> (r: Value) {
        unsigned_value(*self as u64)
    }
}

/// Whether two texts part at `i`: they agree before it, and there the first one ends or has the
/// smaller character.
pub open spec fn parts_at(a: Seq<char>, b: Seq<char>, i: int) -> bool {
    &&& 0 <= i <= a.len()
    &&& i < b.len()
    &&& forall|j: int| 0 <= j < i ==> a[j] == b[j]
    &&& i < a.len() ==> (a[i] as int) < (b[i] as int)
}

/// A text stands before another exactly if they part somewhere with the smaller one first.
pub proof fn law_text_order(a: Seq<char>, b: Seq<char>)
    ensures
        text_before(a, b) <==> exists|i: int| #[trigger] parts_at(a, b, i),
    decreases a.len(),
{
    if b.len() > 0 && a.len() > 0 && a[0] == b[0] {
        let x = a.drop_first();
        let y = b.drop_first();
        law_text_order(x, y);
        if text_before(x, y) {
            let i = choose|i: int| #[trigger] parts_at(x, y, i);
            assert forall|j: int| 0 <= j < i + 1 implies a[j] == b[j] by {
                if j > 0 {
                    assert(x[j - 1] == y[j - 1]);
                }
            }
            assert(parts_at(a, b, i + 1));
        }
        if exists|i: int| #[trigger] parts_at(a, b, i) {
            let i = choose|i: int| #[trigger] parts_at(a, b, i);
            assert forall|j: int| 0 <= j < i - 1 implies x[j] == y[j] by {
                assert(a[j + 1] == b[j + 1]);
            }
            assert(parts_at(x, y, i - 1));
        }
    } else if b.len() > 0 {
        if a.len() == 0 {
            assert(parts_at(a, b, 0));
        } else if (a[0] as int) < (b[0] as int) {
            assert(parts_at(a, b, 0));
        }
        if exists|i: int| #[trigger] parts_at(a, b, i) {
            let i = choose|i: int| #[trigger] parts_at(a, b, i);
            if i > 0 {
                assert(a[0] == b[0]);
            }
        }
    }
}

/// A number in decimal is digits that stand for it, the first of which is a zero only for zero.
pub proof fn law_decimal(n: nat)
    ensures
        all_digits(decimal(n)),
        digits_value(decimal(n)) == n,
        n > 0 ==> decimal(n)[0] != '0',
    decreases n,
{
    let s = decimal(n);
    if n < 10 {
        assert(s.drop_last() =~= Seq::empty());
        assert(digits_value(s.drop_last()) == 0);
    } else {
        law_decimal(n / 10);
        assert(s.drop_last() =~= decimal(n / 10));
        assert(s[0] == decimal(n / 10)[0]);
        assert forall|i: int| 0 <= i < s.len() implies '0' <= #[trigger] s[i] <= '9' by {
            if i < s.len() - 1 {
                assert(s[i] == decimal(n / 10)[i]);
            }
        }
    }
}

/// Texts are themselves as text and in JSON. Numbers are ordered as numbers, are written in
/// decimal, and are numbers in JSON.
pub proof fn law_keys(s: Seq<char>, a: u8, b: u8, c: u32, d: u32, e: usize, f: usize)
    ensures
        <String as Key>::text(s) == s,
        <String as Key>::json(s) == Json::Text(s),
        <u8 as Key>::before(a, b) <==> a < b,
        <u8 as Key>::json(a) == Json::Number(a as int),
        digits_value(<u8 as Key>::text(a)) == a,
        <u32 as Key>::before(c, d) <==> c < d,
        <u32 as Key>::json(c) == Json::Number(c as int),
        digits_value(<u32 as Key>::text(c)) == c,
        <usize as Key>::before(e, f) <==> e < f,
        <usize as Key>::json(e) == Json::Number(e as int),
        digits_value(<usize as Key>::text(e)) == e,
        forall|t: Seq<char>| #[trigger] <String as Key>::before(s, t) <==> text_before(s, t),
{
    law_decimal(a as nat);
    law_decimal(c as nat);
    law_decimal(e as nat);
}

} // verus!
