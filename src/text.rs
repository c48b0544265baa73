use vstd::prelude::*;
use vstd::std_specs::iter::IteratorSpec;

verus! {

broadcast use vstd::string::group_string_axioms;

/// The characters of `s`, in order.
pub fn chars_of(s: &str) -> (v: Vec<char>)
    ensures
        v@ == s@,
{
    let mut it = s.chars();
    let mut v: Vec<char> = Vec::new();
    loop
        invariant
            it.obeys_prophetic_iter_laws(),
            v@ + it.remaining() == s@,
            it.decrease() is Some,
        ensures
            v@ == s@,
        decreases it.decrease()->0,
    {
        match it.next() {
            Some(c) => {
                v.push(c);
            },
            None => {
                assert(v@ + it.remaining() =~= v@);
                break;
            },
        }
    }
    v
}


/// Relies on `String::push`: appends one character at the end.
#[verifier::external_body]
fn push_char(s: &mut String, c: char)
    ensures
        final(s)@ == old(s)@.push(c),
{
    s.push(c);
}

/// The string made of the characters of `cs`.
pub fn string_of(cs: &Vec<char>) -> (s: String)
    ensures
        s@ == cs@,
{
    let mut s = String::new();
    let mut i: usize = 0;
    while i < cs.len()
        invariant
            i <= cs@.len(),
            s@ == cs@.take(i as int),
        decreases cs@.len() - i,
    {
        push_char(&mut s, cs[i]);
        assert(cs@.take(i + 1) =~= cs@.take(i as int).push(cs@[i as int]));
        i += 1;
    }
    assert(cs@.take(i as int) =~= cs@);
    s
}

/// The pieces of `s` between the colons, in order; never empty.
pub open spec fn split_fields(s: Seq<char>) -> Seq<Seq<char>>
    decreases s.len(),
{
    if s.len() == 0 {
        seq![Seq::empty()]
    } else {
        let rest = split_fields(s.drop_last());
        if s.last() == ':' {
            rest.push(Seq::empty())
        } else {
            rest.update(rest.len() - 1, rest.last().push(s.last()))
        }
    }
}

pub proof fn lemma_split_nonempty(s: Seq<char>)
    ensures
        split_fields(s).len() >= 1,
    decreases s.len(),
{
    if s.len() > 0 {
        lemma_split_nonempty(s.drop_last());
    }
}

/// Splits `cs` at each colon.
pub fn split(cs: &Vec<char>) -> (fields: Vec<Vec<char>>)
    ensures
        fields@.len() == split_fields(cs@).len(),
        forall|j: int| 0 <= j < fields@.len() ==> #[trigger] fields@[j]@ == split_fields(cs@)[j],
{
    let mut done: Vec<Vec<char>> = Vec::new();
    let mut cur: Vec<char> = Vec::new();
    let mut i: usize = 0;
    proof {
        assert(cs@.take(0) =~= Seq::<char>::empty());
    }
    while i < cs.len()
        invariant
            i <= cs@.len(),
            done@.len() + 1 == split_fields(cs@.take(i as int)).len(),
            forall|j: int| 0 <= j < done@.len() ==> #[trigger] done@[j]@ == split_fields(cs@.take(i as int))[j],
            cur@ == split_fields(cs@.take(i as int)).last(),
        decreases cs@.len() - i,
    {
        let c = cs[i];
        proof {
            assert(cs@.take(i + 1).drop_last() =~= cs@.take(i as int));
            lemma_split_nonempty(cs@.take(i as int));
        }
        if c == ':' {
            done.push(cur);
            cur = Vec::new();
        } else {
            cur.push(c);
        }
        i += 1;
    }
    proof {
        assert(cs@.take(i as int) =~= cs@);
    }
    done.push(cur);
    done
}

/// Whether `c` is a decimal digit.
pub open spec fn is_digit(c: char) -> bool {
    '0' <= c <= '9'
}

/// Whether `s` is a non-empty run of decimal digits.
pub open spec fn is_digits(s: Seq<char>) -> bool {
    s.len() > 0 && forall|i: int| 0 <= i < s.len() ==> is_digit(#[trigger] s[i])
}

/// The number that the digits of `s` spell.
pub open spec fn digits_value(s: Seq<char>) -> nat
    decreases s.len(),
{
    if s.len() == 0 {
        0
    } else {
        digits_value(s.drop_last()) * 10 + (s.last() as nat - '0' as nat) as nat
    }
}

proof fn lemma_digits_grow(s: Seq<char>, j: int, k: int)
    requires
        0 <= j <= k <= s.len(),
        forall|i: int| 0 <= i < s.len() ==> is_digit(#[trigger] s[i]),
    ensures
        digits_value(s.take(j)) <= digits_value(s.take(k)),
    decreases k - j,
{
    if j < k {
        lemma_digits_grow(s, j, k - 1);
        assert(s.take(k).drop_last() =~= s.take(k - 1));
    }
}

/// The number that `f` spells when it is a run of digits of value at most
/// `max`; `None` otherwise.
pub fn parse_number(f: &Vec<char>, max: u64) -> (r: Option<u64>)
    ensures
        r is Some <==> is_digits(f@) && digits_value(f@) <= max,
        r matches Some(v) ==> v == digits_value(f@),
{
    if f.len() == 0 {
        return None;
    }
    let mut v: u64 = 0;
    let mut i: usize = 0;
    proof {
        assert(f@.take(0) =~= Seq::<char>::empty());
    }
    while i < f.len()
        invariant
            i <= f@.len(),
            f@.len() > 0,
            forall|k: int| 0 <= k < i ==> is_digit(#[trigger] f@[k]),
            v == digits_value(f@.take(i as int)),
            v <= max,
        decreases f@.len() - i,
    {
        let c = f[i];
        if !('0' <= c && c <= '9') {
            return None;
        }
        let d = (c as u32 - '0' as u32) as u64;
        proof {
            assert(f@.take(i + 1).drop_last() =~= f@.take(i as int));
        }
        if d > max || v > (max - d) / 10 {
            proof {
                assert forall|k: int| 0 <= k < i + 1 implies is_digit(#[trigger] f@.take(i + 1)[k]) by {}
                assert(digits_value(f@.take(i + 1)) > max);
                if is_digits(f@) {
                    lemma_digits_grow(f@, i + 1, f@.len() as int);
                    assert(f@.take(f@.len() as int) =~= f@);
                }
            }
            return None;
        }
        v = v * 10 + d;
        i += 1;
    }
    proof {
        assert(f@.take(i as int) =~= f@);
    }
    Some(v)
}

/// Whether `c` is a sign.
pub open spec fn is_sign(c: char) -> bool {
    c == '-' || c == '+'
}

/// Whether `s` is a decimal number: an optional sign, then digits and at most
/// one point, with at least one digit, then optionally an exponent (`e` or
/// `E`, an optional sign, and digits).
pub open spec fn is_decimal(s: Seq<char>) -> bool {
    is_unsigned_decimal(if s.len() > 0 && is_sign(s[0]) { s.skip(1) } else { s }, false, false)
}

/// Whether `b` is an exponent's digits, after an optional sign.
pub open spec fn is_exponent(b: Seq<char>) -> bool {
    if b.len() > 0 && is_sign(b[0]) {
        is_digits(b.skip(1))
    } else {
        is_digits(b)
    }
}

/// Whether `b`, read after a part that held a point iff `dot` and a digit iff
/// `digit`, completes a decimal.
pub open spec fn is_unsigned_decimal(b: Seq<char>, dot: bool, digit: bool) -> bool
    decreases b.len(),
{
    if b.len() == 0 {
        digit
    } else if b[0] == '.' {
        !dot && is_unsigned_decimal(b.skip(1), true, digit)
    } else if is_digit(b[0]) {
        is_unsigned_decimal(b.skip(1), dot, true)
    } else if b[0] == 'e' || b[0] == 'E' {
        digit && is_exponent(b.skip(1))
    } else {
        false
    }
}

/// Checks that the characters of `f` from `start` on are digits, and at least one.
fn check_digits(f: &Vec<char>, start: usize) -> (b: bool)
    requires
        start <= f@.len(),
    ensures
        b == is_digits(f@.skip(start as int)),
{
    if start == f.len() {
        return false;
    }
    let mut i: usize = start;
    while i < f.len()
        invariant
            start <= i <= f@.len(),
            start < f@.len(),
            forall|k: int| start <= k < i ==> is_digit(#[trigger] f@[k]),
        decreases f@.len() - i,
    {
        if !('0' <= f[i] && f[i] <= '9') {
            assert(!is_digit(f@.skip(start as int)[i - start]));
            return false;
        }
        i += 1;
    }
    assert forall|k: int| 0 <= k < f@.skip(start as int).len() implies is_digit(#[trigger] f@.skip(start as int)[k]) by {
        assert(f@.skip(start as int)[k] == f@[k + start]);
    }
    true
}

/// Checks that `f` is a decimal number.
pub fn check_decimal(f: &Vec<char>) -> (b: bool)
    ensures
        b == is_decimal(f@),
{
    let start: usize = if f.len() > 0 && (f[0] == '-' || f[0] == '+') { 1 } else { 0 };
    assert(f@.skip(start as int) =~= (if f@.len() > 0 && is_sign(f@[0]) { f@.skip(1) } else { f@ }));
    let mut seen_dot = false;
    let mut seen_digit = false;
    let mut i: usize = start;
    while i < f.len()
        invariant
            start <= i <= f@.len(),
            is_decimal(f@) == is_unsigned_decimal(f@.skip(i as int), seen_dot, seen_digit),
        decreases f@.len() - i,
    {
        let c = f[i];
        assert(f@.skip(i as int).skip(1) =~= f@.skip(i + 1));
        if c == '.' {
            if seen_dot {
                return false;
            }
            seen_dot = true;
        } else if '0' <= c && c <= '9' {
            seen_digit = true;
        } else if c == 'e' || c == 'E' {
            if !seen_digit {
                return false;
            }
            let j = i + 1;
            if j < f.len() && (f[j] == '-' || f[j] == '+') {
                assert(f@.skip(j as int).skip(1) =~= f@.skip(j + 1));
                return check_digits(f, j + 1);
            }
            return check_digits(f, j);
        } else {
            return false;
        }
        i += 1;
    }
    seen_digit
}

} // verus!
