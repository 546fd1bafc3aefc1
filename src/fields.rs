use vstd::prelude::*;

verus! {

pub const SPACE: u8 = 32;

pub const MINUS: u8 = 45;

pub const PLUS: u8 = 43;

/// The finished pieces of `s` cut at each `d`, and the piece still open.
pub open spec fn split_from(s: Seq<u8>, d: u8) -> (Seq<Seq<u8>>, Seq<u8>)
    decreases s.len(),
{
    if s.len() == 0 {
        (Seq::empty(), Seq::empty())
    } else {
        let p = split_from(s.drop_last(), d);
        if s.last() == d {
            (p.0.push(p.1), Seq::empty())
        } else {
            (p.0, p.1.push(s.last()))
        }
    }
}

/// `s` cut at every `d`: always at least one piece, empty pieces included.
pub open spec fn split_bytes(s: Seq<u8>, d: u8) -> Seq<Seq<u8>> {
    let p = split_from(s, d);
    p.0.push(p.1)
}

/// The contents of each byte string.
pub open spec fn byte_views(v: Seq<Vec<u8>>) -> Seq<Seq<u8>> {
    v.map_values(|l: Vec<u8>| l@)
}

/// `s` without any of its spaces.
pub open spec fn without_spaces(s: Seq<u8>) -> Seq<u8>
    decreases s.len(),
{
    if s.len() == 0 {
        Seq::empty()
    } else if s.last() == SPACE {
        without_spaces(s.drop_last())
    } else {
        without_spaces(s.drop_last()).push(s.last())
    }
}

pub open spec fn is_digit(b: u8) -> bool {
    48 <= b <= 57
}

pub open spec fn all_digits(s: Seq<u8>) -> bool {
    forall|i: int| 0 <= i < s.len() ==> is_digit(#[trigger] s[i])
}

/// The value of a string of decimal digits.
pub open spec fn digits_value(s: Seq<u8>) -> int
    decreases s.len(),
{
    if s.len() == 0 {
        0
    } else {
        digits_value(s.drop_last()) * 10 + (s.last() - 48)
    }
}

/// The digits of a decimal integer, after an optional sign.
pub open spec fn unsigned_part(s: Seq<u8>) -> Seq<u8> {
    if s.len() > 0 && (s[0] == MINUS || s[0] == PLUS) {
        s.drop_first()
    } else {
        s
    }
}

/// The value of a decimal integer: an optional `+` or `-`, then at least one digit.
pub open spec fn decimal_value(s: Seq<u8>) -> Option<int> {
    let body = unsigned_part(s);
    if body.len() > 0 && all_digits(body) {
        if s[0] == MINUS {
            Some(-digits_value(body))
        } else {
            Some(digits_value(body))
        }
    } else {
        None
    }
}

/// The 64-bit integer that `s` writes in decimal, if it writes one in range.
pub open spec fn i64_of_text(s: Seq<u8>) -> Option<i64> {
    match decimal_value(s) {
        Some(v) => if i64::MIN <= v <= i64::MAX {
            Some(v as i64)
        } else {
            None
        },
        None => None,
    }
}

proof fn lemma_digits_nonneg(s: Seq<u8>)
    requires
        all_digits(s),
    ensures
        digits_value(s) >= 0,
    decreases s.len(),
{
    if s.len() > 0 {
        lemma_digits_nonneg(s.drop_last());
    }
}

/// Appending digits never lowers the value.
proof fn lemma_digits_monotone(s: Seq<u8>, k: int)
    requires
        all_digits(s),
        0 <= k <= s.len(),
    ensures
        digits_value(s.subrange(0, k)) <= digits_value(s),
    decreases s.len(),
{
    if k < s.len() {
        assert(s.drop_last() =~= s.subrange(0, s.len() - 1));
        lemma_digits_monotone(s.drop_last(), k);
        assert(s.drop_last().subrange(0, k) =~= s.subrange(0, k));
        lemma_digits_nonneg(s.drop_last());
    } else {
        assert(s.subrange(0, k) =~= s);
    }
}

/// Compares two byte strings.
pub fn same_bytes(a: &[u8], b: &[u8]) -> (r: bool)
    ensures
        r == (a@ == b@),
{
    if a.len() != b.len() {
        return false;
    }
    let mut i: usize = 0;
    while i < a.len()
        invariant
            a@.len() == b@.len(),
            i <= a@.len(),
            forall|j: int| 0 <= j < i ==> a@[j] == b@[j],
        decreases a.len() - i,
    {
        if a[i] != b[i] {
            return false;
        }
        i += 1;
    }
    assert(a@ =~= b@);
    true
}

/// Cuts `s` at every occurrence of `d`.
pub fn split(s: &[u8], d: u8) -> (r: Vec<Vec<u8>>)
    ensures
        byte_views(r@) == split_bytes(s@, d),
{
    let mut done: Vec<Vec<u8>> = Vec::new();
    let mut cur: Vec<u8> = Vec::new();
    let mut i: usize = 0;
    while i < s.len()
        invariant
            i <= s@.len(),
            (byte_views(done@), cur@) == split_from(s@.subrange(0, i as int), d),
        decreases s.len() - i,
    {
        let ghost before = (byte_views(done@), cur@);
        assert(s@.subrange(0, i + 1).drop_last() =~= s@.subrange(0, i as int));
        if s[i] == d {
            let mut piece: Vec<u8> = Vec::new();
            std::mem::swap(&mut piece, &mut cur);
            done.push(piece);
            assert(byte_views(done@) =~= before.0.push(before.1));
        } else {
            cur.push(s[i]);
        }
        i += 1;
    }
    assert(s@.subrange(0, s@.len() as int) =~= s@);
    let ghost before = (byte_views(done@), cur@);
    done.push(cur);
    assert(byte_views(done@) =~= before.0.push(before.1));
    done
}

/// Removes every space, as printers put them between groups of digits.
pub fn strip_spaces(s: &[u8]) -> (r: Vec<u8>)
    ensures
        r@ == without_spaces(s@),
{
    let mut out: Vec<u8> = Vec::new();
    let mut i: usize = 0;
    while i < s.len()
        invariant
            i <= s@.len(),
            out@ == without_spaces(s@.subrange(0, i as int)),
        decreases s.len() - i,
    {
        assert(s@.subrange(0, i + 1).drop_last() =~= s@.subrange(0, i as int));
        if s[i] != SPACE {
            out.push(s[i]);
        }
        i += 1;
    }
    assert(s@.subrange(0, s@.len() as int) =~= s@);
    out
}

/// Reads a decimal 64-bit integer: an optional sign, then digits only.
pub fn parse_i64(s: &[u8]) -> (r: Option<i64>)
    ensures
        r == i64_of_text(s@),
{
    let n = s.len();
    if n == 0 {
        return None;
    }
    let neg = s[0] == MINUS;
    let start: usize = if s[0] == MINUS || s[0] == PLUS {
        1
    } else {
        0
    };
    let ghost body = unsigned_part(s@);
    assert(body =~= s@.subrange(start as int, n as int));
    if start == n {
        return None;
    }
    let mut acc: u64 = 0;
    let mut i: usize = start;
    while i < n
        invariant
            n == s@.len(),
            start <= i <= n,
            body == s@.subrange(start as int, n as int),
            body == unsigned_part(s@),
            neg == (s@[0] == MINUS),
            all_digits(body.subrange(0, i - start)),
            acc == digits_value(body.subrange(0, i - start)),
            acc <= 9223372036854775808u64,
        decreases n - i,
    {
        let b = s[i];
        assert(body[i - start] == b);
        if b < 48 || b > 57 {
            assert(!all_digits(body));
            assert(decimal_value(s@) is None);
            return None;
        }
        let next: u128 = acc as u128 * 10 + (b - 48) as u128;
        assert(body.subrange(0, i + 1 - start).drop_last() =~= body.subrange(0, i - start));
        assert(next == digits_value(body.subrange(0, i + 1 - start)));
        if next > 9223372036854775808u128 {
            proof {
                if all_digits(body) {
                    lemma_digits_monotone(body, i + 1 - start);
                    assert(digits_value(body) > 9223372036854775808);
                }
                assert(decimal_value(s@) is None || decimal_value(s@)->0 > i64::MAX
                    || decimal_value(s@)->0 < i64::MIN);
            }
            return None;
        }
        acc = next as u64;
        i += 1;
    }
    assert(body.subrange(0, n - start) =~= body);
    if neg {
        if acc == 9223372036854775808u64 {
            Some(i64::MIN)
        } else {
            Some(-(acc as i64))
        }
    } else if acc > 9223372036854775807u64 {
        None
    } else {
        Some(acc as i64)
    }
}

/// Reads a count as the devices print it, spaces between digit groups allowed.
pub fn parse_count(s: &[u8]) -> (r: Option<i64>)
    ensures
        r == i64_of_text(without_spaces(s@)),
{
    let packed = strip_spaces(s);
    parse_i64(packed.as_slice())
}

} // verus!
