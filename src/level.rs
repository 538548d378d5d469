use vstd::prelude::*;

verus! {

/// ASCII whitespace, as trimmed from a brightness file before it is read.
pub open spec fn is_space(b: u8) -> bool {
    b == 32 || b == 9 || b == 10 || b == 11 || b == 12 || b == 13
}

pub open spec fn is_digit(b: u8) -> bool {
    48 <= b <= 57
}

/// The text with its leading whitespace removed.
pub open spec fn trim_start(s: Seq<u8>) -> Seq<u8>
    decreases s.len(),
{
    if s.len() > 0 && is_space(s[0]) {
        trim_start(s.drop_first())
    } else {
        s
    }
}

/// The text with its trailing whitespace removed.
pub open spec fn trim_end(s: Seq<u8>) -> Seq<u8>
    decreases s.len(),
{
    if s.len() > 0 && is_space(s.last()) {
        trim_end(s.drop_last())
    } else {
        s
    }
}

pub open spec fn trim(s: Seq<u8>) -> Seq<u8> {
    trim_end(trim_start(s))
}

pub open spec fn all_digits(t: Seq<u8>) -> bool {
    forall|i: int| 0 <= i < t.len() ==> is_digit(#[trigger] t[i])
}

/// The number that a string of decimal digits denotes.
pub open spec fn digits_value(t: Seq<u8>) -> nat
    decreases t.len(),
{
    if t.len() == 0 {
        0
    } else {
        digits_value(t.drop_last()) * 10 + (t.last() - 48) as nat
    }
}

/// Why the text of a brightness file does not give a level.
#[derive(Clone, Copy, Debug, PartialEq, Eq, Structural)]
pub enum LevelError {
    /// Nothing but whitespace.
    Empty,
    /// Something other than decimal digits once trimmed.
    NotANumber,
    /// Digits whose value does not fit in 64 bits.
    TooLarge,
}

/// What reading the text `s` of a brightness file gives.
pub open spec fn level_of(s: Seq<u8>) -> Result<u64, LevelError> {
    let t = trim(s);
    if t.len() == 0 {
        Err(LevelError::Empty)
    } else if !all_digits(t) {
        Err(LevelError::NotANumber)
    } else if digits_value(t) > u64::MAX {
        Err(LevelError::TooLarge)
    } else {
        Ok(digits_value(t) as u64)
    }
}

proof fn lemma_prefix_value_le(t: Seq<u8>, k: int)
    requires
        0 <= k <= t.len(),
        all_digits(t),
    ensures
        digits_value(t.subrange(0, k)) <= digits_value(t),
    decreases t.len(),
{
    if k < t.len() {
        let u = t.drop_last();
        assert(all_digits(u)) by {
            assert forall|i: int| 0 <= i < u.len() implies is_digit(#[trigger] u[i]) by {
                assert(u[i] == t[i]);
            }
        }
        lemma_prefix_value_le(u, k);
        assert(u.subrange(0, k) =~= t.subrange(0, k));
    } else {
        assert(t.subrange(0, k) =~= t);
    }
}

/// Reads a brightness level from the text of a brightness file: whitespace
/// around it is ignored, and what remains must be a decimal number.
pub fn parse_level(s: &[u8]) -> (r: Result<u64, LevelError>)
    ensures
        r == level_of(s@),
{
    let n = s.len();
    let mut i: usize = 0;
    assert(s@.subrange(0, n as int) =~= s@);
    while i < n && is_space_byte(s[i])
        invariant
            0 <= i <= n == s@.len(),
            trim_start(s@) == trim_start(s@.subrange(i as int, n as int)),
        decreases n - i,
    {
        assert(s@.subrange(i as int, n as int).drop_first() =~= s@.subrange(
            i + 1,
            n as int,
        ));
        i = i + 1;
    }
    let ghost u = s@.subrange(i as int, n as int);
    assert(trim_start(s@) == u);
    let mut j: usize = n;
    while j > i && is_space_byte(s[j - 1])
        invariant
            i <= j <= n == s@.len(),
            u == s@.subrange(i as int, n as int),
            trim_end(u) == trim_end(s@.subrange(i as int, j as int)),
        decreases j,
    {
        assert(s@.subrange(i as int, j as int).drop_last() =~= s@.subrange(
            i as int,
            j - 1,
        ));
        j = j - 1;
    }
    let ghost t = s@.subrange(i as int, j as int);
    assert(trim(s@) == t);
    if i == j {
        return Err(LevelError::Empty);
    }
    let mut k: usize = i;
    while k < j
        invariant
            i <= k <= j <= n == s@.len(),
            t == s@.subrange(i as int, j as int),
            trim(s@) == t,
            i < j,
            forall|m: int| 0 <= m < k - i ==> is_digit(#[trigger] t[m]),
        decreases j - k,
    {
        assert(t[k - i] == s@[k as int]);
        if !is_digit_byte(s[k]) {
            assert(!is_digit(t[k - i]));
            assert(!all_digits(t));
            return Err(LevelError::NotANumber);
        }
        k = k + 1;
    }
    assert(all_digits(t));
    let mut acc: u64 = 0;
    let mut k: usize = i;
    while k < j
        invariant
            i <= k <= j <= n == s@.len(),
            t == s@.subrange(i as int, j as int),
            trim(s@) == t,
            i < j,
            all_digits(t),
            acc as nat == digits_value(t.subrange(0, k - i)),
        decreases j - k,
    {
        assert(t[k - i] == s@[k as int]);
        assert(is_digit(t[k - i]));
        let d = (s[k] - 48u8) as u64;
        let ghost p = t.subrange(0, k - i + 1);
        assert(p.drop_last() =~= t.subrange(0, k - i));
        assert(p.last() == s@[k as int]);
        assert(digits_value(p) == acc * 10 + d);
        if acc > (u64::MAX - d) / 10 {
            assert(digits_value(p) > u64::MAX) by (nonlinear_arith)
                requires
                    acc > (u64::MAX - d) / 10,
                    digits_value(p) == acc * 10 + d,
                    d <= 9,
            ;
            proof {
                lemma_prefix_value_le(t, k - i + 1);
            }

            return Err(LevelError::TooLarge);
        }
        assert(acc * 10 + d <= u64::MAX) by (nonlinear_arith)
            requires
                acc <= (u64::MAX - d) / 10,
                d <= 9,
        ;
        acc = acc * 10 + d;
        k = k + 1;
    }
    assert(t.subrange(0, j - i) =~= t);
    Ok(acc)
}

fn is_space_byte(b: u8) -> (r: bool)
    ensures
        r == is_space(b),
{
    b == 32 || b == 9 || b == 10 || b == 11 || b == 12 || b == 13
}

fn is_digit_byte(b: u8) -> (r: bool)
    ensures
        r == is_digit(b),
{
    48 <= b && b <= 57
}

} // verus!
