use vstd::prelude::*;
use vstd::string::StrSliceExecFns;

verus! {

/// `c` is an ASCII decimal digit.
pub open spec fn is_digit(c: char) -> bool {
    '0' <= c && c <= '9'
}

/// Value of a non-empty run of decimal digits, most significant first.
pub open spec fn digits_value(s: Seq<char>) -> int
    decreases s.len(),
{
    if s.len() == 0 {
        0
    } else {
        digits_value(s.drop_last()) * 10 + ((s.last() as u32) - ('0' as u32))
    }
}

/// The value of `s` when it is one or more digits and nothing else.
pub open spec fn unsigned_value(s: Seq<char>) -> Option<int> {
    if s.len() > 0 && (forall|i: int| 0 <= i < s.len() ==> is_digit(#[trigger] s[i])) {
        Some(digits_value(s))
    } else {
        None
    }
}

/// The integer that the text `s` denotes: an optional `+` (or `-`, where
/// `signed`), then one or more decimal digits, and nothing else.
pub open spec fn decimal_value(s: Seq<char>, signed: bool) -> Option<int> {
    if s.len() > 0 && s[0] == '+' {
        unsigned_value(s.drop_first())
    } else if signed && s.len() > 0 && s[0] == '-' {
        match unsigned_value(s.drop_first()) {
            Some(v) => Some(-v),
            None => None,
        }
    } else {
        unsigned_value(s)
    }
}

/// What `s` parses to as an `i32`: its decimal value, if that is in range.
pub open spec fn i32_of(s: Seq<char>) -> Option<i32> {
    match decimal_value(s, true) {
        Some(v) => if i32::MIN <= v <= i32::MAX {
            Some(v as i32)
        } else {
            None
        },
        None => None,
    }
}

/// What `s` parses to as a `usize`: its decimal value, if that is in range.
pub open spec fn usize_of(s: Seq<char>) -> Option<usize> {
    match decimal_value(s, false) {
        Some(v) => if 0 <= v <= usize::MAX {
            Some(v as usize)
        } else {
            None
        },
        None => None,
    }
}

/// Relies on `<i32 as FromStr>::from_str`: it accepts an optional `+` or `-`
/// followed by decimal digits only, and fails on an out-of-range value.
#[verifier::external_body]
fn parse_i32(s: &str) -> (r: Option<i32>)
    ensures
        r == i32_of(s@),
{
    s.parse::<i32>().ok()
}

/// Relies on `<usize as FromStr>::from_str`: it accepts an optional `+`
/// followed by decimal digits only, and fails on an out-of-range value.
#[verifier::external_body]
fn parse_usize(s: &str) -> (r: Option<usize>)
    ensures
        r == usize_of(s@),
{
    s.parse::<usize>().ok()
}

/// An integer type that can be read from its decimal text.
pub trait Decimal: Sized {
    /// The value that the text `s` denotes, if any.
    spec fn from_decimal(s: Seq<char>) -> Option<Self>;

    /// Reads the whole of `s` as a value; trailing text is a failure.
    fn parse_decimal(s: &str) -> (r: Option<Self>)
        ensures
            r == Self::from_decimal(s@),
    ;
}

impl Decimal for i32 {
    open spec fn from_decimal(s: Seq<char>) -> Option<i32> {
        i32_of(s)
    }

    fn parse_decimal(s: &str) -> (r: Option<i32>) {
        parse_i32(s)
    }
}

impl Decimal for usize {
    open spec fn from_decimal(s: Seq<char>) -> Option<usize> {
        usize_of(s)
    }

    fn parse_decimal(s: &str) -> (r: Option<usize>) {
        parse_usize(s)
    }
}

/// `i` is the position of the first `sep` in `s`.
pub open spec fn first_at(s: Seq<char>, sep: char, i: int) -> bool {
    &&& 0 <= i < s.len()
    &&& s[i] == sep
    &&& forall|j: int| 0 <= j < i ==> s[j] != sep
}

/// The text before and the text after the first `sep` in `s`, if there is one.
pub open spec fn halves(s: Seq<char>, sep: char) -> Option<(Seq<char>, Seq<char>)> {
    if exists|i: int| first_at(s, sep, i) {
        let i = choose|i: int| first_at(s, sep, i);
        Some((s.subrange(0, i), s.subrange(i + 1, s.len() as int)))
    } else {
        None
    }
}

/// The pair that `s` denotes as two values of `T` around the first `sep`.
pub open spec fn pair_of<T: Decimal>(s: Seq<char>, sep: char) -> Option<(T, T)> {
    match halves(s, sep) {
        Some(h) => match (T::from_decimal(h.0), T::from_decimal(h.1)) {
            (Some(a), Some(b)) => Some((a, b)),
            _ => None,
        },
        None => None,
    }
}

proof fn lemma_first_at_unique(s: Seq<char>, sep: char, i: int, k: int)
    requires
        first_at(s, sep, i),
        first_at(s, sep, k),
    ensures
        i == k,
{
}

/// Splits `s` at the first occurrence of `separator`: the text before it and
/// the text after it, or `None` where `separator` does not occur.
pub fn split_pair(s: &str, separator: char) -> (r: Option<(&str, &str)>)
    ensures
        match r {
            Some(p) => halves(s@, separator) == Some((p.0@, p.1@)),
            None => halves(s@, separator) is None,
        },
{
    let n = s.unicode_len();
    let mut i: usize = 0;
    while i < n
        invariant
            n == s@.len(),
            i <= n,
            forall|j: int| 0 <= j < i ==> s@[j] != separator,
        decreases n - i,
    {
        if s.get_char(i) == separator {
            let left = s.substring_char(0, i);
            let right = s.substring_char(i + 1, n);
            proof {
                assert(first_at(s@, separator, i as int));
                let k = choose|k: int| first_at(s@, separator, k);
                lemma_first_at_unique(s@, separator, i as int, k);
            }
            return Some((left, right));
        }
        i = i + 1;
    }
    assert(!exists|k: int| first_at(s@, separator, k));
    None
}

/// Reads `s` as two values of `T` around the first `separator`. Both sides
/// must be whole numbers of `T`: an empty side, trailing text or a missing
/// separator gives `None`.
pub fn pair_analyze<T: Decimal>(s: &str, separator: char) -> (r: Option<(T, T)>)
    ensures
        r == pair_of::<T>(s@, separator),
{
    match split_pair(s, separator) {
        Some((left, right)) => match (T::parse_decimal(left), T::parse_decimal(right)) {
            (Some(a), Some(b)) => Some((a, b)),
            _ => None,
        },
        None => None,
    }
}

} // verus!
