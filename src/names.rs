//! Names of page files: `.dp.data.maxi.<n>`, with `<n>` the decimal
//! sequence number of the page, and what a directory listing says about the
//! pages already on disk.
use vstd::prelude::*;

verus! {

/// The fixed stem `.dp.data.maxi` of every page file name.
pub open spec fn stem() -> Seq<u8> {
    seq![46u8, 100u8, 112u8, 46u8, 100u8, 97u8, 116u8, 97u8, 46u8, 109u8, 97u8, 120u8, 105u8]
}

/// The stem followed by the dot before the sequence number.
pub open spec fn stem_dot() -> Seq<u8> {
    stem().push(46u8)
}

/// An ASCII decimal digit.
pub open spec fn is_digit(b: u8) -> bool {
    48 <= b <= 57
}

/// The value of a string of decimal digits.
pub open spec fn digits_value(s: Seq<u8>) -> int
    decreases s.len(),
{
    if s.len() == 0 {
        0
    } else {
        digits_value(s.drop_last()) * 10 + (s.last() - 48)
    }
}

/// The decimal digits of `n`, without leading zeros.
pub open spec fn decimal(n: nat) -> Seq<u8>
    decreases n,
{
    if n < 10 {
        seq![(48 + n) as u8]
    } else {
        decimal(n / 10).push((48 + n % 10) as u8)
    }
}

/// The file name of page `seq`.
pub open spec fn page_name(seq: nat) -> Seq<u8> {
    stem_dot() + decimal(seq)
}

/// The sequence number that file name `name` gives a page, if it is a page
/// file name: the stem, a dot, then one or more decimal digits.
pub open spec fn page_seq_of(name: Seq<u8>) -> Option<int> {
    let k = stem_dot().len() as int;
    if name.len() > k && name.subrange(0, k) == stem_dot() && (forall|i: int|
        k <= i < name.len() ==> is_digit(#[trigger] name[i])) {
        Some(digits_value(name.subrange(k, name.len() as int)))
    } else {
        None
    }
}

/// The sequence number of a page file name, where it fits a `usize`.
pub open spec fn listed_seq(name: Seq<u8>) -> Option<int> {
    match page_seq_of(name) {
        Some(v) => if v <= usize::MAX {
            Some(v)
        } else {
            None
        },
        None => None,
    }
}

/// How many of `names` are page file names.
pub open spec fn listed_count(names: Seq<Seq<u8>>) -> nat
    decreases names.len(),
{
    if names.len() == 0 {
        0
    } else {
        listed_count(names.drop_last()) + if listed_seq(names.last()) is Some {
            1nat
        } else {
            0nat
        }
    }
}

/// The largest sequence number among `names`, `0` if none is a page file
/// name.
pub open spec fn listed_max(names: Seq<Seq<u8>>) -> int
    decreases names.len(),
{
    if names.len() == 0 {
        0
    } else {
        let rest = listed_max(names.drop_last());
        match listed_seq(names.last()) {
            Some(v) => if v > rest {
                v
            } else {
                rest
            },
            None => rest,
        }
    }
}

/// The window of pages a store opens with: the `count` pages up to
/// `max_seq` (never below `0`), or page `0` alone when there are none.
pub open spec fn opening_window(count: int, max_seq: int) -> (int, int) {
    if count == 0 {
        (0, 0)
    } else if max_seq - count + 1 > 0 {
        (max_seq - count + 1, max_seq)
    } else {
        (0, max_seq)
    }
}

/// The bytes of the stem and the dot.
fn stem_dot_bytes() -> (r: Vec<u8>)
    ensures
        r@ == stem_dot(),
{
    let r = vec![46u8, 100u8, 112u8, 46u8, 100u8, 97u8, 116u8, 97u8, 46u8, 109u8, 97u8, 120u8, 105u8, 46u8];
    assert(r@ =~= stem_dot());
    r
}

/// Appends the decimal digits of `n` to `out`.
fn push_decimal(out: &mut Vec<u8>, n: usize)
    ensures
        final(out)@ == old(out)@ + decimal(n as nat),
    decreases n,
{
    if n >= 10 {
        push_decimal(out, n / 10);
    }
    out.push(48u8 + (n % 10) as u8);
    assert(final(out)@ =~= old(out)@ + decimal(n as nat));
}

/// The file name of page `seq`.
pub fn page_file_name(seq: usize) -> (r: Vec<u8>)
    ensures
        r@ == page_name(seq as nat),
{
    let mut r = stem_dot_bytes();
    push_decimal(&mut r, seq);
    r
}

proof fn lemma_digits_monotone(s: Seq<u8>, j: int)
    requires
        0 <= j <= s.len(),
        forall|i: int| 0 <= i < s.len() ==> is_digit(#[trigger] s[i]),
    ensures
        digits_value(s.subrange(0, j)) <= digits_value(s),
        0 <= digits_value(s.subrange(0, j)),
    decreases s.len(),
{
    if j < s.len() {
        assert(s.drop_last().subrange(0, j) =~= s.subrange(0, j));
        lemma_digits_monotone(s.drop_last(), j);
        lemma_digits_monotone(s.drop_last(), s.len() - 1);
        assert(s.drop_last().subrange(0, s.len() - 1) =~= s.drop_last());
    } else {
        assert(s.subrange(0, j) =~= s);
        if s.len() > 0 {
            lemma_digits_monotone(s.drop_last(), s.len() - 1);
            assert(s.drop_last().subrange(0, s.len() - 1) =~= s.drop_last());
        }
    }
}

/// The sequence number of page file name `name`, or `None` if it is not one
/// or its number does not fit a `usize`.
pub fn parse_page_name(name: &[u8]) -> (r: Option<usize>)
    ensures
        match r {
            Some(v) => listed_seq(name@) == Some(v as int),
            None => listed_seq(name@) is None,
        },
{
    let prefix = stem_dot_bytes();
    let k = prefix.len();
    if name.len() <= k {
        return None;
    }
    let mut i: usize = 0;
    while i < k
        invariant
            0 <= i <= k,
            k == stem_dot().len(),
            prefix@ == stem_dot(),
            name@.len() > k,
            forall|j: int| 0 <= j < i ==> name@[j] == prefix@[j],
        decreases k - i,
    {
        if name[i] != prefix[i] {
            assert(name@.subrange(0, k as int)[i as int] != stem_dot()[i as int]);
            return None;
        }
        i = i + 1;
    }
    assert(name@.subrange(0, k as int) =~= stem_dot());
    let ghost digits = name@.subrange(k as int, name@.len() as int);
    let mut value: usize = 0;
    let mut overflow = false;
    let mut p: usize = k;
    while p < name.len()
        invariant
            k <= p <= name@.len(),
            k == stem_dot().len(),
            digits == name@.subrange(k as int, name@.len() as int),
            forall|j: int| k <= j < p ==> is_digit(#[trigger] name@[j]),
            !overflow ==> value == digits_value(digits.subrange(0, p - k)),
            overflow ==> digits_value(digits.subrange(0, p - k)) > usize::MAX,
        decreases name@.len() - p,
    {
        let b = name[p];
        if b < 48u8 || b > 57u8 {
            return None;
        }
        let d = (b - 48u8) as usize;
        assert(digits.subrange(0, p + 1 - k).drop_last() =~= digits.subrange(0, p - k));
        if overflow || value > (usize::MAX - d) / 10 {
            if !overflow {
                assert(value * 10 + d > usize::MAX) by (nonlinear_arith)
                    requires
                        value > (usize::MAX - d) / 10,
                        d <= 9,
                ;
            } else {
                proof {
                    lemma_digits_monotone(digits.subrange(0, p - k), 0);
                }
                assert(digits_value(digits.subrange(0, p - k)) * 10 + d > usize::MAX)
                    by (nonlinear_arith)
                    requires
                        digits_value(digits.subrange(0, p - k)) > usize::MAX,
                        d >= 0,
                ;
            }
            overflow = true;
        } else {
            assert(value * 10 + d <= usize::MAX) by (nonlinear_arith)
                requires
                    value <= (usize::MAX - d) / 10,
                    d <= 9,
            ;
            value = value * 10 + d;
        }
        p = p + 1;
    }
    assert(digits.subrange(0, name@.len() - k) =~= digits);
    if overflow {
        None
    } else {
        Some(value)
    }
}

/// What a directory listing says about the pages on disk: how many page
/// files it holds and the largest sequence number among them (`0` if none).
pub fn scan_page_names(names: &Vec<Vec<u8>>) -> (r: (usize, usize))
    ensures
        r.0 == listed_count(names@.map_values(|n: Vec<u8>| n@)),
        r.1 == listed_max(names@.map_values(|n: Vec<u8>| n@)),
{
    let ghost views = names@.map_values(|n: Vec<u8>| n@);
    let mut count: usize = 0;
    let mut max_seq: usize = 0;
    let mut i: usize = 0;
    while i < names.len()
        invariant
            0 <= i <= names@.len(),
            views == names@.map_values(|n: Vec<u8>| n@),
            count == listed_count(views.subrange(0, i as int)),
            max_seq == listed_max(views.subrange(0, i as int)),
            count <= i,
        decreases names@.len() - i,
    {
        let parsed = parse_page_name(names[i].as_slice());
        assert(views.subrange(0, i + 1).drop_last() =~= views.subrange(0, i as int));
        assert(views.subrange(0, i + 1).last() == names@[i as int]@);
        match parsed {
            Some(v) => {
                count = count + 1;
                if v > max_seq {
                    max_seq = v;
                }
            },
            None => {},
        }
        i = i + 1;
    }
    assert(views.subrange(0, names@.len() as int) =~= views);
    (count, max_seq)
}

/// The window of pages a store opens with, given `count` page files whose
/// largest number is `max_seq`.
pub fn initial_window(count: usize, max_seq: usize) -> (r: (usize, usize))
    ensures
        (r.0 as int, r.1 as int) == opening_window(count as int, max_seq as int),
{
    if count == 0 {
        (0, 0)
    } else if max_seq >= count {
        (max_seq - count + 1, max_seq)
    } else {
        (0, max_seq)
    }
}

proof fn lemma_decimal_digits(n: nat)
    ensures
        decimal(n).len() >= 1,
        forall|i: int| 0 <= i < decimal(n).len() ==> is_digit(#[trigger] decimal(n)[i]),
        digits_value(decimal(n)) == n,
        n >= 10 ==> decimal(n)[0] != 48,
    decreases n,
{
    if n >= 10 {
        lemma_decimal_digits(n / 10);
        assert(decimal(n).drop_last() =~= decimal(n / 10));
        assert(n == (n / 10) * 10 + n % 10) by (nonlinear_arith);
        assert(n % 10 < 10);
        assert(decimal(n).last() == (48 + n % 10) as u8);
        assert(decimal(n).last() - 48 == n % 10);
        assert(digits_value(decimal(n)) == digits_value(decimal(n).drop_last()) * 10 + (
        decimal(n).last() - 48));
    } else {
        assert(decimal(n).drop_last() =~= Seq::<u8>::empty());
        assert(digits_value(decimal(n)) == digits_value(decimal(n).drop_last()) * 10 + (
        decimal(n).last() - 48));
    }
}

/// The file a page is written to is recognised as that page when the
/// directory is listed again.
pub proof fn lemma_page_name_round_trip(seq: nat)
    requires
        seq <= usize::MAX,
    ensures
        listed_seq(page_name(seq)) == Some(seq as int),
{
    lemma_decimal_digits(seq);
    let name = page_name(seq);
    let k = stem_dot().len() as int;
    assert(name.subrange(0, k) =~= stem_dot());
    assert(name.subrange(k, name.len() as int) =~= decimal(seq));
    assert forall|i: int| k <= i < name.len() implies is_digit(#[trigger] name[i]) by {
        assert(name[i] == decimal(seq)[i - k]);
    }
}

} // verus!
