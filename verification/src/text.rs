//! Small string utilities shared by the repository, the translation rules
//! and the payload builder.

use vstd::prelude::*;
use vstd::string::StringSliceAdditionalSpecFns;

verus! {

/// Relies on str's `PartialEq`: two string slices compare equal exactly when
/// they consist of the same characters.
#[verifier::external_body]
pub(crate) fn str_eq(a: &str, b: &str) -> (r: bool)
    ensures
        r == (a@ == b@),
{
    a == b
}

/// An ASCII decimal digit.
pub open spec fn is_digit(c: char) -> bool {
    48 <= c as int <= 57
}

pub open spec fn all_digits(s: Seq<char>) -> bool {
    forall|i: int| 0 <= i < s.len() ==> is_digit(s[i])
}

/// The value of a digit string, most significant first.
pub open spec fn digits_val(s: Seq<char>) -> int
    decreases s.len(),
{
    if s.len() == 0 {
        0
    } else {
        digits_val(s.drop_last()) * 10 + (s.last() as int - 48)
    }
}

/// What `str::parse::<i32>` accepts: an optional sign, then one or more
/// ASCII digits, with the value in range; anything else is rejected.
pub open spec fn spec_parse_i32(s: Seq<char>) -> Option<i32> {
    let signed = s.len() > 0 && (s[0] == '-' || s[0] == '+');
    let neg = s.len() > 0 && s[0] == '-';
    let ds = if signed {
        s.drop_first()
    } else {
        s
    };
    if ds.len() == 0 || !all_digits(ds) {
        None
    } else {
        let v = if neg {
            -digits_val(ds)
        } else {
            digits_val(ds)
        };
        if i32::MIN <= v <= i32::MAX {
            Some(v as i32)
        } else {
            None
        }
    }
}

proof fn lemma_digits_val_nonneg(s: Seq<char>)
    requires
        all_digits(s),
    ensures
        digits_val(s) >= 0,
    decreases s.len(),
{
    if s.len() > 0 {
        assert(all_digits(s.drop_last()));
        lemma_digits_val_nonneg(s.drop_last());
    }
}

/// Once a digit prefix exceeds a bound, the whole string's value does too.
proof fn lemma_digits_val_monotonic(s: Seq<char>, k: int)
    requires
        all_digits(s),
        0 <= k <= s.len(),
    ensures
        digits_val(s) >= digits_val(s.take(k)),
    decreases s.len() - k,
{
    if k < s.len() {
        lemma_digits_val_monotonic(s, k + 1);
        assert(s.take(k + 1).drop_last() =~= s.take(k));
        assert(all_digits(s.take(k)));
        lemma_digits_val_nonneg(s.take(k));
    } else {
        assert(s.take(k) =~= s);
    }
}

/// Parse a decimal integer exactly as `str::parse::<i32>` would.
pub fn parse_i32(s: &str) -> (r: Option<i32>)
    ensures
        r == spec_parse_i32(s@),
{
    let n = s.unicode_len();
    if n == 0 {
        return None;
    }
    let first = s.get_char(0);
    let fc = first as u32;
    let (neg, start): (bool, usize) = if fc == 45 {
        (true, 1)
    } else if fc == 43 {
        (false, 1)
    } else {
        (false, 0)
    };
    let ghost ds = if start == 1 {
        s@.drop_first()
    } else {
        s@
    };
    if start == n {
        return None;
    }
    let mut acc: i64 = 0;
    let mut k: usize = start;
    while k < n
        invariant
            n == s@.len(),
            start <= k <= n,
            start < n,
            start == 0 || start == 1,
            neg == (s@.len() > 0 && s@[0] == '-'),
            (start == 1) == (s@.len() > 0 && (s@[0] == '-' || s@[0] == '+')),
            ds == (if start == 1 {
                s@.drop_first()
            } else {
                s@
            }),
            ds.len() == n - start,
            forall|j: int| 0 <= j < ds.len() ==> ds[j] == s@[j + start],
            all_digits(ds.take((k - start) as int)),
            acc == digits_val(ds.take((k - start) as int)),
            0 <= acc <= 0x8000_0000,
        decreases n - k,
    {
        let c = s.get_char(k);
        let d = c as u32;
        if d < 48 || d > 57 {
            assert(!is_digit(ds[(k - start) as int]));
            return None;
        }
        proof {
            assert(ds.take((k + 1 - start) as int).drop_last() =~= ds.take((k - start) as int));
            assert(ds.take((k + 1 - start) as int).last() == ds[(k - start) as int]);
        }
        acc = acc * 10 + ((d - 48) as i64);
        k += 1;
        if acc > 0x8000_0000 {
            // Already out of range; further digits only grow the value.
            proof {
                if all_digits(ds) {
                    lemma_digits_val_monotonic(ds, (k - start) as int);
                }
            }
            return None;
        }
    }
    proof {
        assert(ds.take((n - start) as int) =~= ds);
    }
    if neg {
        if acc <= 0x8000_0000 {
            Some((-acc) as i32)
        } else {
            None
        }
    } else {
        if acc <= 0x7fff_ffff {
            Some(acc as i32)
        } else {
            None
        }
    }
}

// ---------------------------------------------------------------------------
// Splitting on the ", " separator, as `str::split(", ")` does.
// ---------------------------------------------------------------------------

/// A ", " separator starts at position `i`.
pub open spec fn comma_space_at(s: Seq<char>, i: int) -> bool {
    0 <= i && i + 2 <= s.len() && s[i] == ',' && s[i + 1] == ' '
}

/// The first position of a ", " separator, or -1.
pub open spec fn first_comma_space(s: Seq<char>) -> int
    decreases s.len(),
{
    if s.len() < 2 {
        -1
    } else if s[0] == ',' && s[1] == ' ' {
        0
    } else {
        let r = first_comma_space(s.drop_first());
        if r < 0 {
            -1
        } else {
            r + 1
        }
    }
}

proof fn lemma_first_comma_space(s: Seq<char>)
    ensures
        -1 <= first_comma_space(s) <= s.len() - 2 || first_comma_space(s) == -1,
        first_comma_space(s) >= 0 ==> comma_space_at(s, first_comma_space(s)),
        forall|j: int| 0 <= j < first_comma_space(s) ==> !comma_space_at(s, j),
        first_comma_space(s) == -1 ==> forall|j: int| !comma_space_at(s, j),
    decreases s.len(),
{
    if s.len() < 2 {
    } else if s[0] == ',' && s[1] == ' ' {
    } else {
        lemma_first_comma_space(s.drop_first());
        assert forall|j: int| 1 <= j < s.len() implies s[j] == s.drop_first()[j - 1] by {}
        assert forall|j: int|
            0 <= j < first_comma_space(s) implies !comma_space_at(s, j) by {
            if j > 0 {
                assert(!comma_space_at(s.drop_first(), j - 1));
            }
        }
        if first_comma_space(s) == -1 {
            assert forall|j: int| !comma_space_at(s, j) implies true by {}
            assert forall|j: int| comma_space_at(s, j) implies false by {
                if j == 0 {
                } else {
                    assert(comma_space_at(s.drop_first(), j - 1));
                }
            }
        }
    }
}

/// The pieces of a string split on every ", " occurrence, left to right.
/// (The bound guards in the second branch never fire: the first separator
/// position, when it exists, always leaves room for the separator.)
pub open spec fn split_comma_space_spec(s: Seq<char>) -> Seq<Seq<char>>
    decreases s.len(),
{
    let i = first_comma_space(s);
    if i < 0 || i + 2 > s.len() {
        seq![s]
    } else {
        seq![s.take(i)] + split_comma_space_spec(s.skip(i + 2))
    }
}

fn find_comma_space(s: &str) -> (r: Option<usize>)
    ensures
        match r {
            Some(i) => i as int == first_comma_space(s@),
            None => first_comma_space(s@) == -1,
        },
{
    let n = s.unicode_len();
    if n < 2 {
        proof {
            lemma_first_comma_space(s@);
        }
        return None;
    }
    let mut i: usize = 0;
    while i <= n - 2
        invariant
            n == s@.len(),
            n >= 2,
            i <= n - 1,
            forall|j: int| 0 <= j < i ==> !comma_space_at(s@, j),
        decreases n - i,
    {
        let a = s.get_char(i);
        let b = s.get_char(i + 1);
        if a == ',' && b == ' ' {
            proof {
                assert(comma_space_at(s@, i as int));
                lemma_first_comma_space(s@);
            }
            return Some(i);
        }
        i += 1;
    }
    proof {
        lemma_first_comma_space(s@);
    }
    None
}

/// Split on every ", " occurrence, exactly as `str::split(", ")` collects.
pub fn split_comma_space(s: &str) -> (r: Vec<String>)
    ensures
        r@.len() == split_comma_space_spec(s@).len(),
        forall|j: int| 0 <= j < r@.len() ==> r@[j]@ == split_comma_space_spec(s@)[j],
    decreases s@.len(),
{
    match find_comma_space(s) {
        None => {
            let mut v: Vec<String> = Vec::new();
            v.push(s.to_owned());
            v
        },
        Some(i) => {
            proof {
                lemma_first_comma_space(s@);
            }
            let n = s.unicode_len();
            let head = s.substring_char(0, i).to_owned();
            let tail = s.substring_char(i + 2, n);
            proof {
                assert(tail@ =~= s@.skip(i as int + 2));
            }
            let mut rest = split_comma_space(tail);
            rest.insert(0, head);
            proof {
                assert(head@ =~= s@.take(i as int));
                assert forall|j: int|
                    0 <= j < rest@.len() implies rest@[j]@ == split_comma_space_spec(s@)[j] by {
                    if j == 0 {
                    } else {
                        assert(rest@[j]@ == split_comma_space_spec(s@.skip(i as int + 2))[j - 1]);
                        assert(split_comma_space_spec(s@)[j] == split_comma_space_spec(
                            s@.skip(i as int + 2),
                        )[j - 1]);
                    }
                }
            }
            rest
        },
    }
}

// ---------------------------------------------------------------------------
// Trimming ASCII whitespace, as option names are cleaned before a push.
// ---------------------------------------------------------------------------

pub open spec fn is_ascii_ws(c: char) -> bool {
    c == ' ' || c == '\t' || c == '\n' || c == '\r'
}

/// The string with leading and trailing ASCII whitespace removed.
pub open spec fn trim_spec(s: Seq<char>) -> Seq<char>
    decreases s.len(),
{
    if s.len() == 0 {
        s
    } else if is_ascii_ws(s[0]) {
        trim_spec(s.drop_first())
    } else if is_ascii_ws(s.last()) {
        trim_spec(s.drop_last())
    } else {
        s
    }
}

/// Trim leading and trailing ASCII whitespace.
pub fn trim_ascii(s: &str) -> (r: String)
    ensures
        r@ == trim_spec(s@),
{
    let n = s.unicode_len();
    let mut a: usize = 0;
    let mut b: usize = n;
    proof {
        assert(s@.subrange(0, n as int) =~= s@);
    }
    let mut scanning: bool = true;
    while scanning && a < b
        invariant
            n == s@.len(),
            a <= b <= n,
            trim_spec(s@) == trim_spec(s@.subrange(a as int, b as int)),
            !scanning ==> a < b && !is_ascii_ws(s@[a as int]),
        decreases b - a + (if scanning {
            1int
        } else {
            0int
        }),
    {
        let c = s.get_char(a);
        if is_ws_exec(c) {
            proof {
                assert(s@.subrange(a as int, b as int).drop_first() =~= s@.subrange(
                    a as int + 1,
                    b as int,
                ));
            }
            a += 1;
        } else {
            scanning = false;
        }
    }
    let mut scanning_back: bool = true;
    while scanning_back && a < b
        invariant
            n == s@.len(),
            a <= b <= n,
            trim_spec(s@) == trim_spec(s@.subrange(a as int, b as int)),
            a < b ==> !is_ascii_ws(s@[a as int]),
            !scanning_back ==> a < b && !is_ascii_ws(s@[b as int - 1]),
        decreases b - a + (if scanning_back {
            1int
        } else {
            0int
        }),
    {
        let c = s.get_char(b - 1);
        if is_ws_exec(c) {
            proof {
                assert(s@.subrange(a as int, b as int).drop_last() =~= s@.subrange(
                    a as int,
                    b as int - 1,
                ));
            }
            b -= 1;
        } else {
            scanning_back = false;
        }
    }
    let piece = s.substring_char(a, b);
    proof {
        assert(piece@ =~= s@.subrange(a as int, b as int));
    }
    piece.to_owned()
}

fn is_ws_exec(c: char) -> (r: bool)
    ensures
        r == is_ascii_ws(c),
{
    c == ' ' || c == '\t' || c == '\n' || c == '\r'
}

// ---------------------------------------------------------------------------
// Rendering a number in decimal, as `to_string` on an integer does.
// ---------------------------------------------------------------------------

pub open spec fn digit_char(d: int) -> char {
    if d == 0 {
        '0'
    } else if d == 1 {
        '1'
    } else if d == 2 {
        '2'
    } else if d == 3 {
        '3'
    } else if d == 4 {
        '4'
    } else if d == 5 {
        '5'
    } else if d == 6 {
        '6'
    } else if d == 7 {
        '7'
    } else if d == 8 {
        '8'
    } else {
        '9'
    }
}

/// The decimal rendering of a non-negative number, most significant first.
pub open spec fn dec_str(n: int) -> Seq<char>
    decreases n,
{
    if n < 10 {
        seq![digit_char(n)]
    } else {
        dec_str(n / 10).push(digit_char(n % 10))
    }
}

fn push_digit(s: &mut String, d: u32)
    requires
        d < 10,
    ensures
        final(s)@ == old(s)@ + seq![digit_char(d as int)],
{
    if d == 0 {
        proof {
            reveal_strlit("0");
        }
        s.append("0");
    } else if d == 1 {
        proof {
            reveal_strlit("1");
        }
        s.append("1");
    } else if d == 2 {
        proof {
            reveal_strlit("2");
        }
        s.append("2");
    } else if d == 3 {
        proof {
            reveal_strlit("3");
        }
        s.append("3");
    } else if d == 4 {
        proof {
            reveal_strlit("4");
        }
        s.append("4");
    } else if d == 5 {
        proof {
            reveal_strlit("5");
        }
        s.append("5");
    } else if d == 6 {
        proof {
            reveal_strlit("6");
        }
        s.append("6");
    } else if d == 7 {
        proof {
            reveal_strlit("7");
        }
        s.append("7");
    } else if d == 8 {
        proof {
            reveal_strlit("8");
        }
        s.append("8");
    } else {
        proof {
            reveal_strlit("9");
        }
        s.append("9");
    }
    proof {
        assert(final(s)@ =~= old(s)@ + seq![digit_char(d as int)]);
    }
}

fn push_decimal(s: &mut String, n: u32)
    ensures
        final(s)@ == old(s)@ + dec_str(n as int),
    decreases n,
{
    if n >= 10 {
        push_decimal(s, n / 10);
        push_digit(s, n % 10);
        proof {
            assert(final(s)@ =~= old(s)@ + dec_str(n as int));
        }
    } else {
        push_digit(s, n);
    }
}

/// Render a non-negative number in decimal.
pub fn u32_to_string(n: u32) -> (r: String)
    ensures
        r@ == dec_str(n as int),
{
    let mut s = String::new();
    push_decimal(&mut s, n);
    proof {
        assert(s@ =~= dec_str(n as int));
    }
    s
}

// ---------------------------------------------------------------------------
// Lexicographic byte order, the order the store lists timestamps by.
// ---------------------------------------------------------------------------

/// Byte-wise lexicographic "less than or equal".
pub open spec fn lex_le(a: Seq<u8>, b: Seq<u8>) -> bool
    decreases a.len(),
{
    if a.len() == 0 {
        true
    } else if b.len() == 0 {
        false
    } else if a[0] < b[0] {
        true
    } else if a[0] > b[0] {
        false
    } else {
        lex_le(a.drop_first(), b.drop_first())
    }
}

/// The order is total.
pub proof fn lemma_lex_total(a: Seq<u8>, b: Seq<u8>)
    ensures
        lex_le(a, b) || lex_le(b, a),
    decreases a.len(),
{
    if a.len() > 0 && b.len() > 0 && a[0] == b[0] {
        lemma_lex_total(a.drop_first(), b.drop_first());
    }
}

/// The order is transitive.
pub proof fn lemma_lex_trans(a: Seq<u8>, b: Seq<u8>, c: Seq<u8>)
    requires
        lex_le(a, b),
        lex_le(b, c),
    ensures
        lex_le(a, c),
    decreases a.len(),
{
    if a.len() > 0 && b.len() > 0 && c.len() > 0 && a[0] == b[0] && b[0] == c[0] {
        lemma_lex_trans(a.drop_first(), b.drop_first(), c.drop_first());
    }
}

/// Compare two strings in byte-wise lexicographic order.
pub fn str_bytes_le(a: &str, b: &str) -> (r: bool)
    ensures
        r == lex_le(a.spec_bytes(), b.spec_bytes()),
{
    let ab = a.as_bytes();
    let bb = b.as_bytes();
    let na = ab.len();
    let nb = bb.len();
    let mut i: usize = 0;
    proof {
        assert(ab@.skip(0) =~= ab@);
        assert(bb@.skip(0) =~= bb@);
    }
    while i < na && i < nb
        invariant
            na == ab@.len(),
            nb == bb@.len(),
            i <= na,
            i <= nb,
            ab@ == a.spec_bytes(),
            bb@ == b.spec_bytes(),
            lex_le(a.spec_bytes(), b.spec_bytes()) == lex_le(
                ab@.skip(i as int),
                bb@.skip(i as int),
            ),
        decreases na - i,
    {
        let x = ab[i];
        let y = bb[i];
        proof {
            assert(ab@.skip(i as int)[0] == ab@[i as int]);
            assert(bb@.skip(i as int)[0] == bb@[i as int]);
            assert(ab@.skip(i as int).drop_first() =~= ab@.skip(i as int + 1));
            assert(bb@.skip(i as int).drop_first() =~= bb@.skip(i as int + 1));
        }
        if x < y {
            return true;
        }
        if x > y {
            return false;
        }
        i += 1;
    }
    proof {
        assert(ab@.skip(i as int).len() == na - i);
        assert(bb@.skip(i as int).len() == nb - i);
    }
    i >= na
}

} // verus!
