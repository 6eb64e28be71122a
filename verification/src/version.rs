//! An ordered triple identifying a baseline release, with its canonical
//! `"major.minor.patch"` textual form: a verified encode/decode pair whose
//! round trip is proved in `lemma_version_round_trip`.

use vstd::prelude::*;
use vstd::string::StrSliceExecFns;
use vstd::string::StringExecFns;

use crate::errors::ParseError;

verus! {

/// A release version; the total order is lexicographic on
/// (major, minor, patch).
#[derive(Debug, Clone, Copy, PartialEq, Eq, Structural, Hash, PartialOrd, Ord)]
pub struct Version {
    pub major: i32,
    pub minor: i32,
    pub patch: i32,
}

/// Strict lexicographic order on (major, minor, patch).
pub open spec fn version_lt(a: Version, b: Version) -> bool {
    ||| a.major < b.major
    ||| (a.major == b.major && a.minor < b.minor)
    ||| (a.major == b.major && a.minor == b.minor && a.patch < b.patch)
}

/// Reflexive closure of `version_lt`.
pub open spec fn version_le(a: Version, b: Version) -> bool {
    version_lt(a, b) || a == b
}

/// An ASCII decimal digit.
pub open spec fn is_digit(c: char) -> bool {
    48 <= c as u32 <= 57
}

/// Numeric value of an ASCII decimal digit.
pub open spec fn digit_val(c: char) -> int {
    c as u32 - 48
}

/// The ASCII digit with value `d`.
pub open spec fn digit_char(d: int) -> char {
    if d == 0 {
        '0'
    } else if d == 1 {
        '1'
    } else if d == 2 {
        '2'
    } else if d == 3 {
        '3'
    } else if d == 4 {
        '4'
    } else if d == 5 {
        '5'
    } else if d == 6 {
        '6'
    } else if d == 7 {
        '7'
    } else if d == 8 {
        '8'
    } else {
        '9'
    }
}

/// Decimal text of a natural number, most significant digit first, with no
/// leading zero except for zero itself.
pub open spec fn dec_digits(n: nat) -> Seq<char>
    decreases n,
{
    if n < 10 {
        seq![digit_char(n as int)]
    } else {
        dec_digits(n / 10).push(digit_char((n % 10) as int))
    }
}

/// Decimal text of an integer: a `-` sign followed by the magnitude when
/// negative, the plain magnitude otherwise.
pub open spec fn int_text(i: int) -> Seq<char> {
    if i < 0 {
        seq!['-'] + dec_digits((-i) as nat)
    } else {
        dec_digits(i as nat)
    }
}

/// The canonical `"major.minor.patch"` text of a version.
pub open spec fn version_text(v: Version) -> Seq<char> {
    int_text(v.major as int) + seq!['.'] + int_text(v.minor as int) + seq!['.'] + int_text(
        v.patch as int,
    )
}

/// Every character is an ASCII decimal digit.
pub open spec fn all_digits(s: Seq<char>) -> bool {
    forall|i: int| 0 <= i < s.len() ==> is_digit(#[trigger] s[i])
}

/// Value of a digit string read in base 10.
pub open spec fn digits_val(s: Seq<char>) -> int
    decreases s.len(),
{
    if s.len() == 0 {
        0
    } else {
        digits_val(s.drop_last()) * 10 + digit_val(s.last())
    }
}

/// What parsing one decimal integer component yields: an optional single
/// `-` or `+` sign, then one or more digits, and the value must fit in
/// `i32`; anything else is rejected.
pub open spec fn parse_int(s: Seq<char>) -> Option<i32> {
    let signed = s.len() > 0 && (s[0] == '-' || s[0] == '+');
    let neg = s.len() > 0 && s[0] == '-';
    let ds = if signed {
        s.subrange(1, s.len() as int)
    } else {
        s
    };
    if ds.len() == 0 || !all_digits(ds) {
        None
    } else {
        let v = if neg {
            -digits_val(ds)
        } else {
            digits_val(ds)
        };
        if i32::MIN <= v <= i32::MAX {
            Some(v as i32)
        } else {
            None
        }
    }
}

/// Index of the first `.` in `s`, or `s.len()` if there is none.
pub open spec fn first_dot(s: Seq<char>) -> int
    decreases s.len(),
{
    if s.len() == 0 {
        0
    } else if s[0] == '.' {
        0
    } else {
        1 + first_dot(s.subrange(1, s.len() as int))
    }
}

/// What `Version::from_text` yields: the text splits at its first two dots
/// into three components, each parsed by `parse_int`; any other shape is a
/// `ParseError`.
pub open spec fn spec_from_text(s: Seq<char>) -> Result<Version, ParseError> {
    let i = first_dot(s);
    if i >= s.len() {
        Err(ParseError {})
    } else {
        let rest = s.subrange(i + 1, s.len() as int);
        let j = first_dot(rest);
        if j >= rest.len() {
            Err(ParseError {})
        } else {
            let a = parse_int(s.subrange(0, i));
            let b = parse_int(rest.subrange(0, j));
            let c = parse_int(rest.subrange(j + 1, rest.len() as int));
            match (a, b, c) {
                (Some(major), Some(minor), Some(patch)) => Ok(Version { major, minor, patch }),
                _ => Err(ParseError {}),
            }
        }
    }
}

/// Basic shape of `dec_digits`: nonempty, all digits, and reading it back in
/// base 10 yields the number it was built from.
pub proof fn lemma_dec_digits(n: nat)
    ensures
        dec_digits(n).len() >= 1,
        all_digits(dec_digits(n)),
        digits_val(dec_digits(n)) == n,
    decreases n,
{
    if n < 10 {
        let s = dec_digits(n);
        assert(s =~= seq![digit_char(n as int)]);
        assert(is_digit(digit_char(n as int)));
        assert(s.drop_last() =~= Seq::<char>::empty());
        assert(s.last() == digit_char(n as int));
        assert(digits_val(Seq::<char>::empty()) == 0);
        assert(digits_val(s) == digit_val(digit_char(n as int)));
    } else {
        lemma_dec_digits(n / 10);
        let p = dec_digits(n / 10);
        let s = dec_digits(n);
        let c = digit_char((n % 10) as int);
        assert(s == p.push(c));
        assert(s.drop_last() =~= p);
        assert(s.last() == c);
        assert(is_digit(c));
        assert forall|i: int| 0 <= i < s.len() implies is_digit(#[trigger] s[i]) by {
            if i < p.len() {
                assert(s[i] == p[i]);
            }
        }
        assert(digit_val(c) == n % 10);
        assert(digits_val(s) == (n / 10) * 10 + n % 10);
    }
}

/// No character of `int_text` is a dot.
pub proof fn lemma_int_text_no_dot(x: int)
    ensures
        forall|i: int| 0 <= i < int_text(x).len() ==> #[trigger] int_text(x)[i] != '.',
{
    let s = int_text(x);
    if x < 0 {
        lemma_dec_digits((-x) as nat);
        let d = dec_digits((-x) as nat);
        assert forall|i: int| 0 <= i < s.len() implies #[trigger] s[i] != '.' by {
            if i == 0 {
                assert(s[0] == '-');
            } else {
                assert(s[i] == d[i - 1]);
                assert(is_digit(d[i - 1]));
            }
        }
    } else {
        lemma_dec_digits(x as nat);
        assert forall|i: int| 0 <= i < s.len() implies #[trigger] s[i] != '.' by {
            assert(is_digit(s[i]));
        }
    }
}

/// `parse_int` inverts `int_text` on every value an `i32` can hold.
pub proof fn lemma_parse_int_text(x: int)
    requires
        i32::MIN <= x <= i32::MAX,
    ensures
        parse_int(int_text(x)) == Some(x as i32),
{
    let s = int_text(x);
    if x < 0 {
        lemma_dec_digits((-x) as nat);
        let d = dec_digits((-x) as nat);
        assert(s[0] == '-');
        let ds = s.subrange(1, s.len() as int);
        assert(ds =~= d);
        assert(digits_val(ds) == -x);
    } else {
        lemma_dec_digits(x as nat);
        assert(s =~= dec_digits(x as nat));
        assert(is_digit(s[0]));
        assert(s[0] != '-' && s[0] != '+');
        assert(digits_val(s) == x);
    }
}

/// Returns the ASCII digit with value `d` as text.
fn digit_str(d: u64) -> (r: &'static str)
    requires
        d < 10,
    ensures
        r@ =~= seq![digit_char(d as int)],
{
    let r: &'static str = if d == 0 {
        "0"
    } else if d == 1 {
        "1"
    } else if d == 2 {
        "2"
    } else if d == 3 {
        "3"
    } else if d == 4 {
        "4"
    } else if d == 5 {
        "5"
    } else if d == 6 {
        "6"
    } else if d == 7 {
        "7"
    } else if d == 8 {
        "8"
    } else {
        "9"
    };
    proof {
        reveal_strlit("0");
        reveal_strlit("1");
        reveal_strlit("2");
        reveal_strlit("3");
        reveal_strlit("4");
        reveal_strlit("5");
        reveal_strlit("6");
        reveal_strlit("7");
        reveal_strlit("8");
        reveal_strlit("9");
        assert(r@ =~= seq![digit_char(d as int)]);
    }
    r
}

/// Appends the decimal text of `n` to `out`.
fn push_decimal(n: u64, out: &mut String)
    ensures
        final(out)@ == old(out)@ + dec_digits(n as nat),
    decreases n,
{
    let ghost prev = out@;
    if n >= 10 {
        push_decimal(n / 10, out);
    }
    let d = n % 10;
    out.append(digit_str(d));
    proof {
        if n >= 10 {
            assert(out@ =~= prev + dec_digits((n / 10) as nat).push(digit_char((n % 10) as int)));
        } else {
            assert(out@ =~= prev + seq![digit_char(n as int)]);
        }
    }
}

/// Appends the decimal text of `x`, with a `-` sign when negative, to `out`.
fn push_signed(x: i32, out: &mut String)
    ensures
        final(out)@ == old(out)@ + int_text(x as int),
{
    let ghost prev = out@;
    if x >= 0 {
        push_decimal(x as u64, out);
    } else {
        out.append("-");
        let m: u64 = (-(x as i64)) as u64;
        push_decimal(m, out);
        proof {
            reveal_strlit("-");
            assert("-"@ =~= seq!['-']);
            assert(out@ =~= prev + (seq!['-'] + dec_digits((-(x as int)) as nat)));
        }
    }
}

impl Version {
    /// Builds the triple as given.
    pub fn new(major: i32, minor: i32, patch: i32) -> (v: Version)
        ensures
            v == (Version { major, minor, patch }),
    {
        Version { major, minor, patch }
    }

    /// The total order of versions: lexicographic on (major, minor, patch).
    pub fn compare(&self, other: &Version) -> (r: core::cmp::Ordering)
        ensures
            r is Less <==> version_lt(*self, *other),
            r is Greater <==> version_lt(*other, *self),
            r is Equal <==> *self == *other,
    {
        if self.major != other.major {
            if self.major < other.major {
                core::cmp::Ordering::Less
            } else {
                core::cmp::Ordering::Greater
            }
        } else if self.minor != other.minor {
            if self.minor < other.minor {
                core::cmp::Ordering::Less
            } else {
                core::cmp::Ordering::Greater
            }
        } else if self.patch != other.patch {
            if self.patch < other.patch {
                core::cmp::Ordering::Less
            } else {
                core::cmp::Ordering::Greater
            }
        } else {
            core::cmp::Ordering::Equal
        }
    }

    /// Encodes the version in its canonical `"major.minor.patch"` text.
    pub fn to_text(&self) -> (r: String)
        ensures
            r@ == version_text(*self),
    {
        let mut out = String::new();
        push_signed(self.major, &mut out);
        out.append(".");
        push_signed(self.minor, &mut out);
        out.append(".");
        push_signed(self.patch, &mut out);
        proof {
            reveal_strlit(".");
            assert("."@ =~= seq!['.']);
            assert(out@ =~= version_text(*self));
        }
        out
    }
}

/// A digit string never reads back negative.
pub proof fn lemma_digits_val_nonneg(s: Seq<char>)
    requires
        all_digits(s),
    ensures
        digits_val(s) >= 0,
    decreases s.len(),
{
    if s.len() > 0 {
        let p = s.drop_last();
        assert forall|k: int| 0 <= k < p.len() implies is_digit(#[trigger] p[k]) by {
            assert(p[k] == s[k]);
        }
        lemma_digits_val_nonneg(p);
        assert(is_digit(s.last()));
    }
}

/// Reading a prefix of a digit string yields at most the whole string's
/// value.
pub proof fn lemma_digits_val_prefix(s: Seq<char>, k: int)
    requires
        all_digits(s),
        0 <= k <= s.len(),
    ensures
        digits_val(s.subrange(0, k)) <= digits_val(s),
    decreases s.len() - k,
{
    if k == s.len() {
        assert(s.subrange(0, k) =~= s);
    } else {
        let p0 = s.subrange(0, k);
        let p1 = s.subrange(0, k + 1);
        assert(p1.drop_last() =~= p0);
        assert(p1.last() == s[k]);
        assert forall|m: int| 0 <= m < p0.len() implies is_digit(#[trigger] p0[m]) by {
            assert(p0[m] == s[m]);
        }
        lemma_digits_val_nonneg(p0);
        assert(is_digit(s[k]));
        assert(digits_val(p1) == digits_val(p0) * 10 + digit_val(s[k]));
        lemma_digits_val_prefix(s, k + 1);
    }
}

/// `first_dot` is characterized by: no dot before `k`, and a dot (or the
/// end of the text) at `k`.
pub proof fn lemma_first_dot_is(t: Seq<char>, k: int)
    requires
        0 <= k <= t.len(),
        forall|j: int| 0 <= j < k ==> t[j] != '.',
        k < t.len() ==> t[k] == '.',
    ensures
        first_dot(t) == k,
    decreases t.len(),
{
    if t.len() == 0 {
    } else if k == 0 {
    } else {
        assert(t[0] != '.');
        let t1 = t.subrange(1, t.len() as int);
        assert forall|j: int| 0 <= j < k - 1 implies t1[j] != '.' by {
            assert(t1[j] == t[j + 1]);
        }
        assert(k - 1 < t1.len() ==> t1[k - 1] == t[k]);
        lemma_first_dot_is(t1, k - 1);
    }
}

/// Index of the first `.` at or after `from`, or the text's length if there
/// is none there.
fn find_dot(s: &str, from: usize) -> (r: usize)
    requires
        from as int <= s@.len(),
    ensures
        from <= r <= s@.len(),
        forall|k: int| from <= k < r ==> s@[k] != '.',
        r < s@.len() ==> s@[r as int] == '.',
{
    let n = s.unicode_len();
    let mut i = from;
    while i < n
        invariant
            from <= i <= n,
            n == s@.len(),
            forall|k: int| from <= k < i ==> s@[k] != '.',
        decreases n - i,
    {
        let c = s.get_char(i);
        if c == '.' {
            return i;
        }
        i += 1;
    }
    i
}

/// Parses one decimal integer component: an optional single `-` or `+`
/// sign, then one or more digits, with the value required to fit in `i32`.
fn parse_component(s: &str) -> (r: Option<i32>)
    ensures
        r == parse_int(s@),
{
    let n = s.unicode_len();
    if n == 0 {
        return None;
    }
    let c0 = s.get_char(0);
    let neg = c0 == '-';
    let start: usize = if c0 == '-' || c0 == '+' {
        1
    } else {
        0
    };
    let ghost ds = if start == 1 {
        s@.subrange(1, n as int)
    } else {
        s@
    };
    proof {
        assert(ds =~= s@.subrange(start as int, n as int));
    }
    if start == n {
        return None;
    }
    let mut acc: u64 = 0;
    let mut i: usize = start;
    while i < n
        invariant
            start <= i <= n,
            start < n,
            n == s@.len(),
            neg == (s@.len() > 0 && s@[0] == '-'),
            start == (if s@.len() > 0 && (s@[0] == '-' || s@[0] == '+') {
                1int
            } else {
                0int
            }),
            ds == s@.subrange(start as int, n as int),
            start == 0 ==> ds == s@,
            ds.len() > 0,
            acc <= 2147483648,
            acc == digits_val(s@.subrange(start as int, i as int)),
            all_digits(s@.subrange(start as int, i as int)),
        decreases n - i,
    {
        let c = s.get_char(i);
        let v = c as u32;
        if v < 48 || v > 57 {
            proof {
                assert(ds[i - start] == s@[i as int]);
                assert(!is_digit(ds[i - start]));
                assert(!all_digits(ds));
            }
            return None;
        }
        let d: u64 = (v - 48) as u64;
        let new_acc = acc * 10 + d;
        proof {
            let p0 = s@.subrange(start as int, i as int);
            let p1 = s@.subrange(start as int, i as int + 1);
            assert(p1.drop_last() =~= p0);
            assert(p1.last() == s@[i as int]);
            assert(digit_val(s@[i as int]) == d);
            assert(digits_val(p1) == new_acc);
            assert forall|k: int| 0 <= k < p1.len() implies is_digit(#[trigger] p1[k]) by {
                if k < p0.len() {
                    assert(p1[k] == p0[k]);
                } else {
                    assert(p1[k] == s@[i as int]);
                }
            }
        }
        if new_acc > 2147483648 {
            proof {
                if all_digits(ds) {
                    lemma_digits_val_prefix(ds, i + 1 - start);
                    assert(ds.subrange(0, i + 1 - start) =~= s@.subrange(
                        start as int,
                        i as int + 1,
                    ));
                    assert(digits_val(ds) > 2147483648);
                    assert(parse_int(s@) is None);
                } else {
                    assert(parse_int(s@) is None);
                }
            }
            return None;
        }
        acc = new_acc;
        i += 1;
    }
    proof {
        assert(s@.subrange(start as int, n as int) == ds);
    }
    if neg {
        let r = -(acc as i64);
        proof {
            assert(i32::MIN <= r <= 0);
        }
        Some(r as i32)
    } else if acc > 2147483647 {
        None
    } else {
        Some(acc as i32)
    }
}

impl Version {
    /// Decodes a version from its canonical `"major.minor.patch"` text,
    /// rejecting anything that does not split into exactly three integer
    /// components.
    pub fn from_text(s: &str) -> (r: Result<Version, ParseError>)
        ensures
            r == spec_from_text(s@),
    {
        let n = s.unicode_len();
        let i = find_dot(s, 0);
        proof {
            lemma_first_dot_is(s@, i as int);
        }
        if i == n {
            return Err(ParseError {});
        }
        let j = find_dot(s, i + 1);
        proof {
            let rest = s@.subrange(i as int + 1, n as int);
            assert forall|k: int| 0 <= k < j - i - 1 implies rest[k] != '.' by {
                assert(rest[k] == s@[k + i + 1]);
            }
            assert(j - i - 1 < rest.len() ==> rest[j - i - 1] == s@[j as int]);
            lemma_first_dot_is(rest, j - i - 1);
        }
        if j == n {
            return Err(ParseError {});
        }
        let a = s.substring_char(0, i);
        let b = s.substring_char(i + 1, j);
        let c = s.substring_char(j + 1, n);
        let ra = parse_component(a);
        let rb = parse_component(b);
        let rc = parse_component(c);
        proof {
            let rest = s@.subrange(i as int + 1, n as int);
            assert(a@ == s@.subrange(0, i as int));
            assert(b@ =~= rest.subrange(0, j - i - 1));
            assert(c@ =~= rest.subrange(j - i, rest.len() as int));
        }
        match (ra, rb, rc) {
            (Some(major), Some(minor), Some(patch)) => Ok(Version { major, minor, patch }),
            _ => Err(ParseError {}),
        }
    }
}

/// The round trip: decoding the canonical text of any version yields that
/// very version back.
pub proof fn lemma_version_round_trip(v: Version)
    ensures
        spec_from_text(version_text(v)) == Ok::<Version, ParseError>(v),
{
    let ta = int_text(v.major as int);
    let tb = int_text(v.minor as int);
    let tc = int_text(v.patch as int);
    let s = version_text(v);
    lemma_int_text_no_dot(v.major as int);
    lemma_int_text_no_dot(v.minor as int);
    lemma_int_text_no_dot(v.patch as int);
    assert forall|j: int| 0 <= j < ta.len() implies s[j] != '.' by {
        assert(s[j] == ta[j]);
    }
    assert(s[ta.len() as int] == '.');
    lemma_first_dot_is(s, ta.len() as int);
    let rest = s.subrange(ta.len() as int + 1, s.len() as int);
    assert(rest =~= tb + seq!['.'] + tc);
    assert forall|j: int| 0 <= j < tb.len() implies rest[j] != '.' by {
        assert(rest[j] == tb[j]);
    }
    assert(rest[tb.len() as int] == '.');
    lemma_first_dot_is(rest, tb.len() as int);
    assert(s.subrange(0, ta.len() as int) =~= ta);
    assert(rest.subrange(0, tb.len() as int) =~= tb);
    assert(rest.subrange(tb.len() as int + 1, rest.len() as int) =~= tc);
    lemma_parse_int_text(v.major as int);
    lemma_parse_int_text(v.minor as int);
    lemma_parse_int_text(v.patch as int);
    assert(Version { major: v.major, minor: v.minor, patch: v.patch } == v);
}

/// `version_le` is a total order: reflexive, antisymmetric, transitive and
/// total.
pub proof fn lemma_version_total_order(a: Version, b: Version, c: Version)
    ensures
        version_le(a, a),
        version_le(a, b) && version_le(b, a) ==> a == b,
        version_le(a, b) && version_le(b, c) ==> version_le(a, c),
        version_le(a, b) || version_le(b, a),
{
}

} // verus!
