//! A released version of the canon: a `major.minor.patch` triple.
//!
//! An instance record names a released triple and nothing else, so a
//! prerelease or build suffix is not a version here. The spelling is the
//! shortest decimal of each part, which is also the only spelling `parse`
//! accepts: a version reads back as the value it was written from.

use vstd::prelude::*;

use crate::text::{chars_of, decimal, digit_value, find_char_from, first_index_from, push_char, push_decimal};

verus! {

/// One released triple.
#[derive(Debug, Clone, Copy, PartialEq, Eq, Hash, PartialOrd, Ord)]
pub struct CanonVersion {
    /// The major part.
    pub major: u64,
    /// The minor part.
    pub minor: u64,
    /// The patch part.
    pub patch: u64,
}

/// The numeric value of a string of decimal digits.
pub open spec fn digits_value(s: Seq<char>) -> nat
    decreases s.len(),
{
    if s.len() == 0 {
        0
    } else {
        digits_value(s.drop_last()) * 10 + match digit_value(s.last()) {
            Some(d) => d,
            None => 0,
        }
    }
}

/// Every character is a decimal digit.
pub open spec fn all_digits(s: Seq<char>) -> bool {
    forall|i: int| 0 <= i < s.len() ==> (#[trigger] digit_value(s[i])) is Some
}

/// The order of released triples: by major, then minor, then patch.
pub open spec fn version_lt(a: CanonVersion, b: CanonVersion) -> bool {
    a.major < b.major || (a.major == b.major && (a.minor < b.minor || (a.minor == b.minor
        && a.patch < b.patch)))
}

impl CanonVersion {
    /// The spelling: each part in shortest decimal, joined by dots.
    pub open spec fn text(self) -> Seq<char> {
        decimal(self.major as nat).push('.') + decimal(self.minor as nat).push('.') + decimal(
            self.patch as nat,
        )
    }

    /// Whether this version is older than `other`.
    pub fn precedes(&self, other: &CanonVersion) -> (r: bool)
        ensures
            r == version_lt(*self, *other),
    {
        self.major < other.major || (self.major == other.major && (self.minor < other.minor || (
        self.minor == other.minor && self.patch < other.patch)))
    }

    /// Whether two versions are the same triple.
    pub fn same(&self, other: &CanonVersion) -> (r: bool)
        ensures
            r == (*self == *other),
    {
        self.major == other.major && self.minor == other.minor && self.patch == other.patch
    }

    /// The spelling, as `Display` would print it.
    pub fn to_text(&self) -> (s: String)
        ensures
            s@ == self.text(),
    {
        let mut s = String::new();
        push_decimal(&mut s, self.major);
        push_char(&mut s, '.');
        push_decimal(&mut s, self.minor);
        push_char(&mut s, '.');
        push_decimal(&mut s, self.patch);
        proof {
            assert(s@ =~= self.text());
        }
        s
    }

    /// Read one spelling.
    ///
    /// Exactly the spellings `text` produces are accepted, so a version
    /// read back is the version that was written.
    pub fn parse(text: &str) -> (r: Option<CanonVersion>)
        ensures
            r matches Some(v) ==> text@ == v.text(),
            r is None ==> forall|v: CanonVersion| text@ != #[trigger] v.text(),
    {
        let v = chars_of(text);
        let ghost s = v@;
        let p1 = match find_char_from(&v, '.', 0) {
            Some(p) => p,
            None => {
                proof {
                    assert forall|w: CanonVersion| s != #[trigger] w.text() by {
                        if s == w.text() {
                            lemma_text_dots(w);
                        }
                    }
                }
                return None;
            },
        };
        proof {
            crate::text::lemma_first_index_from(s, '.', 0);
        }
        let p2 = match find_char_from(&v, '.', p1 + 1) {
            Some(p) => p,
            None => {
                proof {
                    lemma_first_index_from_bounds(s, '.', 0);
                    assert forall|w: CanonVersion| s != #[trigger] w.text() by {
                        if s == w.text() {
                            lemma_text_dots(w);
                        }
                    }
                }
                return None;
            },
        };
        proof {
            crate::text::lemma_first_index_from(s, '.', 0);
            crate::text::lemma_first_index_from(s, '.', p1 + 1);
        }
        let major = parse_decimal(&v, 0, p1);
        let minor = parse_decimal(&v, p1 + 1, p2);
        let patch = parse_decimal(&v, p2 + 1, v.len());
        match (major, minor, patch) {
            (Some(a), Some(b), Some(c)) => {
                let w = CanonVersion { major: a, minor: b, patch: c };
                proof {
                    assert(s =~= w.text()) by {
                        assert(s == s.subrange(0, p1 as int).push('.') + s.subrange(
                            p1 + 1,
                            p2 as int,
                        ).push('.') + s.subrange(p2 + 1, s.len() as int));
                    }
                }
                Some(w)
            },
            _ => {
                proof {
                    assert forall|w: CanonVersion| s != #[trigger] w.text() by {
                        if s == w.text() {
                            lemma_text_dots(w);
                        }
                    }
                }
                None
            },
        }
    }
}

/// Where the dots of a spelling fall, and what lies between them.
proof fn lemma_text_dots(w: CanonVersion)
    ensures
        ({
            let s = w.text();
            let a = decimal(w.major as nat);
            let b = decimal(w.minor as nat);
            let c = decimal(w.patch as nat);
            let la = a.len() as int;
            let lb = b.len() as int;
            &&& first_index_from(s, '.', 0) == Some(la)
            &&& first_index_from(s, '.', la + 1) == Some(la + 1 + lb)
            &&& s.subrange(0, la) == a
            &&& s.subrange(la + 1, la + 1 + lb) == b
            &&& s.subrange(la + 2 + lb, s.len() as int) == c
        }),
{
    let s = w.text();
    let a = decimal(w.major as nat);
    let b = decimal(w.minor as nat);
    let c = decimal(w.patch as nat);
    let la = a.len() as int;
    let lb = b.len() as int;
    lemma_decimal_shape(w.major as nat);
    lemma_decimal_shape(w.minor as nat);
    lemma_decimal_shape(w.patch as nat);
    assert(s.subrange(0, la) =~= a);
    assert(s.subrange(la + 1, la + 1 + lb) =~= b);
    assert(s.subrange(la + 2 + lb, s.len() as int) =~= c);
    assert(s[la] == '.');
    assert(s[la + 1 + lb] == '.');
    assert forall|j: int| 0 <= j < la implies s[j] != '.' by {
        assert(s[j] == a[j]);
        assert(digit_value(a[j]) is Some);
    }
    assert forall|j: int| la + 1 <= j < la + 1 + lb implies s[j] != '.' by {
        assert(s[j] == b[j - la - 1]);
        assert(digit_value(b[j - la - 1]) is Some);
    }
    lemma_first_index_is(s, '.', 0, la);
    lemma_first_index_is(s, '.', la + 1, la + 1 + lb);
}

proof fn lemma_first_index_is(s: Seq<char>, c: char, from: int, at: int)
    requires
        0 <= from <= at < s.len(),
        s[at] == c,
        forall|j: int| from <= j < at ==> s[j] != c,
    ensures
        first_index_from(s, c, from) == Some(at),
    decreases at - from,
{
    if from < at {
        lemma_first_index_is(s, c, from + 1, at);
    }
}

proof fn lemma_first_index_from_bounds(s: Seq<char>, c: char, from: int)
    requires
        0 <= from,
    ensures
        first_index_from(s, c, from) matches Some(i) ==> from <= i < s.len(),
{
    crate::text::lemma_first_index_from(s, c, from);
}

/// Two versions with one spelling are one version.
pub proof fn lemma_text_injective(v: CanonVersion, w: CanonVersion)
    ensures
        v.text() == w.text() ==> v == w,
{
    if v.text() == w.text() {
        lemma_text_dots(v);
        lemma_text_dots(w);
        lemma_decimal_shape(v.major as nat);
        lemma_decimal_shape(w.major as nat);
        lemma_decimal_shape(v.minor as nat);
        lemma_decimal_shape(w.minor as nat);
        lemma_decimal_shape(v.patch as nat);
        lemma_decimal_shape(w.patch as nat);
    }
}

/// A decimal spelling is non-empty, all digits, free of a leading zero
/// unless it is the single digit zero, and reads back as its value.
pub proof fn lemma_decimal_shape(n: nat)
    ensures
        decimal(n).len() >= 1,
        all_digits(decimal(n)),
        decimal(n)[0] == '0' ==> n == 0 && decimal(n).len() == 1,
        digits_value(decimal(n)) == n,
    decreases n,
{
    if n < 10 {
        lemma_digit_char(n as int);
        assert(decimal(n).drop_last().len() == 0);
        assert(digits_value(decimal(n).drop_last()) == 0);
    } else {
        lemma_decimal_shape(n / 10);
        lemma_digit_char((n % 10) as int);
        let d = decimal(n);
        let p = decimal(n / 10);
        assert(d == p.push(crate::text::digit_char((n % 10) as int)));
        assert(d.drop_last() == p);
        assert forall|i: int| 0 <= i < d.len() implies (#[trigger] digit_value(d[i])) is Some by {
            if i < p.len() {
                assert(d[i] == p[i]);
            }
        }
        assert(d[0] == p[0]);
    }
}

proof fn lemma_digit_char(k: int)
    requires
        0 <= k < 10,
    ensures
        digit_value(crate::text::digit_char(k)) == Some(k as nat),
        crate::text::digit_char(k) == '0' <==> k == 0,
{
}

proof fn lemma_digit_value(c: char)
    requires
        digit_value(c) is Some,
    ensures
        crate::text::digit_char(digit_value(c)->0 as int) == c,
        digit_value(c)->0 < 10,
{
    let k = (c as u32 - '0' as u32) as int;
    assert(0 <= k < 10);
    assert(c as int == 48 + k);
}

/// A digit string with no leading zero is the decimal spelling of its value.
proof fn lemma_digits_are_decimal(s: Seq<char>)
    requires
        s.len() >= 1,
        all_digits(s),
        s[0] == '0' ==> s.len() == 1,
    ensures
        decimal(digits_value(s)) == s,
        s.len() > 1 ==> digits_value(s) >= 10,
        s[0] != '0' ==> digits_value(s) >= 1,
    decreases s.len(),
{
    let last = s.last();
    assert(digit_value(s[s.len() - 1]) is Some);
    let d = digit_value(last)->0;
    lemma_digit_value(last);
    if s.len() == 1 {
        assert(s.drop_last().len() == 0);
        assert(digits_value(s.drop_last()) == 0);
        assert(digits_value(s) == d);
        assert(decimal(d) =~= s);
    } else {
        let p = s.drop_last();
        assert(p[0] == s[0]);
        assert forall|i: int| 0 <= i < p.len() implies (#[trigger] digit_value(p[i])) is Some by {
            assert(p[i] == s[i]);
        }
        lemma_digits_are_decimal(p);
        let v = digits_value(s);
        assert(v == digits_value(p) * 10 + d);
        assert(v / 10 == digits_value(p));
        assert(v % 10 == d);
        assert(decimal(v) == decimal(v / 10).push(crate::text::digit_char((v % 10) as int)));
        assert(decimal(v) =~= s);
    }
}

/// The value of `v[from..to]` as a decimal spelling, where it is one.
fn parse_decimal(v: &Vec<char>, from: usize, to: usize) -> (r: Option<u64>)
    requires
        from <= to <= v.len(),
    ensures
        r matches Some(n) ==> v@.subrange(from as int, to as int) == decimal(n as nat),
        r is None ==> forall|n: u64| v@.subrange(from as int, to as int) != #[trigger] decimal(
            n as nat,
        ),
{
    let ghost s = v@.subrange(from as int, to as int);
    if from == to {
        proof {
            assert forall|n: u64| s != #[trigger] decimal(n as nat) by {
                lemma_decimal_shape(n as nat);
            }
        }
        return None;
    }
    if v[from] == '0' && to - from > 1 {
        proof {
            assert(s[0] == '0');
            assert forall|n: u64| s != #[trigger] decimal(n as nat) by {
                lemma_decimal_shape(n as nat);
            }
        }
        return None;
    }
    let mut acc: u64 = 0;
    let mut i = from;
    while i < to
        invariant
            from <= i <= to <= v.len(),
            s == v@.subrange(from as int, to as int),
            all_digits(v@.subrange(from as int, i as int)),
            acc as nat == digits_value(v@.subrange(from as int, i as int)),
        decreases to - i,
    {
        let c = v[i];
        if !('0' <= c && c <= '9') {
            proof {
                assert(digit_value(s[i - from]) is None);
                assert forall|n: u64| s != #[trigger] decimal(n as nat) by {
                    lemma_decimal_shape(n as nat);
                }
            }
            return None;
        }
        let d = (c as u32 - '0' as u32) as u64;
        let ghost prefix = v@.subrange(from as int, i + 1);
        proof {
            assert(prefix.drop_last() == v@.subrange(from as int, i as int));
            assert(prefix.last() == c);
            assert forall|j: int| 0 <= j < prefix.len() implies (#[trigger] digit_value(prefix[j])) is Some by {
                if j < prefix.len() - 1 {
                    assert(prefix[j] == v@.subrange(from as int, i as int)[j]);
                }
            }
        }
        if acc > (u64::MAX - d) / 10 {
            proof {
                assert(acc * 10 + d > u64::MAX) by (nonlinear_arith)
                    requires
                        acc > (u64::MAX - d) / 10,
                        d <= 9,
                ;
                assert(s.subrange(0, i + 1 - from) =~= prefix);
                assert(digits_value(prefix) == acc * 10 + d);
                assert forall|n: u64| s != #[trigger] decimal(n as nat) by {
                    lemma_decimal_shape(n as nat);
                    if s == decimal(n as nat) {
                        lemma_value_grows(s, (i + 1 - from) as int);
                    }
                }
            }
            return None;
        }
        proof {
            assert(acc * 10 + d <= u64::MAX) by (nonlinear_arith)
                requires
                    acc <= (u64::MAX - d) / 10,
                    d <= 9,
            ;
        }
        acc = acc * 10 + d;
        i += 1;
    }
    proof {
        assert(v@.subrange(from as int, to as int) == s);
        lemma_digits_are_decimal(s);
    }
    Some(acc)
}

/// A digit string is worth at least any of its prefixes.
proof fn lemma_value_grows(s: Seq<char>, k: int)
    requires
        0 <= k <= s.len(),
        all_digits(s),
    ensures
        digits_value(s) >= digits_value(s.subrange(0, k)),
    decreases s.len() - k,
{
    if k == s.len() {
        assert(s.subrange(0, k) =~= s);
    } else {
        let t = s.subrange(0, k + 1);
        assert(t.drop_last() =~= s.subrange(0, k));
        lemma_value_grows(s, k + 1);
        assert(digits_value(t) >= digits_value(s.subrange(0, k))) by (nonlinear_arith)
            requires
                digits_value(t) == digits_value(t.drop_last()) * 10 + match digit_value(t.last()) {
                    Some(d) => d,
                    None => 0,
                },
                t.drop_last() == s.subrange(0, k),
        ;
    }
}

} // verus!
