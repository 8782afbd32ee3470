use vstd::prelude::*;
use crate::error::ResolveError;
use vstd::string::StringSliceAdditionalSpecFns;

verus! {

/// A release number `major.minor.patch`, ordered lexicographically on its three parts.
#[derive(Clone, Copy, Debug, PartialEq, Eq, Structural)]
pub struct SemanticVersion {
    pub major: u64,
    pub minor: u64,
    pub patch: u64,
}

impl SemanticVersion {
    /// `self` comes no later than `other` in the release order.
    pub open spec fn at_most(self, other: SemanticVersion) -> bool {
        ||| self.major < other.major
        ||| (self.major == other.major && self.minor < other.minor)
        ||| (self.major == other.major && self.minor == other.minor && self.patch <= other.patch)
    }

    /// `self` comes strictly before `other` in the release order.
    pub open spec fn below(self, other: SemanticVersion) -> bool {
        self.at_most(other) && self != other
    }

    pub fn new(major: u64, minor: u64, patch: u64) -> (r: SemanticVersion)
        ensures
            r.major == major,
            r.minor == minor,
            r.patch == patch,
    {
        SemanticVersion { major, minor, patch }
    }

    /// Whether `self` is strictly older than `other`.
    pub fn is_older_than(&self, other: &SemanticVersion) -> (r: bool)
        ensures
            r == self.below(*other),
    {
        self.major < other.major || (self.major == other.major && (self.minor < other.minor || (
        self.minor == other.minor && self.patch < other.patch)))
    }
}

/// A range operator that the normalizer strips: `^` or `~`.
pub open spec fn is_range_op(b: u8) -> bool {
    b == 94u8 || b == 126u8
}

/// A byte that ends the base version of a specifier: blank, range operator, `|`,
/// `,`, or the `-` and `+` that open a pre-release or build suffix.
pub open spec fn is_separator(b: u8) -> bool {
    b == 32u8 || b == 9u8 || is_range_op(b) || b == 124u8 || b == 44u8 || b == 45u8 || b
        == 43u8
}

pub open spec fn is_digit(b: u8) -> bool {
    48u8 <= b <= 57u8
}

/// The specifier without its leading range operators.
pub open spec fn strip_ops(s: Seq<u8>) -> Seq<u8>
    decreases s.len(),
{
    if s.len() > 0 && is_range_op(s[0]) {
        strip_ops(s.drop_first())
    } else {
        s
    }
}

/// The longest prefix without a separator.
pub open spec fn leading_token(s: Seq<u8>) -> Seq<u8>
    decreases s.len(),
{
    if s.len() > 0 && !is_separator(s[0]) {
        seq![s[0]] + leading_token(s.drop_first())
    } else {
        Seq::empty()
    }
}

/// The base version of a specifier, as text.
pub open spec fn base_token(s: Seq<u8>) -> Seq<u8> {
    leading_token(strip_ops(s))
}

/// The number of leading decimal digits.
pub open spec fn digit_run(t: Seq<u8>) -> nat
    decreases t.len(),
{
    if t.len() > 0 && is_digit(t[0]) {
        1 + digit_run(t.drop_first())
    } else {
        0
    }
}

/// The value of a string of decimal digits.
pub open spec fn digits_value(d: Seq<u8>) -> nat
    decreases d.len(),
{
    if d.len() == 0 {
        0
    } else {
        10 * digits_value(d.drop_last()) + (d.last() - 48u8) as nat
    }
}

/// The number at the front of `t`: present when `t` starts with a digit and the value fits.
pub open spec fn leading_number(t: Seq<u8>) -> Option<u64> {
    let d = t.subrange(0, digit_run(t) as int);
    if d.len() > 0 && digits_value(d) <= u64::MAX {
        Some(digits_value(d) as u64)
    } else {
        None
    }
}

/// What follows the number at the front of `t`.
pub open spec fn after_number(t: Seq<u8>) -> Seq<u8> {
    t.subrange(digit_run(t) as int, t.len() as int)
}

/// A base version `maj`, `maj.min` or `maj.min.patch`, missing parts being zero.
pub open spec fn parse_token(t: Seq<u8>) -> Option<SemanticVersion> {
    let r1 = after_number(t);
    let t2 = r1.drop_first();
    let r2 = after_number(t2);
    let t3 = r2.drop_first();
    if leading_number(t) is None {
        None
    } else if r1.len() == 0 {
        Some(SemanticVersion { major: leading_number(t)->0, minor: 0, patch: 0 })
    } else if r1[0] != 46u8 || leading_number(t2) is None {
        None
    } else if r2.len() == 0 {
        Some(SemanticVersion { major: leading_number(t)->0, minor: leading_number(t2)->0, patch: 0 })
    } else if r2[0] != 46u8 || leading_number(t3) is None || after_number(t3).len() != 0 {
        None
    } else {
        Some(
            SemanticVersion {
                major: leading_number(t)->0,
                minor: leading_number(t2)->0,
                patch: leading_number(t3)->0,
            },
        )
    }
}

/// The base version that a range specifier names, if it can be read.
pub open spec fn normalized(s: Seq<u8>) -> Option<SemanticVersion> {
    parse_token(base_token(s))
}

/// Reads the digits of `s[i..end]` from its front: where they stop and their value, if it fits.
fn read_number(s: &[u8], i: usize, end: usize) -> (r: (usize, Option<u64>))
    requires
        i <= end <= s@.len(),
    ensures
        i <= r.0 <= end,
        r.0 == i + digit_run(s@.subrange(i as int, end as int)),
        r.1 == leading_number(s@.subrange(i as int, end as int)),
{
    let ghost t = s@.subrange(i as int, end as int);
    let mut j: usize = i;
    let mut acc: u64 = 0;
    let mut overflow: bool = false;
    while j < end && 48u8 <= s[j] && s[j] <= 57u8
        invariant
            i <= j <= end <= s@.len(),
            t == s@.subrange(i as int, end as int),
            digit_run(t) == (j - i) + digit_run(s@.subrange(j as int, end as int)),
            !overflow ==> acc == digits_value(s@.subrange(i as int, j as int)),
            overflow ==> digits_value(s@.subrange(i as int, j as int)) > u64::MAX,
        decreases end - j,
    {
        let d = s[j] - 48u8;
        proof {
            let u = s@.subrange(j as int, end as int);
            assert(u.drop_first() =~= s@.subrange(j + 1, end as int));
            let w = s@.subrange(i as int, j + 1);
            assert(w.drop_last() =~= s@.subrange(i as int, j as int));
        }
        if !overflow {
            match acc.checked_mul(10) {
                Some(m) => match m.checked_add(d as u64) {
                    Some(v) => {
                        acc = v;
                    },
                    None => {
                        overflow = true;
                    },
                },
                None => {
                    overflow = true;
                },
            }
        }
        j = j + 1;
    }
    proof {
        assert(digit_run(s@.subrange(j as int, end as int)) == 0);
        assert(t.subrange(0, digit_run(t) as int) =~= s@.subrange(i as int, j as int));
    }
    if j == i || overflow {
        (j, None)
    } else {
        (j, Some(acc))
    }
}

/// Normalizes a range specifier (`"^4.17.0"`, `"~1.2"`, `"3"`) to the version it starts
/// from: leading `^` and `~` are dropped, the text up to the next separator is read as
/// `major[.minor[.patch]]`, and missing parts are zero.
#[verifier::rlimit(50)]
pub fn normalize(specifier: &str) -> (r: Result<SemanticVersion, ResolveError>)
    ensures
        match normalized(specifier.spec_bytes()) {
            Some(v) => r == Ok::<SemanticVersion, ResolveError>(v),
            None => r == Err::<SemanticVersion, ResolveError>(ResolveError::BadVersionSpecifier),
        },
{
    let s = specifier.as_bytes();
    let n = s.len();
    let mut a: usize = 0;
    proof {
        assert(s@.subrange(0, n as int) =~= s@);
    }
    while a < n && (s[a] == 94u8 || s[a] == 126u8)
        invariant
            a <= n == s@.len(),
            strip_ops(s@.subrange(a as int, n as int)) == strip_ops(s@),
        decreases n - a,
    {
        proof {
            assert(s@.subrange(a as int, n as int).drop_first() =~= s@.subrange(a + 1, n as int));
        }
        a = a + 1;
    }
    let mut b: usize = a;
    while b < n && !(s[b] == 32u8 || s[b] == 9u8 || s[b] == 94u8 || s[b] == 126u8 || s[b] == 124u8
        || s[b] == 44u8 || s[b] == 45u8 || s[b] == 43u8)
        invariant
            a <= b <= n == s@.len(),
            strip_ops(s@) == s@.subrange(a as int, n as int),
            leading_token(s@.subrange(a as int, n as int)) == s@.subrange(a as int, b as int)
                + leading_token(s@.subrange(b as int, n as int)),
        decreases n - b,
    {
        proof {
            let u = s@.subrange(b as int, n as int);
            assert(u.drop_first() =~= s@.subrange(b + 1, n as int));
            assert(s@.subrange(a as int, b as int) + seq![s@[b as int]] =~= s@.subrange(
                a as int,
                b + 1,
            ));
            assert(s@.subrange(a as int, b as int) + (seq![s@[b as int]] + leading_token(
                s@.subrange(b + 1, n as int),
            )) =~= s@.subrange(a as int, b + 1) + leading_token(s@.subrange(b + 1, n as int)));
        }
        b = b + 1;
    }
    let ghost t = base_token(s@);
    proof {
        assert(leading_token(s@.subrange(b as int, n as int)) =~= Seq::<u8>::empty());
        assert(t =~= s@.subrange(a as int, b as int));
    }
    let (e1, n1) = read_number(s, a, b);
    proof {
        assert(s@.subrange(a as int, b as int) =~= t);
        assert(after_number(t) =~= s@.subrange(e1 as int, b as int));
    }
    let major = match n1 {
        Some(v) => v,
        None => return Err(ResolveError::BadVersionSpecifier),
    };
    if e1 == b {
        return Ok(SemanticVersion { major, minor: 0, patch: 0 });
    }
    if s[e1] != 46u8 {
        return Err(ResolveError::BadVersionSpecifier);
    }
    let ghost t2 = after_number(t).drop_first();
    proof {
        assert(t2 =~= s@.subrange(e1 + 1, b as int));
    }
    let (e2, n2) = read_number(s, e1 + 1, b);
    proof {
        assert(after_number(t2) =~= s@.subrange(e2 as int, b as int));
    }
    let minor = match n2 {
        Some(v) => v,
        None => return Err(ResolveError::BadVersionSpecifier),
    };
    if e2 == b {
        return Ok(SemanticVersion { major, minor, patch: 0 });
    }
    if s[e2] != 46u8 {
        return Err(ResolveError::BadVersionSpecifier);
    }
    let ghost t3 = after_number(t2).drop_first();
    proof {
        assert(t3 =~= s@.subrange(e2 + 1, b as int));
    }
    let (e3, n3) = read_number(s, e2 + 1, b);
    proof {
        assert(after_number(t3) =~= s@.subrange(e3 as int, b as int));
    }
    let patch = match n3 {
        Some(v) => v,
        None => return Err(ResolveError::BadVersionSpecifier),
    };
    if e3 != b {
        return Err(ResolveError::BadVersionSpecifier);
    }
    Ok(SemanticVersion { major, minor, patch })
}

/// The leading run of digits lies inside the text and holds digits only.
proof fn lemma_digit_run(t: Seq<u8>)
    ensures
        digit_run(t) <= t.len(),
        forall|k: int| 0 <= k < digit_run(t) ==> is_digit(#[trigger] t[k]),
    decreases t.len(),
{
    if t.len() > 0 && is_digit(t[0]) {
        lemma_digit_run(t.drop_first());
        assert forall|k: int| 0 <= k < digit_run(t) implies is_digit(#[trigger] t[k]) by {
            if k > 0 {
                assert(t[k] == t.drop_first()[k - 1]);
            }
        }
    }
}

/// A base version that parses holds only digits and dots.
proof fn lemma_parsed_token_is_numeric(t: Seq<u8>)
    requires
        parse_token(t) is Some,
    ensures
        forall|k: int| 0 <= k < t.len() ==> is_digit(#[trigger] t[k]) || t[k] == 46u8,
{
    lemma_digit_run(t);
    let d1 = digit_run(t) as int;
    let r1 = after_number(t);
    if r1.len() > 0 {
        let t2 = r1.drop_first();
        lemma_digit_run(t2);
        let d2 = digit_run(t2) as int;
        let r2 = after_number(t2);
        if r2.len() > 0 {
            let t3 = r2.drop_first();
            lemma_digit_run(t3);
            assert forall|k: int| 0 <= k < t.len() implies is_digit(#[trigger] t[k]) || t[k]
                == 46u8 by {
                if k >= d1 + d2 + 2 {
                    assert(t[k] == t3[k - d1 - d2 - 2]);
                } else if k == d1 + 1 + d2 {
                    assert(t[k] == r2[0]);
                } else if k > d1 {
                    assert(t[k] == t2[k - d1 - 1]);
                } else if k == d1 {
                    assert(t[k] == r1[0]);
                }
            }
        } else {
            assert forall|k: int| 0 <= k < t.len() implies is_digit(#[trigger] t[k]) || t[k]
                == 46u8 by {
                if k > d1 {
                    assert(t[k] == t2[k - d1 - 1]);
                } else if k == d1 {
                    assert(t[k] == r1[0]);
                }
            }
        }
    }
}

/// A leading `^` or `~` does not change the version that a specifier names, so
/// `^1.2.3`, `~1.2.3` and `1.2.3` all normalize alike.
pub proof fn lemma_operator_ignored(op: u8, rest: Seq<u8>)
    requires
        is_range_op(op),
    ensures
        normalized(seq![op] + rest) == normalized(rest),
{
    assert((seq![op] + rest).drop_first() =~= rest);
}

/// `maj.min.patch` written in decimal digits, with an optional leading `^` or `~`,
/// normalizes to that version.
pub proof fn lemma_plain_release(s: Seq<u8>, rest: Seq<u8>, v: SemanticVersion)
    requires
        s == rest || (s.len() > 0 && is_range_op(s[0]) && s.drop_first() == rest),
        parse_token(rest) == Some(v),
        rest.len() > 0,
    ensures
        normalized(s) == Some(v),
        normalized(rest) == Some(v),
{
    lemma_parsed_token_is_numeric(rest);
    assert(is_digit(rest[0]) || rest[0] == 46u8);
    assert(strip_ops(rest) == rest);
    lemma_token_of_numeric(rest);
    if s != rest {
        assert(s =~= seq![s[0]] + rest);
        lemma_operator_ignored(s[0], rest);
    }
}

/// Text of digits and dots is its own leading token.
proof fn lemma_token_of_numeric(t: Seq<u8>)
    requires
        forall|k: int| 0 <= k < t.len() ==> is_digit(#[trigger] t[k]) || t[k] == 46u8,
    ensures
        leading_token(t) == t,
    decreases t.len(),
{
    if t.len() > 0 {
        assert forall|k: int| 0 <= k < t.drop_first().len() implies is_digit(
            #[trigger] t.drop_first()[k],
        ) || t.drop_first()[k] == 46u8 by {
            assert(t.drop_first()[k] == t[k + 1]);
        }
        lemma_token_of_numeric(t.drop_first());
        assert(seq![t[0]] + t.drop_first() =~= t);
    }
}

/// A specifier fails to normalize when its base version is empty or holds a byte
/// that is neither a digit nor a dot.
pub proof fn lemma_malformed_rejected(s: Seq<u8>)
    requires
        base_token(s).len() == 0 || exists|k: int|
            0 <= k < base_token(s).len() && !is_digit(#[trigger] base_token(s)[k])
                && base_token(s)[k] != 46u8,
    ensures
        normalized(s) is None,
{
    let t = base_token(s);
    if parse_token(t) is Some {
        lemma_parsed_token_is_numeric(t);
        lemma_digit_run(t);
    }
}

} // verus!
