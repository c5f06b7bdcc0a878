//! Semantic versions tag events and snapshots and select which upcasters
//! apply to a record written under an older schema.

use vstd::prelude::*;
use vstd::string::StringSliceAdditionalSpecFns;

verus! {

/// A semantic version `(major, minor, patch)` with a total ordering.
#[derive(Debug, Clone, Copy, PartialEq, Eq, Structural)]
pub struct SemanticVersion {
    pub major: u32,
    pub minor: u32,
    pub patch: u32,
}

impl SemanticVersion {
    /// The lexicographic, total ordering on `(major, minor, patch)`.
    pub open spec fn lt_spec(self, other: Self) -> bool {
        ||| self.major < other.major
        ||| (self.major == other.major && self.minor < other.minor)
        ||| (self.major == other.major && self.minor == other.minor && self.patch < other.patch)
    }

    /// `self` is no newer than `other`.
    pub open spec fn le_spec(self, other: Self) -> bool {
        self.lt_spec(other) || self == other
    }

    pub fn new(major: u32, minor: u32, patch: u32) -> (r: Self)
        ensures
            r == (SemanticVersion { major, minor, patch }),
    {
        SemanticVersion { major, minor, patch }
    }

    /// Whether `self` is strictly older than `other`.
    pub fn lt(&self, other: &Self) -> (b: bool)
        ensures
            b == self.lt_spec(*other),
    {
        if self.major != other.major {
            self.major < other.major
        } else if self.minor != other.minor {
            self.minor < other.minor
        } else {
            self.patch < other.patch
        }
    }

    /// The ordering is total: any two versions are comparable, and never both
    /// ways at once.
    pub proof fn lemma_order_total(a: Self, b: Self)
        ensures
            a.lt_spec(b) || b.lt_spec(a) || a == b,
            !(a.lt_spec(b) && b.lt_spec(a)),
            !(a.lt_spec(b) && a == b),
    {
    }

    /// The ordering is transitive.
    pub proof fn lemma_order_transitive(a: Self, b: Self, c: Self)
        requires
            a.lt_spec(b),
            b.lt_spec(c),
        ensures
            a.lt_spec(c),
    {
    }
}

/// The error returned where a string is not a dotted semantic version.
#[derive(Debug, Clone, Copy, PartialEq, Eq)]
pub struct SemanticVersionError {}

impl SemanticVersionError {
    /// The human-readable description of the error.
    pub fn description(&self) -> (r: String)
        ensures
            r@ == "not a semantic version"@,
    {
        "not a semantic version".to_owned()
    }
}

/// An ASCII decimal digit.
pub open spec fn is_digit_byte(b: u8) -> bool {
    48 <= b <= 57
}

/// The number the digits spell, most significant first.
pub open spec fn digits_value(s: Seq<u8>) -> int
    decreases s.len(),
{
    if s.len() == 0 {
        0
    } else {
        digits_value(s.drop_last()) * 10 + (s.last() - 48)
    }
}

pub open spec fn all_digit_bytes(s: Seq<u8>) -> bool {
    forall|k: int| 0 <= k < s.len() ==> is_digit_byte(#[trigger] s[k])
}

/// A run of digits naming a number that fits the version field.
pub open spec fn valid_component(s: Seq<u8>) -> bool {
    s.len() > 0 && all_digit_bytes(s) && digits_value(s) <= u32::MAX
}

/// Whether the bytes split at `i` and `j` into `major.minor.patch`.
pub open spec fn version_text_split(s: Seq<u8>, i: int, j: int) -> bool {
    &&& 0 <= i < j < s.len()
    &&& s[i] == 46
    &&& s[j] == 46
    &&& valid_component(s.subrange(0, i))
    &&& valid_component(s.subrange(i + 1, j))
    &&& valid_component(s.subrange(j + 1, s.len() as int))
}

/// Whether the bytes spell a dotted semantic version at all.
pub open spec fn is_version_text(s: Seq<u8>) -> bool {
    exists|i: int, j: int| version_text_split(s, i, j)
}

/// The value of a digit prefix never exceeds the value of the whole run.
proof fn lemma_digits_value_bounds(s: Seq<u8>, k: int)
    requires
        all_digit_bytes(s),
        0 <= k <= s.len(),
    ensures
        0 <= digits_value(s.take(k)) <= digits_value(s),
    decreases s.len() - k,
{
    if k == s.len() {
        assert(s.take(k) =~= s);
        lemma_digits_value_nonneg(s);
    } else {
        lemma_digits_value_bounds(s, k + 1);
        assert(s.take(k + 1).drop_last() =~= s.take(k));
        assert(s.take(k + 1).last() == s[k]);
        lemma_digits_value_nonneg(s.take(k));
    }
}

proof fn lemma_digits_value_nonneg(s: Seq<u8>)
    requires
        all_digit_bytes(s),
    ensures
        digits_value(s) >= 0,
    decreases s.len(),
{
    if s.len() > 0 {
        assert(forall|k: int| 0 <= k < s.drop_last().len() ==> s.drop_last()[k] == s[k]);
        lemma_digits_value_nonneg(s.drop_last());
        assert(is_digit_byte(s.last()));
    }
}

/// Components hold digits only, so the two dots of a well-formed version
/// string are exactly the first dot and the first dot after it.
proof fn lemma_version_split_unique(s: Seq<u8>, i: int, j: int, i2: int, j2: int)
    requires
        0 <= i < j < s.len(),
        s[i] == 46,
        s[j] == 46,
        forall|k: int| 0 <= k < i ==> s[k] != 46,
        forall|k: int| i < k < j ==> s[k] != 46,
        version_text_split(s, i2, j2),
    ensures
        i2 == i,
        j2 == j,
{
    if i2 < i {
        assert(s[i2] != 46);
    }
    if i2 > i {
        assert(s.subrange(0, i2)[i] == s[i]);
        assert(is_digit_byte(s[i]));
    }
    assert(i2 == i);
    if j2 < j {
        assert(s[j2] != 46);
    }
    if j2 > j {
        assert(s.subrange(i + 1, j2)[j - i - 1] == s[j]);
        assert(is_digit_byte(s[j]));
    }
}

/// The index of the first dot at or after `from`, if any.
fn find_dot(bytes: &[u8], from: usize) -> (r: Option<usize>)
    requires
        from <= bytes@.len(),
    ensures
        match r {
            Some(d) => from <= d < bytes@.len() && bytes@[d as int] == 46 && (forall|k: int|
                from <= k < d ==> bytes@[k] != 46),
            None => forall|k: int| from <= k < bytes@.len() ==> bytes@[k] != 46,
        },
{
    let mut d = from;
    while d < bytes.len()
        invariant
            from <= d <= bytes@.len(),
            forall|k: int| from <= k < d ==> bytes@[k] != 46,
        decreases bytes@.len() - d,
    {
        if bytes[d] == 46 {
            return Some(d);
        }
        d = d + 1;
    }
    None
}

/// Read one dotted component: succeeds exactly on a nonempty digit run
/// whose value fits, and returns that value.
fn parse_component(bytes: &[u8], start: usize, end: usize) -> (r: Result<
    u32,
    SemanticVersionError,
>)
    requires
        start <= end <= bytes@.len(),
    ensures
        match r {
            Ok(v) => valid_component(bytes@.subrange(start as int, end as int)) && digits_value(
                bytes@.subrange(start as int, end as int),
            ) == v,
            Err(_) => !valid_component(bytes@.subrange(start as int, end as int)),
        },
{
    let ghost component = bytes@.subrange(start as int, end as int);
    if start == end {
        return Err(SemanticVersionError {});
    }
    let mut value: u32 = 0;
    let mut k = start;
    while k < end
        invariant
            start <= k <= end <= bytes@.len(),
            component == bytes@.subrange(start as int, end as int),
            all_digit_bytes(component.take(k - start)),
            digits_value(component.take(k - start)) == value,
        decreases end - k,
    {
        let b = bytes[k];
        proof {
            assert(component[k - start] == bytes@[k as int]);
        }
        if b < 48 || b > 57 {
            return Err(SemanticVersionError {});
        }
        let d = (b - 48) as u32;
        if value > (u32::MAX - d) / 10 {
            proof {
                assert(component.take(k - start + 1).drop_last() =~= component.take(k - start));
                assert(component.take(k - start + 1).last() == component[k - start]);
                if all_digit_bytes(component) {
                    lemma_digits_value_bounds(component, k - start + 1);
                    assert(digits_value(component.take(k - start + 1)) > u32::MAX) by (
                    nonlinear_arith)
                        requires
                            digits_value(component.take(k - start + 1)) == digits_value(
                                component.take(k - start),
                            ) * 10 + (component.take(k - start + 1).last() - 48),
                            digits_value(component.take(k - start)) == value,
                            component.take(k - start + 1).last() == b,
                            d == b - 48,
                            value > (u32::MAX - d) / 10,
                            0 <= d <= 9,
                            value <= u32::MAX,
                    ;
                }
            }
            return Err(SemanticVersionError {});
        }
        proof {
            assert(value * 10 + d <= u32::MAX) by (nonlinear_arith)
                requires
                    0 <= d <= 9,
                    0 <= value,
                    value <= (u32::MAX - d) / 10,
            ;
            assert(component.take(k - start + 1).drop_last() =~= component.take(k - start));
            assert(component.take(k - start + 1).last() == component[k - start]);
        }
        value = value * 10 + d;
        k = k + 1;
    }
    proof {
        assert(component.take(end - start) =~= component);
    }
    Ok(value)
}

impl SemanticVersion {
    /// Read a version from its dotted decimal text. Succeeds exactly on
    /// `major.minor.patch` with each part a nonempty digit run whose value
    /// fits the field, and returns exactly the spelled version.
    pub fn parse(text: &str) -> (r: Result<SemanticVersion, SemanticVersionError>)
        ensures
            r is Ok <==> is_version_text(text.spec_bytes()),
            match r {
                Ok(v) => exists|i: int, j: int|
                    {
                        &&& #[trigger] version_text_split(text.spec_bytes(), i, j)
                        &&& digits_value(text.spec_bytes().subrange(0, i)) == v.major
                        &&& digits_value(text.spec_bytes().subrange(i + 1, j)) == v.minor
                        &&& digits_value(
                            text.spec_bytes().subrange(j + 1, text.spec_bytes().len() as int),
                        ) == v.patch
                    },
                Err(_) => !is_version_text(text.spec_bytes()),
            },
    {
        let bytes = text.as_bytes();
        let total = bytes.len();
        let ghost s = text.spec_bytes();
        let first = match find_dot(bytes, 0) {
            Some(i) => i,
            None => {
                proof {
                    assert forall|i: int, j: int| !version_text_split(s, i, j) by {
                        if version_text_split(s, i, j) {
                            assert(s[i] != 46);
                        }
                    }
                }
                return Err(SemanticVersionError {});
            },
        };
        let second = match find_dot(bytes, first + 1) {
            Some(j) => j,
            None => {
                proof {
                    assert forall|i: int, j: int| !version_text_split(s, i, j) by {
                        if version_text_split(s, i, j) {
                            if i < first {
                                assert(s[i] != 46);
                            }
                            if i > first {
                                assert(s.subrange(0, i)[first as int] == s[first as int]);
                            }
                            assert(s[j] != 46);
                        }
                    }
                }
                return Err(SemanticVersionError {});
            },
        };
        let major = match parse_component(bytes, 0, first) {
            Ok(v) => v,
            Err(e) => {
                proof {
                    lemma_reject_with_dots(s, first as int, second as int);
                }
                return Err(e);
            },
        };
        let minor = match parse_component(bytes, first + 1, second) {
            Ok(v) => v,
            Err(e) => {
                proof {
                    lemma_reject_with_dots(s, first as int, second as int);
                }
                return Err(e);
            },
        };
        let patch = match parse_component(bytes, second + 1, total) {
            Ok(v) => v,
            Err(e) => {
                proof {
                    lemma_reject_with_dots(s, first as int, second as int);
                }
                return Err(e);
            },
        };
        let version = SemanticVersion { major, minor, patch };
        proof {
            assert(version_text_split(s, first as int, second as int));
        }
        Ok(version)
    }
}

/// With the two leading dots located, a rejected component rejects the
/// whole string: no other split can rescue it.
proof fn lemma_reject_with_dots(s: Seq<u8>, i: int, j: int)
    requires
        0 <= i < j < s.len(),
        s[i] == 46,
        s[j] == 46,
        forall|k: int| 0 <= k < i ==> s[k] != 46,
        forall|k: int| i < k < j ==> s[k] != 46,
        !(valid_component(s.subrange(0, i)) && valid_component(s.subrange(i + 1, j))
            && valid_component(s.subrange(j + 1, s.len() as int))),
    ensures
        !is_version_text(s),
{
    if is_version_text(s) {
        let (i2, j2) = choose|i2: int, j2: int| version_text_split(s, i2, j2);
        lemma_version_split_unique(s, i, j, i2, j2);
    }
}

} // verus!
