//! The expiration policy: a user-chosen token such as `"30m"`, `"2h"`
//! or `"7d"` is parsed into an [`Expiration`], which is then resolved
//! into an absolute expiry timestamp at creation time.

use vstd::prelude::*;

verus! {

/// How long a paste lives, as chosen by its creator.
#[derive(Clone, Copy, Debug, PartialEq, Eq, Structural)]
pub enum Expiration {
    /// The paste never expires.
    Never,
    /// The paste expires this many minutes after creation.
    Minutes(i64),
    /// The paste expires this many hours after creation.
    Hours(i64),
    /// The paste expires this many days after creation.
    Days(i64),
}

/// A decimal digit.
pub open spec fn is_digit(c: char) -> bool {
    '0' <= c && c <= '9'
}

/// The numeric value of a decimal digit.
pub open spec fn digit_val(c: char) -> int {
    c as int - '0' as int
}

/// Every character of `s` is a decimal digit.
pub open spec fn all_digits(s: Seq<char>) -> bool {
    forall|i: int| 0 <= i < s.len() ==> is_digit(#[trigger] s[i])
}

/// The value of a string of decimal digits, most significant first.
pub open spec fn digits_value(s: Seq<char>) -> int
    decreases s.len(),
{
    if s.len() == 0 {
        0
    } else {
        digits_value(s.drop_last()) * 10 + digit_val(s.last())
    }
}

/// The magnitude taken from the numeric prefix of a token: its decimal
/// value where the prefix is a plain run of digits whose value fits in
/// an `i64`, and `0` otherwise (the permissive default).
pub open spec fn amount_of(prefix: Seq<char>) -> int {
    if prefix.len() > 0 && all_digits(prefix) && digits_value(prefix) <= i64::MAX {
        digits_value(prefix)
    } else {
        0
    }
}

/// What a token parses to. The last character names the unit; the rest
/// is a non-negative decimal magnitude. An empty token, the literal
/// `"never"`, a token of fewer than two characters, or an unrecognized
/// unit all mean [`Expiration::Never`].
pub open spec fn parse_spec(t: Seq<char>) -> Expiration {
    if t.len() < 2 || t == "never"@ {
        Expiration::Never
    } else {
        let unit = t.last();
        let prefix = t.drop_last();
        if unit == 'm' {
            Expiration::Minutes(amount_of(prefix) as i64)
        } else if unit == 'h' {
            Expiration::Hours(amount_of(prefix) as i64)
        } else if unit == 'd' {
            Expiration::Days(amount_of(prefix) as i64)
        } else {
            Expiration::Never
        }
    }
}

/// Appending digits never shrinks the value of a digit string.
pub(crate) proof fn lemma_digits_value_grows(s: Seq<char>, i: int)
    requires
        0 <= i <= s.len(),
        all_digits(s),
    ensures
        digits_value(s.take(i)) <= digits_value(s),
        digits_value(s) >= 0,
    decreases s.len() - i,
{
    if i == s.len() {
        assert(s.take(i) =~= s);
        lemma_digits_value_nonneg(s);
    } else {
        lemma_digits_value_grows(s, i + 1);
        lemma_digits_value_nonneg(s.take(i));
        assert(s.take(i + 1).drop_last() == s.take(i));
        assert(s.take(i + 1).last() == s[i]);
        assert(digits_value(s.take(i + 1)) == digits_value(s.take(i)) * 10 + digit_val(s[i]));
        assert(digits_value(s.take(i)) * 10 >= digits_value(s.take(i))) by (nonlinear_arith)
            requires digits_value(s.take(i)) >= 0;
    }
}

/// A digit string has a non-negative value.
pub(crate) proof fn lemma_digits_value_nonneg(s: Seq<char>)
    requires
        all_digits(s),
    ensures
        digits_value(s) >= 0,
    decreases s.len(),
{
    if s.len() > 0 {
        assert(all_digits(s.drop_last()));
        lemma_digits_value_nonneg(s.drop_last());
        assert(digits_value(s.drop_last()) * 10 >= 0) by (nonlinear_arith)
            requires digits_value(s.drop_last()) >= 0;
    }
}

impl Expiration {
    /// Parse an expiration token.
    pub fn from_str(s: &str) -> (r: Expiration)
        ensures
            r == parse_spec(s@),
    {
        proof {
            reveal_strlit("never");
        }
        let n = s.unicode_len();
        if n < 2 {
            return Expiration::Never;
        }
        let unit = s.get_char(n - 1);
        if unit != 'm' && unit != 'h' && unit != 'd' {
            return Expiration::Never;
        }
        // The literal "never" ends in 'r', so it cannot reach here.
        assert(s@ != "never"@);
        let amount = parse_magnitude(s, n - 1);
        if unit == 'm' {
            Expiration::Minutes(amount)
        } else if unit == 'h' {
            Expiration::Hours(amount)
        } else {
            Expiration::Days(amount)
        }
    }

    /// Seconds from creation to expiry, at the spec level.
    pub open spec fn duration_secs(self) -> int {
        match self {
            Expiration::Never => 0,
            Expiration::Minutes(n) => n * 60,
            Expiration::Hours(n) => n * 3600,
            Expiration::Days(n) => n * 86400,
        }
    }

    /// The expiry computation stays within `i64` bounds.
    pub open spec fn fits(self, now: i64) -> bool {
        match self {
            Expiration::Never => true,
            _ => i64::MIN <= self.duration_secs() <= i64::MAX
                && i64::MIN <= now + self.duration_secs() <= i64::MAX,
        }
    }

    /// The absolute expiry a choice resolves to, at the spec level:
    /// `Never` has none; every other choice expires the stated time
    /// after `now`.
    pub open spec fn to_absolute_spec(self, now: i64) -> Option<i64> {
        match self {
            Expiration::Never => None,
            _ => Some((now + self.duration_secs()) as i64),
        }
    }

    /// Resolve this choice against the current time `now` into an
    /// absolute expiry timestamp, or `None` for `Never`.
    pub fn to_absolute(&self, now: i64) -> (r: Option<i64>)
        requires
            self.fits(now),
        ensures
            r == self.to_absolute_spec(now),
    {
        match self {
            Expiration::Never => None,
            Expiration::Minutes(n) => Some(now + *n * 60),
            Expiration::Hours(n) => Some(now + *n * 3600),
            Expiration::Days(n) => Some(now + *n * 86400),
        }
    }

    /// Whether resolving this choice at `now` stays within `i64`
    /// bounds; callers test this before [`Self::to_absolute`].
    pub fn check_fits(&self, now: i64) -> (r: bool)
        ensures
            r == self.fits(now),
    {
        let n = match self {
            Expiration::Never => return true,
            Expiration::Minutes(n) => n.checked_mul(60),
            Expiration::Hours(n) => n.checked_mul(3600),
            Expiration::Days(n) => n.checked_mul(86400),
        };
        match n {
            Some(d) => now.checked_add(d).is_some(),
            None => false,
        }
    }
}

/// Read the decimal magnitude from the first `end` characters of `s`:
/// their value where they are a non-empty run of digits fitting in an
/// `i64`, and `0` otherwise.
fn parse_magnitude(s: &str, end: usize) -> (r: i64)
    requires
        end <= s@.len(),
    ensures
        r == amount_of(s@.take(end as int)),
{
    let prefix = Ghost(s@.take(end as int));
    if end == 0 {
        return 0;
    }
    let mut acc: i64 = 0;
    let mut i: usize = 0;
    while i < end
        invariant
            0 < end <= s@.len(),
            0 <= i <= end,
            prefix@ == s@.take(end as int),
            all_digits(prefix@.take(i as int)),
            acc == digits_value(prefix@.take(i as int)),
            acc >= 0,
        decreases end - i,
    {
        let c = s.get_char(i);
        assert(prefix@[i as int] == s@[i as int]);
        if c < '0' || c > '9' {
            assert(!all_digits(prefix@));
            return 0;
        }
        let d = (c as u32 - '0' as u32) as i64;
        assert(0 <= d <= 9);
        if acc > (i64::MAX - d) / 10 {
            // The value overflows an i64; it can only grow from here.
            proof {
                assert(prefix@.take(i as int + 1).drop_last() == prefix@.take(i as int));
                assert(prefix@.take(i as int + 1).last() == prefix@[i as int]);
                assert(digits_value(prefix@.take(i as int + 1)) == acc * 10 + d);
                assert(acc * 10 + d > i64::MAX) by (nonlinear_arith)
                    requires acc > (i64::MAX - d) / 10, 0 <= d <= 9, acc >= 0;
                if all_digits(prefix@) {
                    lemma_digits_value_grows(prefix@, i as int + 1);
                }
            }
            return 0;
        }
        proof {
            assert(prefix@.take(i as int + 1).drop_last() == prefix@.take(i as int));
            assert(prefix@.take(i as int + 1).last() == prefix@[i as int]);
            assert(acc * 10 + d <= i64::MAX) by (nonlinear_arith)
                requires acc <= (i64::MAX - d) / 10, 0 <= d <= 9, acc >= 0;
            assert(acc * 10 >= 0) by (nonlinear_arith)
                requires acc >= 0;
        }
        acc = acc * 10 + d;
        i = i + 1;
    }
    assert(prefix@.take(i as int) =~= prefix@);
    acc
}


/// A token parses to `Never` exactly when it is empty, the literal
/// `"never"`, shorter than two characters, or carries a unit suffix
/// other than `m`, `h` or `d`.
pub proof fn lemma_parse_never_iff(t: Seq<char>)
    ensures
        (parse_spec(t) == Expiration::Never) <==> (t.len() == 0 || t == "never"@ || t.len() < 2
            || !(t.last() == 'm' || t.last() == 'h' || t.last() == 'd')),
{
}

/// `"30m"` resolves to half an hour past `now`, and `"2d"` to two
/// days past it.
pub proof fn lemma_parse_examples(now: i64)
    requires
        i64::MIN <= now + 30 * 60 <= i64::MAX,
        i64::MIN <= now + 2 * 86400 <= i64::MAX,
    ensures
        parse_spec("30m"@).to_absolute_spec(now) == Some((now + 30 * 60) as i64),
        parse_spec("2d"@).to_absolute_spec(now) == Some((now + 2 * 86400) as i64),
{
    reveal_strlit("30m");
    reveal_strlit("2d");
    reveal_strlit("never");
    let t1 = "30m"@;
    let prefix_m = t1.drop_last();
    assert(prefix_m =~= seq!['3', '0']);
    assert(seq!['3', '0'].drop_last() =~= seq!['3']);
    assert(seq!['3'].drop_last() =~= Seq::<char>::empty());
    assert(digits_value(Seq::<char>::empty()) == 0);
    assert(digit_val('3') == 3 && digit_val('0') == 0 && digit_val('2') == 2);
    assert(digits_value(seq!['3']) == digits_value(seq!['3'].drop_last()) * 10 + digit_val('3'));
    assert(digits_value(seq!['3']) == 3);
    assert(digits_value(seq!['3', '0']) == 30);
    assert(all_digits(prefix_m)) by {
        assert(prefix_m[0] == '3' && prefix_m[1] == '0');
    }
    assert(parse_spec(t1) == Expiration::Minutes(30));
    let t2 = "2d"@;
    let prefix_d = t2.drop_last();
    assert(prefix_d =~= seq!['2']);
    assert(seq!['2'].drop_last() =~= Seq::<char>::empty());
    assert(digits_value(seq!['2']) == digits_value(seq!['2'].drop_last()) * 10 + digit_val('2'));
    assert(digits_value(seq!['2']) == 2);
    assert(all_digits(prefix_d)) by {
        assert(prefix_d[0] == '2');
    }
    assert(parse_spec(t2) == Expiration::Days(2));
}


} // verus!
