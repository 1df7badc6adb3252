use vstd::prelude::*;
use crate::mtm::{is_digit, digits_value};
use crate::storage::{decimal, push_decimal};

verus! {

/// Failures of a market-data provider.
#[derive(Debug, Clone)]
pub enum ProviderError {
    ApiKeyNotFound,
    RateLimited(u64),
    NetworkError(String),
    ParseError(String),
    InvalidSymbol(String),
    InvalidDateRange(String),
    Other(String),
}

impl ProviderError {
    /// A human-readable description.
    pub fn message(&self) -> (r: String)
        ensures
            self matches ProviderError::RateLimited(n) ==> r@ == "Rate limited, retry after "@ + decimal(*n as nat) + " seconds"@,
            self matches ProviderError::ParseError(m) ==> r@ == "Parse error: "@ + m@,
            self matches ProviderError::InvalidDateRange(m) ==> r@ == "Invalid date range: "@ + m@,
    {
        match self {
            ProviderError::ApiKeyNotFound => String::from_str("API key not found in keychain"),
            ProviderError::RateLimited(seconds) => {
                let mut m = String::from_str("Rate limited, retry after ");
                push_decimal(&mut m, *seconds);
                m.append(" seconds");
                m
            },
            ProviderError::NetworkError(msg) => prefixed("Network error: ", msg),
            ProviderError::ParseError(msg) => prefixed("Parse error: ", msg),
            ProviderError::InvalidSymbol(msg) => prefixed("Invalid symbol: ", msg),
            ProviderError::InvalidDateRange(msg) => prefixed("Invalid date range: ", msg),
            ProviderError::Other(msg) => prefixed("Error: ", msg),
        }
    }
}

fn prefixed(prefix: &str, msg: &String) -> (r: String)
    ensures
        r@ == prefix@ + msg@,
{
    let mut m = String::from_str(prefix);
    m.append(msg.as_str());
    m
}

/// `s` holds `c` exactly at `i` and `k`, with `i < k`.
pub open spec fn two_separators(s: Seq<char>, c: char, i: int, k: int) -> bool {
    &&& 0 <= i < k < s.len()
    &&& s[i] == c
    &&& s[k] == c
    &&& forall|j: int| 0 <= j < s.len() && j != i && j != k ==> #[trigger] s[j] != c
}

/// The three fields of `s` separated by `c`, when there are exactly three.
pub open spec fn three_fields(s: Seq<char>, c: char) -> Option<(Seq<char>, Seq<char>, Seq<char>)> {
    if exists|i: int, k: int| two_separators(s, c, i, k) {
        let (i, k) = choose|i: int, k: int| two_separators(s, c, i, k);
        Some((s.subrange(0, i), s.subrange(i + 1, k), s.subrange(k + 1, s.len() as int)))
    } else {
        None
    }
}

proof fn lemma_separators_unique(s: Seq<char>, c: char, i: int, k: int, i2: int, k2: int)
    requires
        two_separators(s, c, i, k),
        two_separators(s, c, i2, k2),
    ensures
        i == i2 && k == k2,
{
    assert(s[i2] == c);
    assert(s[k2] == c);
    assert(s[i] == c);
    assert(s[k] == c);
}

/// Positions of the two separators, when `s` has exactly two.
fn find_separators(s: &str, c: char) -> (r: Option<(usize, usize)>)
    ensures
        match r {
            Some((i, k)) => two_separators(s@, c, i as int, k as int),
            None => !exists|i: int, k: int| two_separators(s@, c, i, k),
        },
{
    let n = s.unicode_len();
    let mut count: usize = 0;
    let mut first: usize = 0;
    let mut second: usize = 0;
    let mut p: usize = 0;
    while p < n
        invariant
            n == s@.len(),
            p <= n,
            count <= 2,
            count >= 1 ==> first < p && s@[first as int] == c,
            count >= 2 ==> first < second < p && s@[second as int] == c,
            forall|j: int| 0 <= j < p && s@[j] == c ==> (count >= 1 && j == first) || (count >= 2 && j == second),
        decreases n - p,
    {
        if s.get_char(p) == c {
            if count == 2 {
                proof {
                    assert forall|i: int, k: int| !two_separators(s@, c, i, k) by {
                        if two_separators(s@, c, i, k) {
                            assert(s@[first as int] == c && s@[second as int] == c && s@[p as int] == c);
                        }
                    }
                }
                return None;
            }
            if count == 0 {
                first = p;
            } else {
                second = p;
            }
            count = count + 1;
        }
        p = p + 1;
    }
    if count == 2 {
        Some((first, second))
    } else {
        proof {
            assert forall|i: int, k: int| !two_separators(s@, c, i, k) by {
                if two_separators(s@, c, i, k) {
                    assert(s@[i] == c && s@[k] == c);
                }
            }
        }
        None
    }
}

pub open spec fn all_digits(s: Seq<char>) -> bool {
    forall|i: int| 0 <= i < s.len() ==> is_digit(#[trigger] s[i])
}

/// What `u32::from_str` accepts: an optional `+`, then one or more decimal
/// digits whose value fits in 32 bits.
pub open spec fn parse_u32_spec(s: Seq<char>) -> Option<int> {
    let d = if s.len() > 0 && s[0] == '+' { s.drop_first() } else { s };
    if d.len() > 0 && all_digits(d) && digits_value(d) <= u32::MAX {
        Some(digits_value(d))
    } else {
        None
    }
}

proof fn lemma_digits_nonneg(s: Seq<char>)
    requires
        forall|i: int| 0 <= i < s.len() ==> is_digit(#[trigger] s[i]),
    ensures
        digits_value(s) >= 0,
    decreases s.len(),
{
    if s.len() > 0 {
        assert forall|i: int| 0 <= i < s.drop_last().len() implies is_digit(#[trigger] s.drop_last()[i]) by {
            assert(s.drop_last()[i] == s[i]);
        }
        lemma_digits_nonneg(s.drop_last());
    }
}

/// Parses a decimal `u32` as `str::parse` does.
pub fn parse_u32(s: &str) -> (r: Option<u32>)
    ensures
        match r {
            Some(v) => parse_u32_spec(s@) == Some(v as int),
            None => parse_u32_spec(s@) is None,
        },
{
    let n = s.unicode_len();
    let start: usize = if n > 0 && s.get_char(0) == '+' { 1 } else { 0 };
    let ghost d = if s@.len() > 0 && s@[0] == '+' { s@.drop_first() } else { s@ };
    assert(d =~= s@.subrange(start as int, n as int));
    if start == n {
        return None;
    }
    let cap: u64 = 4294967296;
    let mut v: u64 = 0;
    let mut p: usize = start;
    while p < n
        invariant
            n == s@.len(),
            start <= p <= n,
            cap == 4294967296,
            d == s@.subrange(start as int, n as int),
            d == (if s@.len() > 0 && s@[0] == '+' { s@.drop_first() } else { s@ }),
            forall|i: int| start <= i < p ==> is_digit(#[trigger] s@[i]),
            v == (if digits_value(s@.subrange(start as int, p as int)) > u32::MAX { cap as int } else { digits_value(s@.subrange(start as int, p as int)) }),
        decreases n - p,
    {
        let c = s.get_char(p);
        if !('0' <= c && c <= '9') {
            proof {
                assert(d[p - start] == c);
                assert(!is_digit(d[p - start]));
                let dd = if s@.len() > 0 && s@[0] == '+' { s@.drop_first() } else { s@ };
                assert(dd == d);
                assert(!all_digits(dd));
            }
            return None;
        }
        let ghost pre = s@.subrange(start as int, p as int);
        let ghost sub = s@.subrange(start as int, p as int + 1);
        proof {
            assert(sub.drop_last() =~= pre);
            assert(sub.last() == c);
            assert forall|i: int| 0 <= i < pre.len() implies is_digit(#[trigger] pre[i]) by {
                assert(pre[i] == s@[start + i]);
            }
            lemma_digits_nonneg(pre);
        }
        let digit = (c as u64) - ('0' as u64);
        if v >= cap {
            v = cap;
        } else {
            let w = v * 10 + digit;
            v = if w > u32::MAX as u64 { cap } else { w };
        }
        p = p + 1;
    }
    proof {
        assert forall|i: int| 0 <= i < d.len() implies is_digit(#[trigger] d[i]) by {
            assert(d[i] == s@[start + i]);
        }
        assert(all_digits(d));
        assert(p == n);
        assert(s@.subrange(start as int, p as int) == d);
    }
    if v >= cap {
        None
    } else {
        Some(v as u32)
    }
}

/// Appends `n` with at least two digits (a leading zero below ten).
fn push_two_digits(s: &mut String, n: u32)
    ensures
        final(s)@ == old(s)@ + two_digits(n as nat),
{
    if n < 10 {
        s.append("0");
        proof {
            reveal_strlit("0");
        }
    }
    push_decimal(s, n as u64);
}

pub open spec fn two_digits(n: nat) -> Seq<char> {
    if n < 10 { seq!['0'] + decimal(n) } else { decimal(n) }
}

/// `MM/DD/YYYY` rewritten as `YYYY-MM-DD` for APIs, when the month is 1 to
/// 12, the day 1 to 31 and the year 1900 to 2100.
pub open spec fn api_date(s: Seq<char>) -> Option<Seq<char>> {
    match three_fields(s, '/') {
        None => None,
        Some((m, d, y)) => match (parse_u32_spec(m), parse_u32_spec(d), parse_u32_spec(y)) {
            (Some(mm), Some(dd), Some(yy)) => if 1 <= mm <= 12 && 1 <= dd <= 31 && 1900 <= yy <= 2100 {
                Some(decimal(yy as nat) + seq!['-'] + two_digits(mm as nat) + seq!['-'] + two_digits(dd as nat))
            } else {
                None
            },
            _ => None,
        },
    }
}

/// `YYYY-MM-DD` rewritten as `MM/DD/YYYY` for display; the year is kept as
/// written.
pub open spec fn ui_date(s: Seq<char>) -> Option<Seq<char>> {
    match three_fields(s, '-') {
        None => None,
        Some((y, m, d)) => match (parse_u32_spec(m), parse_u32_spec(d)) {
            (Some(mm), Some(dd)) => Some(two_digits(mm as nat) + seq!['/'] + two_digits(dd as nat) + seq!['/'] + y),
            _ => None,
        },
    }
}

/// Converts `MM/DD/YYYY` to `YYYY-MM-DD`; anything else is an invalid date
/// range.
pub fn normalize_date_for_api(date: &str) -> (r: Result<String, ProviderError>)
    ensures
        match r {
            Ok(v) => api_date(date@) == Some(v@),
            Err(e) => api_date(date@) is None && e is InvalidDateRange,
        },
{
    let (i, k) = match find_separators(date, '/') {
        Some(p) => p,
        None => {
            return Err(ProviderError::InvalidDateRange(prefixed("Invalid date format: ", &date.to_owned())));
        },
    };
    proof {
        let (ci, ck) = choose|i2: int, k2: int| two_separators(date@, '/', i2, k2);
        lemma_separators_unique(date@, '/', i as int, k as int, ci, ck);
    }
    let n = date.unicode_len();
    let month = parse_u32(date.substring_char(0, i));
    let day = parse_u32(date.substring_char(i + 1, k));
    let year = parse_u32(date.substring_char(k + 1, n));
    match (month, day, year) {
        (Some(m), Some(d), Some(y)) => {
            if m < 1 || m > 12 || d < 1 || d > 31 || y < 1900 || y > 2100 {
                return Err(ProviderError::InvalidDateRange(prefixed("Invalid date values: ", &date.to_owned())));
            }
            let mut out = String::new();
            push_decimal(&mut out, y as u64);
            out.append("-");
            push_two_digits(&mut out, m);
            out.append("-");
            push_two_digits(&mut out, d);
            proof {
                reveal_strlit("-");
                assert(out@ =~= decimal(y as nat) + seq!['-'] + two_digits(m as nat) + seq!['-'] + two_digits(d as nat));
            }
            Ok(out)
        },
        _ => Err(ProviderError::InvalidDateRange(prefixed("Invalid date values: ", &date.to_owned()))),
    }
}

/// Converts `YYYY-MM-DD` to `MM/DD/YYYY`; anything else is a parse error.
pub fn normalize_date_for_ui(date: &str) -> (r: Result<String, ProviderError>)
    ensures
        match r {
            Ok(v) => ui_date(date@) == Some(v@),
            Err(e) => ui_date(date@) is None && e is ParseError,
        },
{
    let (i, k) = match find_separators(date, '-') {
        Some(p) => p,
        None => {
            return Err(ProviderError::ParseError(prefixed("Invalid API date format: ", &date.to_owned())));
        },
    };
    proof {
        let (ci, ck) = choose|i2: int, k2: int| two_separators(date@, '-', i2, k2);
        lemma_separators_unique(date@, '-', i as int, k as int, ci, ck);
    }
    let n = date.unicode_len();
    let year = date.substring_char(0, i);
    let month = parse_u32(date.substring_char(i + 1, k));
    let day = parse_u32(date.substring_char(k + 1, n));
    match (month, day) {
        (Some(m), Some(d)) => {
            let mut out = String::new();
            push_two_digits(&mut out, m);
            out.append("/");
            push_two_digits(&mut out, d);
            out.append("/");
            out.append(year);
            proof {
                reveal_strlit("/");
                assert(out@ =~= two_digits(m as nat) + seq!['/'] + two_digits(d as nat) + seq!['/'] + year@);
            }
            Ok(out)
        },
        _ => Err(ProviderError::ParseError(prefixed("Invalid date values: ", &date.to_owned()))),
    }
}

} // verus!
