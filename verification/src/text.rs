use vstd::prelude::*;
use vstd::utf8::encode_utf8;

verus! {

/// The lower-case form of a text, as `str::to_lowercase` gives it.
pub uninterp spec fn lowercase(s: Seq<char>) -> Seq<char>;

/// The characters `'0'` to `'9'`.
pub open spec fn is_digit(c: char) -> bool {
    '0' <= c <= '9'
}

/// The number that a non-empty run of decimal digits denotes.
pub open spec fn digits_value(s: Seq<char>) -> nat
    decreases s.len(),
{
    if s.len() == 0 {
        0
    } else {
        digits_value(s.drop_last()) * 10 + ((s.last() as u32) - ('0' as u32)) as nat
    }
}

/// The digits of a number text: what follows an optional `+`.
pub open spec fn unsigned_digits(s: Seq<char>) -> Seq<char> {
    if s.len() > 0 && s[0] == '+' {
        s.drop_first()
    } else {
        s
    }
}

/// What `str::parse::<usize>` accepts and gives back: an optional `+`
/// followed by one or more decimal digits, whose value fits in a `usize`.
pub open spec fn spec_parse_usize(s: Seq<char>) -> Option<usize> {
    let digits = unsigned_digits(s);
    if digits.len() > 0 && (forall|i: int| 0 <= i < digits.len() ==> is_digit(#[trigger] digits[i]))
        && digits_value(digits) <= usize::MAX {
        Some(digits_value(digits) as usize)
    } else {
        None
    }
}

/// The decimal text of a non-negative number, without leading zeros.
pub open spec fn nat_decimal(n: nat) -> Seq<char>
    decreases n,
{
    if n < 10 {
        seq![(('0' as u32) + n) as char]
    } else {
        nat_decimal(n / 10).push((('0' as u32) + (n % 10)) as char)
    }
}

/// The decimal text of an integer, with a `-` in front of a negative one.
pub open spec fn int_decimal(n: int) -> Seq<char> {
    if n < 0 {
        seq!['-'] + nat_decimal((-n) as nat)
    } else {
        nat_decimal(n as nat)
    }
}

/// The text of an optional string.
pub open spec fn opt_str(o: Option<String>) -> Option<Seq<char>> {
    match o {
        Some(s) => Some(s@),
        None => None,
    }
}

/// Whether two optional strings hold the same text, or are both absent.
pub fn opt_str_eq(a: &Option<String>, b: &Option<String>) -> (r: bool)
    ensures
        r == (opt_str(*a) == opt_str(*b)),
{
    match (a, b) {
        (Some(x), Some(y)) => crate::map::str_eq(x.as_str(), y.as_str()),
        (None, None) => true,
        _ => false,
    }
}

/// Appends one character to a string (`String::push`).
#[verifier::external_body]
pub(crate) fn push_char(s: &mut String, c: char)
    ensures
        final(s)@ == old(s)@.push(c),
{
    s.push(c)
}

/// A run of digits has a value at least that of each of its prefixes.
proof fn lemma_digits_value_prefix(t: Seq<char>, j: int)
    requires
        0 <= j <= t.len(),
        forall|k: int| 0 <= k < t.len() ==> is_digit(#[trigger] t[k]),
    ensures
        digits_value(t.take(j)) <= digits_value(t),
    decreases t.len(),
{
    if j < t.len() {
        assert(is_digit(t[t.len() - 1]));
        lemma_digits_value_prefix(t.drop_last(), j);
        assert(t.drop_last().take(j) =~= t.take(j));
    } else {
        assert(t.take(j) =~= t);
    }
}

/// Parses a decimal index as `str::parse::<usize>` does: an optional `+`
/// and one or more decimal digits, refused when the number does not fit in
/// a `usize`.
pub(crate) fn parse_usize(s: &str) -> (r: Option<usize>)
    ensures
        r == spec_parse_usize(s@),
{
    let n = s.unicode_len();
    let mut i: usize = 0;
    if n > 0 && s.get_char(0) == '+' {
        i = 1;
    }
    let ghost digits = unsigned_digits(s@);
    assert(digits =~= s@.subrange(i as int, n as int));
    if i == n {
        return None;
    }
    let mut acc: usize = 0;
    let mut k: usize = i;
    assert(s@.subrange(i as int, i as int) =~= Seq::<char>::empty());
    while k < n
        invariant
            n == s@.len(),
            i < n,
            i <= k <= n,
            digits == s@.subrange(i as int, n as int),
            digits == unsigned_digits(s@),
            forall|j: int| i <= j < k ==> is_digit(#[trigger] s@[j]),
            acc == digits_value(s@.subrange(i as int, k as int)),
        decreases n - k,
    {
        let c = s.get_char(k);
        if !('0' <= c && c <= '9') {
            assert(digits[k - i] == s@[k as int]);
            assert(!is_digit(digits[k - i]));
            return None;
        }
        let d: usize = ((c as u32) - ('0' as u32)) as usize;
        let ghost next = s@.subrange(i as int, k + 1);
        assert(next.drop_last() =~= s@.subrange(i as int, k as int));
        assert(next.last() == c);
        if acc > (usize::MAX - d) / 10 {
            proof {
                assert(acc * 10 + d > usize::MAX) by (nonlinear_arith)
                    requires
                        acc > (usize::MAX - d) / 10,
                        d < 10,
                ;
                assert(digits.take(k + 1 - i) =~= next);
                if forall|j: int| 0 <= j < digits.len() ==> is_digit(#[trigger] digits[j]) {
                    lemma_digits_value_prefix(digits, k + 1 - i);
                }
            }
            return None;
        }
        proof {
            assert(acc * 10 + d <= usize::MAX) by (nonlinear_arith)
                requires
                    acc <= (usize::MAX - d) / 10,
                    d < 10,
            ;
        }
        acc = acc * 10 + d;
        k = k + 1;
    }
    assert(s@.subrange(i as int, n as int) =~= digits);
    Some(acc)
}

/// The lower-case form of a text (`str::to_lowercase`).
#[verifier::external_body]
pub(crate) fn to_lowercase(s: &str) -> (r: String)
    ensures
        r@ == lowercase(s@),
{
    s.to_lowercase()
}

/// The character of a decimal digit.
fn digit_char(d: u64) -> (r: char)
    requires
        d < 10,
    ensures
        r == ((('0' as u32) + d) as char),
{
    match d {
        0 => '0',
        1 => '1',
        2 => '2',
        3 => '3',
        4 => '4',
        5 => '5',
        6 => '6',
        7 => '7',
        8 => '8',
        _ => '9',
    }
}

/// The decimal text of a non-negative number.
fn nat_text(n: u64) -> (r: String)
    ensures
        r@ == nat_decimal(n as nat),
    decreases n,
{
    if n < 10 {
        let mut s = String::new();
        push_char(&mut s, digit_char(n));
        assert(s@ =~= nat_decimal(n as nat));
        s
    } else {
        let mut s = nat_text(n / 10);
        push_char(&mut s, digit_char(n % 10));
        s
    }
}

/// The decimal text of an `i32`, with a `-` in front of a negative one, as
/// `i32::to_string` writes it.
pub(crate) fn i32_to_string(n: i32) -> (r: String)
    ensures
        r@ == int_decimal(n as int),
{
    if n < 0 {
        let m: i64 = n as i64;
        let digits = nat_text((-m) as u64);
        let mut s = String::new();
        push_char(&mut s, '-');
        s.append(digits.as_str());
        assert(s@ =~= int_decimal(n as int));
        s
    } else {
        nat_text(n as u64)
    }
}

/// What `lower_case_first_letter` gives: the whole text in lower case when it
/// takes at most two bytes, else the text with its first character in lower
/// case.
pub open spec fn spec_lower_case_first_letter(s: Seq<char>) -> Seq<char> {
    if encode_utf8(s).len() <= 2 {
        lowercase(s)
    } else {
        lowercase(seq![s[0]]) + s.drop_first()
    }
}

/// Puts the first letter of a name in lower case, as directive names are
/// formed from type names; a name of at most two bytes goes to lower case
/// whole.
pub fn lower_case_first_letter(s: &str) -> (r: String)
    ensures
        r@ == spec_lower_case_first_letter(s@),
{
    if s.as_bytes().len() <= 2 {
        to_lowercase(s)
    } else {
        let n = s.unicode_len();
        assert(n > 0) by {
            if s@.len() == 0 {
                assert(encode_utf8(s@) =~= Seq::<u8>::empty());
            }
        }
        let c = s.get_char(0);
        let mut first = String::new();
        push_char(&mut first, c);
        assert(first@ =~= seq![s@[0]]);
        let lower = to_lowercase(first.as_str());
        let rest = s.substring_char(1, n);
        assert(rest@ =~= s@.drop_first());
        lower.concat(rest)
    }
}

/// `s` without the `/` characters at its end.
pub open spec fn trim_trailing_slashes(s: Seq<char>) -> Seq<char>
    decreases s.len(),
{
    if s.len() > 0 && s.last() == '/' {
        trim_trailing_slashes(s.drop_last())
    } else {
        s
    }
}

/// Removes every `/` at the end of a text, as `str::trim_end_matches('/')`.
pub fn trim_end_slashes(s: &str) -> (r: String)
    ensures
        r@ == trim_trailing_slashes(s@),
{
    let n = s.unicode_len();
    let mut end: usize = n;
    assert(s@.subrange(0, n as int) =~= s@);
    while end > 0 && s.get_char(end - 1) == '/'
        invariant
            n == s@.len(),
            end <= n,
            trim_trailing_slashes(s@) == trim_trailing_slashes(s@.subrange(0, end as int)),
        decreases end,
    {
        assert(s@.subrange(0, end as int).drop_last() =~= s@.subrange(0, end - 1));
        end = end - 1;
    }
    let t = s.substring_char(0, end);
    String::from_str(t)
}

} // verus!
