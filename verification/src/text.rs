//! Character and string utilities shared by the lexer, the parsers and the
//! translator: character classes, first-occurrence search, line splitting,
//! integer parsing and decimal rendering.

use vstd::prelude::*;

verus! {

// ---------------------------------------------------------------------------
// character classes
// ---------------------------------------------------------------------------

/// Horizontal whitespace: what separates words within a line.
pub open spec fn is_space_char(c: char) -> bool {
    c == ' ' || c == '\t' || c == '\r'
}

pub open spec fn is_digit_char(c: char) -> bool {
    '0' <= c && c <= '9'
}

/// The numeric value of a decimal digit character.
pub open spec fn digit_val(c: char) -> int {
    c as int - '0' as int
}

/// The decimal digit character for a value in `[0, 9]`.
pub open spec fn digit_char(d: int) -> char {
    if d == 0 {
        '0'
    } else if d == 1 {
        '1'
    } else if d == 2 {
        '2'
    } else if d == 3 {
        '3'
    } else if d == 4 {
        '4'
    } else if d == 5 {
        '5'
    } else if d == 6 {
        '6'
    } else if d == 7 {
        '7'
    } else if d == 8 {
        '8'
    } else {
        '9'
    }
}

/// The views of a sequence of owned strings.
pub open spec fn str_views(ws: Seq<String>) -> Seq<Seq<char>> {
    Seq::new(ws.len(), |i: int| ws[i]@)
}

// ---------------------------------------------------------------------------
// first-occurrence search
// ---------------------------------------------------------------------------

/// Index of the first occurrence of `c` in `s`, if any.
pub open spec fn find_char(s: Seq<char>, c: char) -> Option<int>
    decreases s.len(),
{
    if s.len() == 0 {
        None
    } else if s[0] == c {
        Some(0)
    } else {
        match find_char(s.subrange(1, s.len() as int), c) {
            None => None,
            Some(i) => Some(i + 1),
        }
    }
}

/// `find_char` returns the least index holding `c`, or `None` when `c` is absent.
pub proof fn lemma_find_char_props(s: Seq<char>, c: char)
    ensures
        match find_char(s, c) {
            Some(i) => 0 <= i < s.len() && s[i] == c && (forall|j: int| 0 <= j < i ==> s[j] != c),
            None => forall|j: int| 0 <= j < s.len() ==> s[j] != c,
        },
    decreases s.len(),
{
    if s.len() == 0 {
    } else if s[0] == c {
    } else {
        let rest = s.subrange(1, s.len() as int);
        lemma_find_char_props(rest, c);
        assert(forall|j: int| 0 <= j < rest.len() ==> rest[j] == s[j + 1]);
        match find_char(rest, c) {
            Some(i) => {
                assert(s[i + 1] == rest[i]);
                assert forall|j: int| 0 <= j < i + 1 implies s[j] != c by {
                    if j > 0 {
                        assert(s[j] == rest[j - 1]);
                    }
                }
            },
            None => {
                assert forall|j: int| 0 <= j < s.len() implies s[j] != c by {
                    if j > 0 {
                        assert(s[j] == rest[j - 1]);
                    }
                }
            },
        }
    }
}

/// Finds the first occurrence of `c` in `s`.
pub fn str_find_char(s: &str, c: char) -> (r: Option<usize>)
    ensures
        match r {
            Some(i) => find_char(s@, c) == Some(i as int),
            None => find_char(s@, c) is None,
        },
    decreases s@.len(),
{
    let n = s.unicode_len();
    if n == 0 {
        return None;
    }
    if s.get_char(0) == c {
        return Some(0);
    }
    let rest = s.substring_char(1, n);
    match str_find_char(rest, c) {
        None => None,
        Some(i) => {
            proof {
                lemma_find_char_props(rest@, c);
            }
            Some(i + 1)
        },
    }
}

/// `pat` occurs in `s` at index `i`.
pub open spec fn occurs_at(s: Seq<char>, pat: Seq<char>, i: int) -> bool {
    0 <= i && i + pat.len() <= s.len() && s.subrange(i, i + pat.len() as int) == pat
}

/// Index of the first occurrence of `pat` in `s`, if any.
pub open spec fn find_sub(s: Seq<char>, pat: Seq<char>) -> Option<int>
    decreases s.len(),
{
    if pat.len() == 0 {
        Some(0)
    } else if s.len() < pat.len() {
        None
    } else if s.subrange(0, pat.len() as int) == pat {
        Some(0)
    } else {
        match find_sub(s.subrange(1, s.len() as int), pat) {
            None => None,
            Some(i) => Some(i + 1),
        }
    }
}

/// `find_sub` returns the least occurrence index, or `None` when `pat` is absent.
pub proof fn lemma_find_sub_props(s: Seq<char>, pat: Seq<char>)
    ensures
        match find_sub(s, pat) {
            Some(i) => occurs_at(s, pat, i) && (forall|j: int| 0 <= j < i ==> !occurs_at(s, pat, j)),
            None => forall|j: int| !occurs_at(s, pat, j),
        },
    decreases s.len(),
{
    if pat.len() == 0 {
        assert(occurs_at(s, pat, 0)) by {
            assert(s.subrange(0, 0) =~= pat);
        }
    } else if s.len() < pat.len() {
    } else if s.subrange(0, pat.len() as int) == pat {
    } else {
        let rest = s.subrange(1, s.len() as int);
        lemma_find_sub_props(rest, pat);
        assert forall|j: int| 0 <= j && j + pat.len() <= rest.len() implies (occurs_at(
            rest,
            pat,
            j,
        ) <==> occurs_at(s, pat, j + 1)) by {
            assert(rest.subrange(j, j + pat.len() as int) =~= s.subrange(
                j + 1,
                j + 1 + pat.len() as int,
            ));
        }
        match find_sub(rest, pat) {
            Some(i) => {
                assert(occurs_at(s, pat, i + 1));
                assert forall|j: int| 0 <= j < i + 1 implies !occurs_at(s, pat, j) by {
                    if j > 0 {
                        assert(!occurs_at(rest, pat, j - 1));
                    }
                }
            },
            None => {
                assert forall|j: int| !occurs_at(s, pat, j) by {
                    if j > 0 {
                        assert(!occurs_at(rest, pat, j - 1));
                    }
                }
            },
        }
    }
}

/// Compares `s`'s prefix of `pat`'s length against `pat`.
fn str_starts_with(s: &str, pat: &str) -> (r: bool)
    requires
        pat@.len() <= s@.len(),
    ensures
        r == (s@.subrange(0, pat@.len() as int) == pat@),
{
    let m = pat.unicode_len();
    let mut j: usize = 0;
    while j < m
        invariant
            0 <= j <= m,
            m == pat@.len(),
            m <= s@.len(),
            forall|k: int| 0 <= k < j ==> s@[k] == pat@[k],
        decreases m - j,
    {
        if s.get_char(j) != pat.get_char(j) {
            proof {
                assert(s@.subrange(0, pat@.len() as int)[j as int] != pat@[j as int]);
            }
            return false;
        }
        j += 1;
    }
    proof {
        assert(s@.subrange(0, pat@.len() as int) =~= pat@);
    }
    true
}

/// Finds the first occurrence of `pat` in `s`.
pub fn str_find_sub(s: &str, pat: &str) -> (r: Option<usize>)
    ensures
        match r {
            Some(i) => find_sub(s@, pat@) == Some(i as int),
            None => find_sub(s@, pat@) is None,
        },
    decreases s@.len(),
{
    let n = s.unicode_len();
    if pat.unicode_len() == 0 {
        return Some(0);
    }
    if n < pat.unicode_len() {
        return None;
    }
    if str_starts_with(s, pat) {
        return Some(0);
    }
    let rest = s.substring_char(1, n);
    match str_find_sub(rest, pat) {
        None => None,
        Some(i) => {
            proof {
                lemma_find_sub_props(rest@, pat@);
            }
            Some(i + 1)
        },
    }
}

/// The text before and after the first occurrence of `pat` in `s`, if any.
pub open spec fn split_on(s: Seq<char>, pat: Seq<char>) -> Option<(Seq<char>, Seq<char>)> {
    match find_sub(s, pat) {
        None => None,
        Some(i) => Some(
            (s.subrange(0, i), s.subrange(i + pat.len() as int, s.len() as int)),
        ),
    }
}

/// Splits `s` at the first occurrence of the anchor `pat`, dropping the anchor.
pub fn str_split_on(s: &str, pat: &str) -> (r: Option<(String, String)>)
    ensures
        match r {
            Some(p) => split_on(s@, pat@) == Some((p.0@, p.1@)),
            None => split_on(s@, pat@) is None,
        },
{
    match str_find_sub(s, pat) {
        None => None,
        Some(i) => {
            proof {
                lemma_find_sub_props(s@, pat@);
            }
            let n = s.unicode_len();
            let before = s.substring_char(0, i);
            let after = s.substring_char(i + pat.unicode_len(), n);
            Some((String::from_str(before), String::from_str(after)))
        },
    }
}

// ---------------------------------------------------------------------------
// blank lines
// ---------------------------------------------------------------------------

/// A line holding nothing but horizontal whitespace.
pub open spec fn all_spaces(s: Seq<char>) -> bool {
    forall|i: int| 0 <= i < s.len() ==> is_space_char(s[i])
}

/// Whether a line is blank (empty or all whitespace).
pub fn is_blank(s: &str) -> (r: bool)
    ensures
        r == all_spaces(s@),
{
    let n = s.unicode_len();
    let mut i: usize = 0;
    while i < n
        invariant
            0 <= i <= n,
            n == s@.len(),
            forall|j: int| 0 <= j < i ==> is_space_char(s@[j]),
        decreases n - i,
    {
        let c = s.get_char(i);
        if !(c == ' ' || c == '\t' || c == '\r') {
            return false;
        }
        i += 1;
    }
    true
}

// ---------------------------------------------------------------------------
// line splitting
// ---------------------------------------------------------------------------

/// Drops one trailing carriage return, as `str::lines` does.
pub open spec fn strip_cr(s: Seq<char>) -> Seq<char> {
    if s.len() > 0 && s[s.len() - 1] == '\r' {
        s.subrange(0, s.len() - 1)
    } else {
        s
    }
}

/// The lines of `s`: split on `'\n'`, one trailing `'\r'` removed per line,
/// with no final empty line when the text ends in a newline.
pub open spec fn line_split(s: Seq<char>) -> Seq<Seq<char>>
    decreases s.len(),
    via line_split_dec
{
    if s.len() == 0 {
        Seq::empty()
    } else {
        match find_char(s, '\n') {
            None => seq![strip_cr(s)],
            Some(i) => {
                if 0 <= i < s.len() {
                    seq![strip_cr(s.subrange(0, i))] + line_split(
                        s.subrange(i + 1, s.len() as int),
                    )
                } else {
                    Seq::empty()
                }
            },
        }
    }
}

#[via_fn]
proof fn line_split_dec(s: Seq<char>) {
    lemma_find_char_props(s, '\n');
}

/// Splits source text into lines.
pub fn split_lines(s: &str) -> (r: Vec<String>)
    ensures
        r@.len() == line_split(s@).len(),
        forall|i: int| 0 <= i < r@.len() ==> r@[i]@ == #[trigger] line_split(s@)[i],
    decreases s@.len(),
{
    let n = s.unicode_len();
    if n == 0 {
        return Vec::new();
    }
    match str_find_char(s, '\n') {
        None => {
            let line = strip_cr_exec(s);
            let mut r: Vec<String> = Vec::new();
            r.push(line);
            r
        },
        Some(i) => {
            proof {
                lemma_find_char_props(s@, '\n');
            }
            let head = strip_cr_exec(s.substring_char(0, i));
            let rest = s.substring_char(i + 1, n);
            let mut r: Vec<String> = Vec::new();
            r.push(head);
            let mut tail_lines = split_lines(rest);
            let mut k: usize = 0;
            let ghost spec_lines = line_split(s@);
            proof {
                assert(spec_lines[0] == strip_cr(s@.subrange(0, i as int)));
                assert(spec_lines =~= seq![strip_cr(s@.subrange(0, i as int))] + line_split(
                    rest@,
                ));
            }
            let tn = tail_lines.len();
            while k < tn
                invariant
                    0 <= k <= tn,
                    tn == tail_lines@.len(),
                    r@.len() == 1 + k,
                    spec_lines == line_split(s@),
                    spec_lines.len() == 1 + tn,
                    forall|j: int| 0 <= j < tail_lines@.len() ==> tail_lines@[j]@
                        == #[trigger] line_split(rest@)[j],
                    line_split(rest@).len() == tn,
                    forall|j: int| 0 <= j < r@.len() ==> r@[j]@ == #[trigger] spec_lines[j],
                    forall|j: int| 1 <= j < spec_lines.len() ==> spec_lines[j] == line_split(
                        rest@,
                    )[j - 1],
                decreases tn - k,
            {
                let line = tail_lines[k].clone();
                r.push(line);
                k += 1;
            }
            r
        },
    }
}

/// Removes one trailing carriage return from a line.
fn strip_cr_exec(s: &str) -> (r: String)
    ensures
        r@ == strip_cr(s@),
{
    let n = s.unicode_len();
    if n > 0 && s.get_char(n - 1) == '\r' {
        String::from_str(s.substring_char(0, n - 1))
    } else {
        String::from_str(s)
    }
}

// ---------------------------------------------------------------------------
// integer parsing
// ---------------------------------------------------------------------------

pub open spec fn all_digits(s: Seq<char>) -> bool {
    forall|i: int| 0 <= i < s.len() ==> is_digit_char(s[i])
}

/// The value of a sequence of decimal digit characters.
pub open spec fn digits_val(s: Seq<char>) -> int
    decreases s.len(),
{
    if s.len() == 0 {
        0
    } else {
        digits_val(s.subrange(0, s.len() - 1)) * 10 + digit_val(s[s.len() - 1])
    }
}

pub proof fn lemma_digits_val_nonneg(s: Seq<char>)
    requires
        all_digits(s),
    ensures
        digits_val(s) >= 0,
    decreases s.len(),
{
    if s.len() > 0 {
        lemma_digits_val_nonneg(s.subrange(0, s.len() - 1));
    }
}

/// Extending a digit string on the right never lowers its value.
pub proof fn lemma_digits_val_prefix_le(s: Seq<char>, i: int)
    requires
        all_digits(s),
        0 <= i <= s.len(),
    ensures
        digits_val(s.subrange(0, i)) <= digits_val(s),
    decreases s.len() - i,
{
    if i < s.len() {
        lemma_digits_val_prefix_le(s, i + 1);
        let p = s.subrange(0, i + 1);
        assert(p.subrange(0, i) =~= s.subrange(0, i));
        lemma_digits_val_nonneg(s.subrange(0, i));
    } else {
        assert(s.subrange(0, i) =~= s);
    }
}

/// The value of `s` read as a decimal integer with an optional sign, in the
/// manner of `str::parse::<i32>`: `None` when `s` is empty, has a stray
/// character, or does not fit in 32 signed bits.
pub open spec fn parse_int(s: Seq<char>) -> Option<int> {
    let body = if s.len() > 0 && (s[0] == '+' || s[0] == '-') {
        s.subrange(1, s.len() as int)
    } else {
        s
    };
    if body.len() == 0 || !all_digits(body) {
        None
    } else {
        let m = digits_val(body);
        let v = if s.len() > 0 && s[0] == '-' {
            -m
        } else {
            m
        };
        if i32::MIN <= v <= i32::MAX {
            Some(v)
        } else {
            None
        }
    }
}

/// Reads a decimal integer with an optional sign, as `str::parse::<i32>` does.
pub fn parse_i32(s: &str) -> (r: Option<i32>)
    ensures
        match r {
            Some(v) => parse_int(s@) == Some(v as int),
            None => parse_int(s@) is None,
        },
{
    let n = s.unicode_len();
    if n == 0 {
        return None;
    }
    let c0 = s.get_char(0);
    let neg = c0 == '-';
    let start: usize = if c0 == '-' || c0 == '+' {
        1
    } else {
        0
    };
    let ghost body = if c0 == '-' || c0 == '+' {
        s@.subrange(1, n as int)
    } else {
        s@
    };
    proof {
        assert(forall|j: int| 0 <= j < body.len() ==> body[j] == s@[j + start]);
    }
    if n == start {
        return None;
    }
    let mut acc: i64 = 0;
    let mut i: usize = start;
    while i < n
        invariant
            start <= i <= n,
            n == s@.len(),
            start == 0 || start == 1,
            start == 1 ==> (s@[0] == '-' || s@[0] == '+'),
            start == 0 ==> !(s@[0] == '-' || s@[0] == '+') || n == 0,
            body == (if s@.len() > 0 && (s@[0] == '+' || s@[0] == '-') {
                s@.subrange(1, s@.len() as int)
            } else {
                s@
            }),
            body.len() == n - start,
            forall|j: int| 0 <= j < body.len() ==> body[j] == s@[j + start],
            forall|j: int| 0 <= j < i - start ==> is_digit_char(body[j]),
            acc == digits_val(body.subrange(0, i - start)),
            0 <= acc <= 0x8000_0000i64,
        decreases n - i,
    {
        let c = s.get_char(i);
        if !('0' <= c && c <= '9') {
            proof {
                assert(body[i - start] == c);
                assert(!all_digits(body));
            }
            return None;
        }
        let d: i64 = (c as u32) as i64 - ('0' as u32) as i64;
        proof {
            assert(body.subrange(0, i + 1 - start).subrange(0, i - start) =~= body.subrange(
                0,
                i - start,
            ));
            assert(body.subrange(0, i + 1 - start)[i - start] == c);
        }
        acc = acc * 10 + d;
        i += 1;
        if acc > 0x8000_0000i64 {
            proof {
                if all_digits(body) {
                    lemma_digits_val_prefix_le(body, i - start);
                }
            }
            return None;
        }
    }
    proof {
        assert(body.subrange(0, n - start) =~= body);
    }
    if neg {
        Some((-acc) as i32)
    } else {
        if acc > 0x7fff_ffffi64 {
            None
        } else {
            Some(acc as i32)
        }
    }
}

// ---------------------------------------------------------------------------
// decimal rendering
// ---------------------------------------------------------------------------

/// The decimal digit string of a natural number, without leading zeros
/// (except for the single digit of zero itself).
pub open spec fn nat_text(v: nat) -> Seq<char>
    decreases v,
{
    if v < 10 {
        seq![digit_char(v as int)]
    } else {
        nat_text(v / 10) + seq![digit_char((v % 10) as int)]
    }
}

/// The decimal rendering of an integer, with a sign for negative values.
pub open spec fn int_text(v: int) -> Seq<char> {
    if v < 0 {
        seq!['-'] + nat_text((-v) as nat)
    } else {
        nat_text(v as nat)
    }
}

pub open spec fn pow10(n: nat) -> nat
    decreases n,
{
    if n == 0 {
        1
    } else {
        10 * pow10((n - 1) as nat)
    }
}

/// A value fits in `n` decimal digits exactly when it is below `10^n`.
pub proof fn lemma_nat_text_len(v: nat, n: nat)
    requires
        n >= 1,
    ensures
        nat_text(v).len() <= n <==> v < pow10(n),
    decreases v,
{
    assert(pow10(0) == 1);
    assert(pow10(1) == 10);
    if v < 10 {
        lemma_pow10_mono(1, n);
        assert(nat_text(v).len() == 1);
    } else {
        if n == 1 {
            lemma_nat_text_digits(v / 10);
            assert(nat_text(v).len() >= 2);
        } else {
            lemma_nat_text_len(v / 10, (n - 1) as nat);
            assert(nat_text(v).len() == nat_text(v / 10).len() + 1);
            assert(v == 10 * (v / 10) + (v % 10)) by (nonlinear_arith);
            if v / 10 < pow10((n - 1) as nat) {
                assert(10 * (v / 10) + 9 < 10 * pow10((n - 1) as nat)) by (nonlinear_arith)
                    requires
                        v / 10 < pow10((n - 1) as nat),
                ;
                assert(v < pow10(n));
            } else {
                assert(10 * (v / 10) >= 10 * pow10((n - 1) as nat)) by (nonlinear_arith)
                    requires
                        v / 10 >= pow10((n - 1) as nat),
                ;
                assert(v >= pow10(n));
            }
        }
    }
}

pub proof fn lemma_pow10_mono(a: nat, b: nat)
    requires
        a <= b,
    ensures
        pow10(a) <= pow10(b),
        pow10(a) >= 1,
    decreases b,
{
    if b > 0 {
        if a == 0 {
            lemma_pow10_mono(0, (b - 1) as nat);
        } else {
            lemma_pow10_mono((a - 1) as nat, (b - 1) as nat);
        }
    }
}

/// Every character of a decimal rendering of a natural number is a digit.
pub proof fn lemma_nat_text_digits(v: nat)
    ensures
        all_digits(nat_text(v)),
        nat_text(v).len() >= 1,
    decreases v,
{
    if v >= 10 {
        lemma_nat_text_digits(v / 10);
    }
}

/// A one-character string for a decimal digit.
fn digit_string(d: u64) -> (r: String)
    requires
        d < 10,
    ensures
        r@ == seq![digit_char(d as int)],
{
    let s: &str = if d == 0 {
        "0"
    } else if d == 1 {
        "1"
    } else if d == 2 {
        "2"
    } else if d == 3 {
        "3"
    } else if d == 4 {
        "4"
    } else if d == 5 {
        "5"
    } else if d == 6 {
        "6"
    } else if d == 7 {
        "7"
    } else if d == 8 {
        "8"
    } else {
        "9"
    };
    proof {
        reveal_strlit("0");
        reveal_strlit("1");
        reveal_strlit("2");
        reveal_strlit("3");
        reveal_strlit("4");
        reveal_strlit("5");
        reveal_strlit("6");
        reveal_strlit("7");
        reveal_strlit("8");
        reveal_strlit("9");
        assert(s@ =~= seq![digit_char(d as int)]);
    }
    String::from_str(s)
}

/// Renders a natural number in decimal.
pub fn u64_text(v: u64) -> (r: String)
    ensures
        r@ == nat_text(v as nat),
    decreases v,
{
    if v < 10 {
        digit_string(v)
    } else {
        let mut s = u64_text(v / 10);
        let tail = digit_string(v % 10);
        s.append(tail.as_str());
        s
    }
}

/// Renders an unsigned width in decimal.
pub fn u32_text(v: u32) -> (r: String)
    ensures
        r@ == nat_text(v as nat),
{
    u64_text(v as u64)
}

/// Renders a signed integer in decimal.
pub fn i32_text(v: i32) -> (r: String)
    ensures
        r@ == int_text(v as int),
{
    if v >= 0 {
        u64_text(v as u64)
    } else {
        let mag: u64 = (-(v as i64)) as u64;
        let mut s = String::from_str("-");
        let tail = u64_text(mag);
        s.append(tail.as_str());
        proof {
            reveal_strlit("-");
            assert(s@ =~= int_text(v as int));
        }
        s
    }
}

// ---------------------------------------------------------------------------
// fill characters
// ---------------------------------------------------------------------------

/// `n` copies of `c`.
pub open spec fn repeat_char(c: char, n: nat) -> Seq<char> {
    Seq::new(n, |i: int| c)
}

/// A string of `n` fill characters `'0'`.
pub fn zeros(n: u32) -> (r: String)
    ensures
        r@ == repeat_char('0', n as nat),
{
    let mut s = String::new();
    let mut i: u32 = 0;
    proof {
        reveal_strlit("0");
    }
    while i < n
        invariant
            0 <= i <= n,
            s@ =~= repeat_char('0', i as nat),
            "0"@ =~= seq!['0'],
        decreases n - i,
    {
        s.append("0");
        proof {
            assert(s@ =~= repeat_char('0', (i + 1) as nat));
        }
        i += 1;
    }
    s
}

// ---------------------------------------------------------------------------
// string equality
// ---------------------------------------------------------------------------

/// Compares two string slices character by character.
pub fn str_eq(a: &str, b: &str) -> (r: bool)
    ensures
        r == (a@ == b@),
{
    let n = a.unicode_len();
    if n != b.unicode_len() {
        return false;
    }
    let mut i: usize = 0;
    while i < n
        invariant
            0 <= i <= n,
            n == a@.len(),
            n == b@.len(),
            forall|j: int| 0 <= j < i ==> a@[j] == b@[j],
        decreases n - i,
    {
        if a.get_char(i) != b.get_char(i) {
            return false;
        }
        i += 1;
    }
    proof {
        assert(a@ =~= b@);
    }
    true
}

} // verus!
