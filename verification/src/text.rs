//! Small verified text utilities: prefix tests, removal of every
//! occurrence of a pattern, line splitting, and decimal numbers.

use vstd::prelude::*;
use vstd::string::*;

verus! {

/// `s` with every occurrence of `pat` removed, scanning left to right
/// and never re-examining text that follows a removed occurrence; this
/// is the behaviour of `str::replace` with an empty replacement.
pub open spec fn strip_all(s: Seq<char>, pat: Seq<char>) -> Seq<char>
    decreases s.len(),
{
    if pat.len() == 0 || s.len() < pat.len() {
        s
    } else if pat.is_prefix_of(s) {
        strip_all(s.subrange(pat.len() as int, s.len() as int), pat)
    } else {
        seq![s[0]] + strip_all(s.subrange(1, s.len() as int), pat)
    }
}

/// Appends one character to a string.
///
/// Relies on `String::push`, which appends exactly the given character.
#[verifier::external_body]
pub fn push_char(s: &mut String, c: char)
    ensures
        final(s)@ == old(s)@.push(c),
{
    s.push(c);
}

/// True when the characters of `p` stand at the front of `s`.
pub fn has_prefix(s: &str, p: &str) -> (r: bool)
    ensures
        r == p@.is_prefix_of(s@),
{
    let n = p.unicode_len();
    let m = s.unicode_len();
    if n > m {
        return false;
    }
    let mut i: usize = 0;
    while i < n
        invariant
            i <= n,
            n <= m,
            n == p@.len(),
            m == s@.len(),
            forall|j: int| 0 <= j < i ==> s@[j] == p@[j],
        decreases n - i,
    {
        if s.get_char(i) != p.get_char(i) {
            assert(p@.is_prefix_of(s@) ==> s@.subrange(0, p@.len() as int)[i as int] == p@[
                i as int
            ]);
            return false;
        }
        i += 1;
    }
    assert(p@ =~= s@.subrange(0, p@.len() as int));
    true
}

/// True when `pat` occurs in `s` starting at position `i`.
pub fn matches_at(s: &str, i: usize, pat: &str) -> (r: bool)
    requires
        i <= s@.len(),
    ensures
        r == pat@.is_prefix_of(s@.subrange(i as int, s@.len() as int)),
{
    let n = s.unicode_len();
    let pn = pat.unicode_len();
    if pn > n - i {
        return false;
    }
    let ghost suffix = s@.subrange(i as int, s@.len() as int);
    let mut j: usize = 0;
    while j < pn
        invariant
            j <= pn,
            i + pn <= n,
            n == s@.len(),
            pn == pat@.len(),
            suffix == s@.subrange(i as int, s@.len() as int),
            forall|k: int| 0 <= k < j ==> suffix[k] == pat@[k],
        decreases pn - j,
    {
        if s.get_char(i + j) != pat.get_char(j) {
            assert(suffix[j as int] == s@[i + j]);
            assert(pat@.is_prefix_of(suffix) ==> suffix.subrange(0, pat@.len() as int)[j as int]
                == pat@[j as int]);
            return false;
        }
        assert(suffix[j as int] == s@[i + j]);
        j += 1;
    }
    assert(pat@ =~= suffix.subrange(0, pat@.len() as int));
    true
}

/// Removes every occurrence of `pat` from `s`, left to right.
pub fn remove_all(s: &str, pat: &str) -> (r: String)
    ensures
        r@ == strip_all(s@, pat@),
{
    let n = s.unicode_len();
    let pn = pat.unicode_len();
    if pn == 0 {
        return s.to_owned();
    }
    let mut out = String::new();
    let mut i: usize = 0;
    proof {
        assert(s@.subrange(0, n as int) =~= s@);
        assert(out@ + strip_all(s@, pat@) =~= strip_all(s@, pat@));
    }
    while i < n
        invariant
            i <= n,
            n == s@.len(),
            pn == pat@.len(),
            pn > 0,
            strip_all(s@, pat@) == out@ + strip_all(s@.subrange(i as int, n as int), pat@),
        decreases n - i,
    {
        let ghost suffix = s@.subrange(i as int, n as int);
        if matches_at(s, i, pat) {
            proof {
                assert(suffix.subrange(pn as int, suffix.len() as int) =~= s@.subrange(
                    i + pn,
                    n as int,
                ));
                assert(strip_all(suffix, pat@) == strip_all(s@.subrange(i + pn, n as int), pat@));
            }
            i += pn;
        } else {
            let c = s.get_char(i);
            let ghost out0 = out@;
            push_char(&mut out, c);
            proof {
                let rest = s@.subrange(i + 1, n as int);
                if suffix.len() < pn {
                    assert(strip_all(suffix, pat@) == suffix);
                    assert(strip_all(rest, pat@) == rest);
                } else {
                    assert(suffix.subrange(1, suffix.len() as int) =~= rest);
                }
                assert(suffix =~= seq![s@[i as int]] + rest);
                assert(strip_all(suffix, pat@) == seq![s@[i as int]] + strip_all(rest, pat@));
                assert(out@ + strip_all(rest, pat@) =~= out0 + strip_all(suffix, pat@));
            }
            i += 1;
        }
    }
    proof {
        assert(s@.subrange(n as int, n as int) =~= Seq::<char>::empty());
        assert(out@ + strip_all(s@.subrange(n as int, n as int), pat@) =~= out@);
    }
    out
}

/// The position of the first newline in `s`, or `s.len()` when there
/// is none.
pub open spec fn first_nl(s: Seq<char>) -> nat
    decreases s.len(),
{
    if s.len() == 0 {
        0
    } else if s[0] == '\n' {
        0
    } else {
        1 + first_nl(s.drop_first())
    }
}

/// `first_nl` is the unique position with no newline before it and a
/// newline (or the end of the text) at it.
pub proof fn lemma_first_nl_is(s: Seq<char>, j: int)
    requires
        0 <= j <= s.len(),
        forall|k: int| 0 <= k < j ==> s[k] != '\n',
        j < s.len() ==> s[j] == '\n',
    ensures
        first_nl(s) == j,
    decreases s.len(),
{
    if s.len() == 0 {
    } else if s[0] == '\n' {
        assert(j == 0);
    } else {
        assert(j >= 1);
        lemma_first_nl_is(s.drop_first(), j - 1);
    }
}

/// A line with a final carriage return removed, as `str::lines` does
/// for lines that a newline terminated.
pub open spec fn chomp_cr(line: Seq<char>) -> Seq<char> {
    if line.len() > 0 && line[line.len() - 1] == '\r' {
        line.drop_last()
    } else {
        line
    }
}

/// The lines of a text, split as `str::lines` splits them: at every
/// newline, with a carriage return before the newline dropped, and
/// with no empty final line after a terminating newline.
pub open spec fn split_lines(s: Seq<char>) -> Seq<Seq<char>>
    decreases s.len(),
{
    if s.len() == 0 {
        seq![]
    } else {
        let j = first_nl(s);
        if j >= s.len() {
            seq![s]
        } else {
            seq![chomp_cr(s.subrange(0, j as int))] + split_lines(
                s.subrange((j + 1) as int, s.len() as int),
            )
        }
    }
}

/// Finds the end of the line that starts at `i`: the position of the
/// next newline, or the length of `s` when there is none.
pub fn find_line_end(s: &str, i: usize) -> (j: usize)
    requires
        i <= s@.len(),
    ensures
        i <= j <= s@.len(),
        forall|k: int| i <= k < j ==> s@[k] != '\n',
        j < s@.len() ==> s@[j as int] == '\n',
{
    let n = s.unicode_len();
    let mut j: usize = i;
    while j < n
        invariant
            i <= j <= n,
            n == s@.len(),
            forall|k: int| i <= k < j ==> s@[k] != '\n',
        decreases n - j,
    {
        if s.get_char(j) == '\n' {
            return j;
        }
        j += 1;
    }
    j
}

/// The first line of a non-empty text, as `str::lines` yields it.
pub fn first_line(s: &str) -> (r: &str)
    requires
        s@.len() > 0,
    ensures
        r@ == split_lines(s@)[0],
{
    let n = s.unicode_len();
    let j = find_line_end(s, 0);
    proof {
        lemma_first_nl_is(s@, j as int);
    }
    if j >= n {
        s
    } else {
        let ghost raw = s@.subrange(0, j as int);
        if j > 0 && s.get_char(j - 1) == '\r' {
            let r = s.substring_char(0, j - 1);
            proof {
                assert(raw.len() == j);
                assert(raw[raw.len() - 1] == s@[j - 1]);
                assert(raw.drop_last() =~= s@.subrange(0, j - 1));
                assert(chomp_cr(raw) == r@);
            }
            r
        } else {
            let r = s.substring_char(0, j);
            proof {
                if raw.len() > 0 {
                    assert(raw[raw.len() - 1] == s@[j - 1]);
                }
                assert(chomp_cr(raw) == r@);
            }
            r
        }
    }
}

/// True when `c` is an ASCII decimal digit.
pub open spec fn is_digit(c: char) -> bool {
    48 <= c as int <= 57
}

/// The value of a digit character.
pub open spec fn digit_val(c: char) -> nat {
    (c as int - 48) as nat
}

/// True when every character of `s` is a decimal digit.
pub open spec fn all_digits(s: Seq<char>) -> bool {
    forall|i: int| 0 <= i < s.len() ==> is_digit(#[trigger] s[i])
}

/// The number the digit string `s` spells, most significant digit
/// first.
pub open spec fn digits_val(s: Seq<char>) -> nat
    decreases s.len(),
{
    if s.len() == 0 {
        0
    } else {
        digits_val(s.drop_last()) * 10 + digit_val(s.last())
    }
}

/// A longer digit string never spells a smaller number than its
/// prefix.
pub proof fn lemma_digits_val_prefix(s: Seq<char>, j: int)
    requires
        0 <= j <= s.len(),
    ensures
        digits_val(s.take(j)) <= digits_val(s),
    decreases s.len(),
{
    if j < s.len() {
        assert(s.drop_last().take(j) =~= s.take(j));
        lemma_digits_val_prefix(s.drop_last(), j);
    } else {
        assert(s.take(j) =~= s);
    }
}

/// The digit part of a version line: an optional leading plus sign is
/// skipped, as `usize::from_str` skips it.
pub open spec fn version_digits(s: Seq<char>) -> Seq<char> {
    if s.len() >= 1 && s[0] == '+' {
        s.drop_first()
    } else {
        s
    }
}

/// The number the string spells in decimal by the rules of
/// `usize::from_str`: an optional leading `+`, then one or more
/// digits, value at most `usize::MAX`; anything else is `None`.
pub open spec fn parsed_usize_of(s: Seq<char>) -> Option<usize> {
    let d = version_digits(s);
    if d.len() > 0 && all_digits(d) && digits_val(d) <= usize::MAX {
        Some(digits_val(d) as usize)
    } else {
        None
    }
}

/// Reads a non-negative decimal integer, as `str::parse::<usize>`
/// reads one.
pub fn parse_usize(s: &str) -> (r: Option<usize>)
    ensures
        r == parsed_usize_of(s@),
{
    let n = s.unicode_len();
    let start: usize = if n >= 1 && s.get_char(0) == '+' {
        1
    } else {
        0
    };
    let ghost d = version_digits(s@);
    proof {
        assert(d =~= s@.subrange(start as int, n as int));
    }
    if start >= n {
        return None;
    }
    let mut acc: usize = 0;
    let mut i: usize = start;
    while i < n
        invariant
            start <= i <= n,
            start < n,
            n == s@.len(),
            d == version_digits(s@),
            d =~= s@.subrange(start as int, n as int),
            all_digits(d.take(i - start)),
            acc == digits_val(d.take(i - start)),
        decreases n - i,
    {
        let c = s.get_char(i);
        let v = c as u32;
        assert(d[i - start] == s@[i as int]);
        if v < 48 || v > 57 {
            assert(!is_digit(d[i - start]));
            return None;
        }
        let dv = (v - 48) as usize;
        if acc > usize::MAX / 10 {
            proof {
                assert(acc * 10 > usize::MAX);
                lemma_digits_val_prefix(d, i - start + 1);
                assert(d.take(i - start + 1).drop_last() =~= d.take(i - start));
                assert(d.take(i - start + 1).last() == d[i - start]);
                assert(digits_val(d.take(i - start + 1)) >= acc * 10);
            }
            return None;
        }
        let acc10 = acc * 10;
        if dv > usize::MAX - acc10 {
            proof {
                lemma_digits_val_prefix(d, i - start + 1);
                assert(d.take(i - start + 1).drop_last() =~= d.take(i - start));
                assert(d.take(i - start + 1).last() == d[i - start]);
                assert(digits_val(d.take(i - start + 1)) > usize::MAX);
            }
            return None;
        }
        acc = acc10 + dv;
        proof {
            assert(d.take(i - start + 1).drop_last() =~= d.take(i - start));
            assert(d.take(i - start + 1).last() == d[i - start]);
        }
        i += 1;
    }
    proof {
        assert(d.take(n - start) =~= d);
    }
    Some(acc)
}

/// The character that writes the digit `d`.
pub open spec fn digit_char(d: nat) -> char {
    if d == 0 {
        '0'
    } else if d == 1 {
        '1'
    } else if d == 2 {
        '2'
    } else if d == 3 {
        '3'
    } else if d == 4 {
        '4'
    } else if d == 5 {
        '5'
    } else if d == 6 {
        '6'
    } else if d == 7 {
        '7'
    } else if d == 8 {
        '8'
    } else {
        '9'
    }
}

/// The decimal digits of `n`, most significant first.
pub open spec fn decimal_of(n: nat) -> Seq<char>
    decreases n,
{
    if n < 10 {
        seq![digit_char(n)]
    } else {
        decimal_of(n / 10) + seq![digit_char(n % 10)]
    }
}

/// The character that writes the digit `d`.
pub fn digit_char_exec(d: usize) -> (c: char)
    requires
        d < 10,
    ensures
        c == digit_char(d as nat),
{
    if d == 0 {
        '0'
    } else if d == 1 {
        '1'
    } else if d == 2 {
        '2'
    } else if d == 3 {
        '3'
    } else if d == 4 {
        '4'
    } else if d == 5 {
        '5'
    } else if d == 6 {
        '6'
    } else if d == 7 {
        '7'
    } else if d == 8 {
        '8'
    } else {
        '9'
    }
}

/// Writes `n` in decimal.
pub fn to_decimal(n: usize) -> (r: String)
    ensures
        r@ == decimal_of(n as nat),
    decreases n,
{
    if n < 10 {
        let mut s = String::new();
        push_char(&mut s, digit_char_exec(n));
        proof {
            assert(Seq::<char>::empty().push(digit_char(n as nat)) =~= seq![
                digit_char(n as nat),
            ]);
        }
        s
    } else {
        let mut s = to_decimal(n / 10);
        push_char(&mut s, digit_char_exec(n % 10));
        proof {
            assert(decimal_of((n / 10) as nat).push(digit_char((n % 10) as nat)) =~= decimal_of(
                (n / 10) as nat,
            ) + seq![digit_char((n % 10) as nat)]);
        }
        s
    }
}

} // verus!
