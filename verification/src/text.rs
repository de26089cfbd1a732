//! Character-level text utilities: white-space classification, splitting a
//! program into lines and a line into tokens, and parsing a signed integer
//! token. These are the primitives the instruction parser is built on.

use vstd::prelude::*;
use vstd::string::StrSliceExecFns;

verus! {

/// The Unicode `White_Space` characters, the separators between tokens.
pub open spec fn spec_is_space(c: char) -> bool {
    let u = c as u32;
    u == 0x20 || (0x09 <= u && u <= 0x0d) || u == 0x85 || u == 0xa0 || u == 0x1680 || (0x2000
        <= u && u <= 0x200a) || u == 0x2028 || u == 0x2029 || u == 0x202f || u == 0x205f || u
        == 0x3000
}

/// Decides `spec_is_space`.
pub fn is_space(c: char) -> (r: bool)
    ensures
        r == spec_is_space(c),
{
    let u = c as u32;
    u == 0x20 || (0x09 <= u && u <= 0x0d) || u == 0x85 || u == 0xa0 || u == 0x1680 || (0x2000
        <= u && u <= 0x200a) || u == 0x2028 || u == 0x2029 || u == 0x202f || u == 0x205f || u
        == 0x3000
}

/// An ASCII decimal digit.
pub open spec fn spec_is_digit(c: char) -> bool {
    0x30 <= c as u32 && c as u32 <= 0x39
}

/// Numeric value of one decimal digit.
pub open spec fn digit_value(c: char) -> int {
    c as u32 - 0x30
}

/// Every character of `s` is a decimal digit.
pub open spec fn all_digits(s: Seq<char>) -> bool {
    forall|i: int| 0 <= i < s.len() ==> spec_is_digit(s[i])
}

/// The value of a digit string read in base ten.
pub open spec fn digits_value(s: Seq<char>) -> int
    decreases s.len(),
{
    if s.len() == 0 {
        0
    } else {
        digits_value(s.drop_last()) * 10 + digit_value(s.last())
    }
}

/// The shape of a signed decimal integer token: an optional sign followed by
/// at least one digit, and nothing else.
pub open spec fn is_int_literal(s: Seq<char>) -> bool {
    if s.len() == 0 {
        false
    } else if s[0] == '-' || s[0] == '+' {
        s.len() > 1 && all_digits(s.subrange(1, s.len() as int))
    } else {
        all_digits(s)
    }
}

/// The mathematical value of an integer token (meaningful when
/// `is_int_literal` holds).
pub open spec fn int_literal_value(s: Seq<char>) -> int {
    if s.len() == 0 {
        0
    } else if s[0] == '-' {
        -digits_value(s.subrange(1, s.len() as int))
    } else if s[0] == '+' {
        digits_value(s.subrange(1, s.len() as int))
    } else {
        digits_value(s)
    }
}

/// What parsing a token as a platform-width signed integer yields: the token
/// must be a well-shaped literal whose value fits, otherwise nothing.
pub open spec fn spec_parse_int(s: Seq<char>) -> Option<int> {
    if is_int_literal(s) && (isize::MIN as int) <= int_literal_value(s) && int_literal_value(s)
        <= (isize::MAX as int) {
        Some(int_literal_value(s))
    } else {
        None
    }
}

pub proof fn lemma_digits_value_nonneg(s: Seq<char>)
    requires
        all_digits(s),
    ensures
        digits_value(s) >= 0,
    decreases s.len(),
{
    if s.len() > 0 {
        assert(all_digits(s.drop_last()));
        lemma_digits_value_nonneg(s.drop_last());
    }
}

/// Reading further digits never shrinks the value: the value of a prefix is a
/// lower bound for the value of the whole digit string.
pub proof fn lemma_digits_value_prefix(s: Seq<char>, i: int)
    requires
        all_digits(s),
        0 <= i <= s.len(),
    ensures
        digits_value(s.subrange(0, i)) <= digits_value(s),
    decreases s.len() - i,
{
    if i == s.len() {
        assert(s.subrange(0, i) =~= s);
    } else {
        let t = s.subrange(0, i + 1);
        assert(t.drop_last() =~= s.subrange(0, i));
        assert(all_digits(t.drop_last()));
        lemma_digits_value_nonneg(t.drop_last());
        assert(digits_value(t) == digits_value(s.subrange(0, i)) * 10 + digit_value(s[i]));
        assert(digits_value(s.subrange(0, i)) <= digits_value(t)) by {
            lemma_digits_value_nonneg(s.subrange(0, i));
        }
        lemma_digits_value_prefix(s, i + 1);
    }
}

/// Parses one token as a signed platform-width integer, exactly as
/// `spec_parse_int` describes.
pub fn parse_isize(t: &str) -> (r: Option<isize>)
    ensures
        match r {
            Some(v) => spec_parse_int(t@) == Some(v as int),
            None => spec_parse_int(t@) is None,
        },
{
    let n = t.unicode_len();
    if n == 0 {
        return None;
    }
    let c0 = t.get_char(0);
    let neg = c0 == '-';
    let has_sign = neg || c0 == '+';
    let start: usize = if has_sign {
        1
    } else {
        0
    };
    if start == n {
        // a bare sign is not a literal
        return None;
    }
    let ghost ds = t@.subrange(start as int, n as int);
    let mut i: usize = start;
    // `acc` carries the negated value of the digits seen so far, so that
    // `isize::MIN` itself stays representable while accumulating.
    let mut acc: isize = 0;
    while i < n
        invariant
            start <= i <= n,
            n == t@.len(),
            start == 1 <==> (t@[0] == '-' || t@[0] == '+'),
            neg <==> t@[0] == '-',
            start <= 1,
            ds == t@.subrange(start as int, n as int),
            all_digits(ds.subrange(0, i - start)),
            acc as int == -digits_value(ds.subrange(0, i - start)),
            acc <= 0,
        decreases n - i,
    {
        let c = t.get_char(i);
        let u = c as u32;
        if !(0x30 <= u && u <= 0x39) {
            // a non-digit anywhere makes the token no literal at all
            assert(ds[i - start] == t@[i as int]);
            assert(!is_int_literal(t@));
            return None;
        }
        let d = (u - 0x30) as isize;
        let ghost pre = ds.subrange(0, i - start);
        let ghost ext = ds.subrange(0, i + 1 - start);
        proof {
            assert(ext.drop_last() =~= pre);
            assert(ext.last() == t@[i as int]);
            assert(digits_value(ext) == digits_value(pre) * 10 + digit_value(t@[i as int]));
        }
        let acc10 = match acc.checked_mul(10) {
            Some(a) => a,
            None => {
                proof {
                    overflow_means_none(t@, ds, i as int, start as int);
                }
                return None;
            },
        };
        let acc2 = match acc10.checked_sub(d) {
            Some(a) => a,
            None => {
                proof {
                    overflow_means_none(t@, ds, i as int, start as int);
                }
                return None;
            },
        };
        acc = acc2;
        i = i + 1;
    }
    proof {
        assert(ds.subrange(0, n - start) =~= ds);
        if start == 1 {
            assert(t@.subrange(1, n as int) =~= ds);
        } else {
            assert(t@.subrange(0, n as int) =~= t@);
            assert(ds =~= t@);
        }
        assert(is_int_literal(t@));
    }
    if neg {
        assert(int_literal_value(t@) == acc as int);
        Some(acc)
    } else {
        if acc == isize::MIN {
            // the magnitude is one past isize::MAX
            assert(spec_parse_int(t@) is None);
            None
        } else {
            assert(int_literal_value(t@) == -(acc as int));
            Some(-acc)
        }
    }
}

/// Number of leading characters of `s` before the first white-space
/// character (the whole of `s` when none occurs).
pub open spec fn token_len(s: Seq<char>) -> int
    decreases s.len(),
{
    if s.len() == 0 {
        0
    } else if spec_is_space(s[0]) {
        0
    } else {
        1 + token_len(s.subrange(1, s.len() as int))
    }
}

pub proof fn lemma_token_len_bounds(s: Seq<char>)
    ensures
        0 <= token_len(s) <= s.len(),
    decreases s.len(),
{
    if s.len() > 0 && !spec_is_space(s[0]) {
        lemma_token_len_bounds(s.subrange(1, s.len() as int));
    }
}

/// `token_len` is pinned down by what a scan finds: `m` non-space characters
/// followed by the end or a space.
pub proof fn lemma_token_len_at(s: Seq<char>, m: int)
    requires
        0 <= m <= s.len(),
        forall|k: int| 0 <= k < m ==> !spec_is_space(s[k]),
        m == s.len() || spec_is_space(s[m]),
    ensures
        token_len(s) == m,
    decreases m,
{
    if m == 0 {
    } else {
        let t = s.subrange(1, s.len() as int);
        assert(forall|k: int| 0 <= k < m - 1 ==> t[k] == s[k + 1]);
        lemma_token_len_at(t, m - 1);
    }
}

/// Number of leading characters of `s` before the first line feed
/// (the whole of `s` when none occurs).
pub open spec fn line_len(s: Seq<char>) -> int
    decreases s.len(),
{
    if s.len() == 0 {
        0
    } else if s[0] == '\n' {
        0
    } else {
        1 + line_len(s.subrange(1, s.len() as int))
    }
}

pub proof fn lemma_line_len_bounds(s: Seq<char>)
    ensures
        0 <= line_len(s) <= s.len(),
    decreases s.len(),
{
    if s.len() > 0 && s[0] != '\n' {
        lemma_line_len_bounds(s.subrange(1, s.len() as int));
    }
}

/// `line_len` is pinned down by what a scan finds.
pub proof fn lemma_line_len_at(s: Seq<char>, m: int)
    requires
        0 <= m <= s.len(),
        forall|k: int| 0 <= k < m ==> s[k] != '\n',
        m == s.len() || s[m] == '\n',
    ensures
        line_len(s) == m,
    decreases m,
{
    if m == 0 {
    } else {
        let t = s.subrange(1, s.len() as int);
        assert(forall|k: int| 0 <= k < m - 1 ==> t[k] == s[k + 1]);
        lemma_line_len_at(t, m - 1);
    }
}

/// A line with its one trailing carriage return removed, as a carriage
/// return followed by a line feed counts as a single line ending.
pub open spec fn strip_cr(t: Seq<char>) -> Seq<char> {
    if t.len() > 0 && t.last() == '\r' {
        t.drop_last()
    } else {
        t
    }
}

/// The lines of `s`: pieces split at line feeds, each terminated piece with
/// one trailing carriage return removed; a final unterminated piece is kept
/// as it stands, and a trailing line ending opens no empty last line.
pub open spec fn spec_lines(s: Seq<char>) -> Seq<Seq<char>>
    decreases s.len(),
    via spec_lines_dec
{
    if s.len() == 0 {
        Seq::empty()
    } else {
        let k = line_len(s);
        if k == s.len() {
            seq![s]
        } else {
            seq![strip_cr(s.subrange(0, k))] + spec_lines(s.subrange(k + 1, s.len() as int))
        }
    }
}

#[via_fn]
proof fn spec_lines_dec(s: Seq<char>) {
    if s.len() != 0 {
        lemma_line_len_bounds(s);
    }
}

/// The white-space-separated tokens of `s`, in order, none of them empty.
pub open spec fn spec_tokens(s: Seq<char>) -> Seq<Seq<char>>
    decreases s.len(),
    via spec_tokens_dec
{
    if s.len() == 0 {
        Seq::empty()
    } else if spec_is_space(s[0]) {
        spec_tokens(s.subrange(1, s.len() as int))
    } else {
        let k = token_len(s);
        seq![s.subrange(0, k)] + spec_tokens(s.subrange(k, s.len() as int))
    }
}

#[via_fn]
proof fn spec_tokens_dec(s: Seq<char>) {
    if s.len() != 0 && !spec_is_space(s[0]) {
        lemma_token_len_bounds(s);
        lemma_token_len_bounds(s.subrange(1, s.len() as int));
    }
}

/// Index of the first white-space character at or after `start`, or the end.
pub fn token_end(s: &str, start: usize) -> (j: usize)
    requires
        start <= s@.len(),
    ensures
        start <= j <= s@.len(),
        forall|k: int| start <= k < j ==> !spec_is_space(s@[k]),
        j == s@.len() || spec_is_space(s@[j as int]),
{
    let n = s.unicode_len();
    let mut j = start;
    while j < n
        invariant
            start <= j <= n,
            n == s@.len(),
            forall|k: int| start <= k < j ==> !spec_is_space(s@[k]),
        decreases n - j,
    {
        let c = s.get_char(j);
        if is_space(c) {
            return j;
        }
        j = j + 1;
    }
    j
}

/// Index of the first line feed at or after `start`, or the end.
pub fn line_end(s: &str, start: usize) -> (j: usize)
    requires
        start <= s@.len(),
    ensures
        start <= j <= s@.len(),
        forall|k: int| start <= k < j ==> s@[k] != '\n',
        j == s@.len() || s@[j as int] == '\n',
{
    let n = s.unicode_len();
    let mut j = start;
    while j < n
        invariant
            start <= j <= n,
            n == s@.len(),
            forall|k: int| start <= k < j ==> s@[k] != '\n',
        decreases n - j,
    {
        let c = s.get_char(j);
        if c == '\n' {
            return j;
        }
        j = j + 1;
    }
    j
}

/// Splits `line` into its white-space-separated tokens, exactly as
/// `spec_tokens` describes.
pub fn tokenize(line: &str) -> (r: Vec<String>)
    ensures
        r.deep_view() == spec_tokens(line@),
{
    let n = line.unicode_len();
    let mut toks: Vec<String> = Vec::new();
    let mut i: usize = 0;
    proof {
        assert(line@.subrange(0, n as int) =~= line@);
        assert(toks.deep_view() =~= Seq::<Seq<char>>::empty());
        assert(Seq::<Seq<char>>::empty() + spec_tokens(line@) =~= spec_tokens(line@));
    }
    while i < n
        invariant
            i <= n,
            n == line@.len(),
            toks.deep_view() + spec_tokens(line@.subrange(i as int, n as int)) == spec_tokens(
                line@,
            ),
        decreases n - i,
    {
        let ghost suffix = line@.subrange(i as int, n as int);
        let c = line.get_char(i);
        if is_space(c) {
            proof {
                assert(suffix.subrange(1, suffix.len() as int) =~= line@.subrange(
                    i + 1,
                    n as int,
                ));
            }
            i = i + 1;
        } else {
            let j = token_end(line, i);
            proof {
                assert(forall|k: int|
                    0 <= k < j - i ==> suffix[k] == line@[i + k] && !spec_is_space(suffix[k]));
                lemma_token_len_at(suffix, j - i);
                assert(suffix.subrange(0, j - i) =~= line@.subrange(i as int, j as int));
                assert(suffix.subrange(j - i, suffix.len() as int) =~= line@.subrange(
                    j as int,
                    n as int,
                ));
            }
            let tok = line.substring_char(i, j).to_owned();
            let ghost old_toks = toks.deep_view();
            toks.push(tok);
            proof {
                assert(toks.deep_view() =~= old_toks + seq![line@.subrange(i as int, j as int)]);
                assert(toks.deep_view() + spec_tokens(line@.subrange(j as int, n as int))
                    =~= spec_tokens(line@));
            }
            i = j;
        }
    }
    proof {
        assert(line@.subrange(n as int, n as int) =~= Seq::<char>::empty());
        assert(toks.deep_view() + Seq::<Seq<char>>::empty() =~= toks.deep_view());
    }
    toks
}

/// When the accumulated magnitude has already left the representable range,
/// the whole token parses to nothing, digits or not.
proof fn overflow_means_none(s: Seq<char>, ds: Seq<char>, i: int, start: int)
    requires
        0 <= start <= 1,
        start <= i < s.len(),
        ds == s.subrange(start, s.len() as int),
        start == 1 <==> (s[0] == '-' || s[0] == '+'),
        all_digits(ds.subrange(0, i - start)),
        spec_is_digit(s[i]),
        digits_value(ds.subrange(0, i + 1 - start)) > (isize::MAX as int) + 1,
    ensures
        spec_parse_int(s) is None,
{
    if is_int_literal(s) {
        assert(all_digits(ds));
        lemma_digits_value_prefix(ds, i + 1 - start);
        assert(digits_value(ds) > (isize::MAX as int) + 1);
        if start == 1 {
            assert(s.subrange(1, s.len() as int) =~= ds);
        } else {
            assert(s.subrange(0, s.len() as int) =~= s);
            assert(ds =~= s);
        }
        assert(int_literal_value(s) > (isize::MAX as int) + 1 || int_literal_value(s) < -(
        (isize::MAX as int) + 1));
        assert((isize::MIN as int) == -((isize::MAX as int) + 1));
    }
}

} // verus!
