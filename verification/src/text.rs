//! Message text: decimal numerals, concatenation, and splitting tool
//! output into lines and searching them.

use vstd::prelude::*;
use vstd::string::StrSliceExecFns;
use vstd::string::StringExecFns;

verus! {

/// The decimal digit character for `d < 10`.
pub open spec fn digit_char(d: nat) -> char {
    if d == 0 {
        '0'
    } else if d == 1 {
        '1'
    } else if d == 2 {
        '2'
    } else if d == 3 {
        '3'
    } else if d == 4 {
        '4'
    } else if d == 5 {
        '5'
    } else if d == 6 {
        '6'
    } else if d == 7 {
        '7'
    } else if d == 8 {
        '8'
    } else {
        '9'
    }
}

/// The decimal numeral of `n`, without leading zeros.
pub open spec fn decimal(n: nat) -> Seq<char>
    decreases n,
{
    if n < 10 {
        seq![digit_char(n)]
    } else {
        decimal(n / 10).push(digit_char(n % 10))
    }
}

/// The one-character string for digit `d`.
fn digit_str(d: usize) -> (r: &'static str)
    requires
        d < 10,
    ensures
        r@ == seq![digit_char(d as nat)],
{
    proof {
        reveal_strlit("0");
        reveal_strlit("1");
        reveal_strlit("2");
        reveal_strlit("3");
        reveal_strlit("4");
        reveal_strlit("5");
        reveal_strlit("6");
        reveal_strlit("7");
        reveal_strlit("8");
        reveal_strlit("9");
    }
    if d == 0 {
        "0"
    } else if d == 1 {
        "1"
    } else if d == 2 {
        "2"
    } else if d == 3 {
        "3"
    } else if d == 4 {
        "4"
    } else if d == 5 {
        "5"
    } else if d == 6 {
        "6"
    } else if d == 7 {
        "7"
    } else if d == 8 {
        "8"
    } else {
        "9"
    }
}

/// Appends the decimal numeral of `n` to `s`.
pub fn push_decimal(s: &mut String, n: usize)
    ensures
        final(s)@ == old(s)@ + decimal(n as nat),
    decreases n,
{
    if n < 10 {
        s.append(digit_str(n));
    } else {
        push_decimal(s, n / 10);
        s.append(digit_str(n % 10));
        proof {
            assert(decimal(n as nat) == decimal((n / 10) as nat).push(digit_char((n % 10) as nat)));
        }
    }
}

/// The decimal text of a 128-bit value.
pub fn decimal_u128(v: u128) -> (r: String)
    ensures
        r@ == decimal(v as nat),
    decreases v,
{
    if v < 10 {
        let mut s = String::new();
        push_decimal(&mut s, v as usize);
        s
    } else {
        let mut s = decimal_u128(v / 10);
        push_decimal(&mut s, (v % 10) as usize);
        proof {
            assert(decimal(v as nat) == decimal((v / 10) as nat).push(digit_char((v % 10) as nat)));
            assert(decimal((v % 10) as nat) == seq![digit_char((v % 10) as nat)]);
        }
        s
    }
}

/// A new string holding `a` followed by `b`.
pub fn concat2(a: &str, b: &str) -> (r: String)
    ensures
        r@ == a@ + b@,
{
    let mut s = a.to_string();
    s.append(b);
    s
}

/// A line ended by a line feed, without the carriage return before it.
pub open spec fn strip_cr(line: Seq<char>) -> Seq<char> {
    if line.len() > 0 && line.last() == '\r' {
        line.drop_last()
    } else {
        line
    }
}

/// The lines of `s` after the characters `cur` already gathered: pieces
/// separated by line feeds, the line feeds (and a carriage return just
/// before one) dropped, and no empty last piece.
pub open spec fn lines_from(s: Seq<char>, cur: Seq<char>) -> Seq<Seq<char>>
    decreases s.len(),
{
    if s.len() == 0 {
        if cur.len() == 0 {
            Seq::empty()
        } else {
            seq![cur]
        }
    } else if s[0] == '\n' {
        seq![strip_cr(cur)] + lines_from(s.drop_first(), Seq::empty())
    } else {
        lines_from(s.drop_first(), cur.push(s[0]))
    }
}

/// The lines of `s`.
pub open spec fn lines_of(s: Seq<char>) -> Seq<Seq<char>> {
    lines_from(s, Seq::empty())
}

/// The texts of the strings.
pub open spec fn texts(v: Seq<String>) -> Seq<Seq<char>> {
    v.map_values(|x: String| x@)
}

/// Splits `s` into its lines (see `lines_of`).
pub fn split_lines(s: &str) -> (r: Vec<String>)
    ensures
        texts(r@) == lines_of(s@),
{
    let len = s.unicode_len();
    let ghost sv = s@;
    let mut lines: Vec<String> = Vec::new();
    let mut start: usize = 0;
    let mut idx: usize = 0;
    let mut ends_cr = false;
    assert(sv.skip(0) =~= sv);
    assert(sv.subrange(0, 0) =~= Seq::<char>::empty());
    for c in it: s.chars()
        invariant
            it.seq() == sv,
            sv == s@,
            len == sv.len(),
            idx == it.index@,
            start <= idx <= len,
            ends_cr == (start < idx && sv[idx - 1] == '\r'),
            texts(lines@) + lines_from(sv.skip(idx as int), sv.subrange(start as int, idx as int)) == lines_of(sv),
    {
        let ghost done = texts(lines@);
        let ghost cur = sv.subrange(start as int, idx as int);
        let ghost rest = sv.skip(idx as int);
        assert(rest[0] == c);
        assert(rest.drop_first() =~= sv.skip(idx + 1));
        if c == '\n' {
            let end = if ends_cr {
                idx - 1
            } else {
                idx
            };
            let piece = s.substring_char(start, end).to_string();
            lines.push(piece);
            proof {
                assert(sv.subrange(start as int, end as int) =~= strip_cr(cur));
                assert(texts(lines@) =~= done.push(strip_cr(cur)));
                assert(sv.subrange(idx + 1, idx + 1) =~= Seq::<char>::empty());
                assert(seq![strip_cr(cur)] + lines_from(rest.drop_first(), Seq::empty()) == lines_from(rest, cur));
                assert(done.push(strip_cr(cur)) + lines_from(sv.skip(idx + 1), Seq::empty()) =~= done + (seq![
                    strip_cr(cur),
                ] + lines_from(sv.skip(idx + 1), Seq::empty())));
            }
            start = idx + 1;
            ends_cr = false;
        } else {
            proof {
                assert(sv.subrange(start as int, idx + 1) =~= cur.push(c));
            }
            ends_cr = c == '\r';
        }
        idx = idx + 1;
    }
    proof {
        assert(sv.skip(idx as int) =~= Seq::<char>::empty());
    }
    if start < idx {
        let ghost done = texts(lines@);
        let piece = s.substring_char(start, idx).to_string();
        lines.push(piece);
        proof {
            assert(texts(lines@) =~= done.push(sv.subrange(start as int, idx as int)));
        }
    } else {
        proof {
            assert(sv.subrange(start as int, idx as int) =~= Seq::<char>::empty());
        }
    }
    lines
}

/// `needle` occurs in `hay`.
pub open spec fn text_contains(hay: Seq<char>, needle: Seq<char>) -> bool {
    exists|i: int| 0 <= i && i + needle.len() <= hay.len() && #[trigger] hay.subrange(i, i + needle.len()) == needle
}

/// `str::contains` with a string pattern: whether `needle` occurs in `hay`.
#[verifier::external_body]
pub(crate) fn contains_str(hay: &str, needle: &str) -> (r: bool)
    ensures
        r == text_contains(hay@, needle@),
{
    hay.contains(needle)
}

/// `c` has Unicode's White_Space property (what `char::is_whitespace` tests).
pub open spec fn is_white_space(c: char) -> bool {
    let u = c as u32;
    ||| 0x09 <= u <= 0x0D
    ||| u == 0x20
    ||| u == 0x85
    ||| u == 0xA0
    ||| u == 0x1680
    ||| 0x2000 <= u <= 0x200A
    ||| u == 0x2028
    ||| u == 0x2029
    ||| u == 0x202F
    ||| u == 0x205F
    ||| u == 0x3000
}

/// `s` without its leading whitespace.
pub open spec fn trimmed_start(s: Seq<char>) -> Seq<char>
    decreases s.len(),
{
    if s.len() > 0 && is_white_space(s[0]) {
        trimmed_start(s.drop_first())
    } else {
        s
    }
}

/// `s` without its trailing whitespace.
pub open spec fn trimmed_end(s: Seq<char>) -> Seq<char>
    decreases s.len(),
{
    if s.len() > 0 && is_white_space(s.last()) {
        trimmed_end(s.drop_last())
    } else {
        s
    }
}

/// `s` without leading and trailing whitespace.
pub open spec fn trimmed(s: Seq<char>) -> Seq<char> {
    trimmed_end(trimmed_start(s))
}

/// `str::trim`: the text without leading and trailing whitespace, as a new string.
#[verifier::external_body]
pub(crate) fn trim_str(s: &str) -> (r: String)
    ensures
        r@ == trimmed(s@),
{
    s.trim().to_string()
}

/// How many of the lines contain `needle`.
pub open spec fn count_containing(lines: Seq<Seq<char>>, needle: Seq<char>) -> nat
    decreases lines.len(),
{
    if lines.len() == 0 {
        0
    } else {
        count_containing(lines.drop_last(), needle) + if text_contains(lines.last(), needle) {
            1nat
        } else {
            0nat
        }
    }
}

/// The number of lines of `text` that contain `needle`.
pub fn count_lines_containing(text: &str, needle: &str) -> (r: usize)
    ensures
        r == count_containing(lines_of(text@), needle@),
{
    let lines = split_lines(text);
    let mut n: usize = 0;
    let mut i: usize = 0;
    while i < lines.len()
        invariant
            i <= lines@.len(),
            n == count_containing(texts(lines@.subrange(0, i as int)), needle@),
            n <= i,
        decreases lines@.len() - i,
    {
        proof {
            let t1 = texts(lines@.subrange(0, i + 1));
            assert(t1.drop_last() =~= texts(lines@.subrange(0, i as int)));
            assert(t1.last() == lines@[i as int]@);
        }
        if contains_str(lines[i].as_str(), needle) {
            n = n + 1;
        }
        i = i + 1;
    }
    proof {
        assert(lines@.subrange(0, i as int) =~= lines@);
    }
    n
}

} // verus!
