//! Verified string utilities: equality, prefix tests, decimal rendering,
//! splitting, trimming and line handling, all specified over `Seq<char>`.

use vstd::prelude::*;
use vstd::string::*;

verus! {

/// Character-wise equality of two string slices.
pub fn str_eq(a: &str, b: &str) -> (r: bool)
    ensures
        r == (a@ == b@),
{
    let na = a.unicode_len();
    let nb = b.unicode_len();
    if na != nb {
        proof {
            assert(a@ != b@) by {
                assert(a@.len() != b@.len());
            }
        }
        return false;
    }
    let mut i: usize = 0;
    while i < na
        invariant
            na == a@.len(),
            na == b@.len(),
            0 <= i <= na,
            forall|j: int| 0 <= j < i ==> a@[j] == b@[j],
        decreases na - i,
    {
        if a.get_char(i) != b.get_char(i) {
            proof {
                assert(a@[i as int] != b@[i as int]);
            }
            return false;
        }
        i += 1;
    }
    proof {
        assert(a@ =~= b@);
    }
    true
}

/// True when `p` is a prefix of `s`.
pub fn has_prefix(s: &str, p: &str) -> (r: bool)
    ensures
        r == p@.is_prefix_of(s@),
{
    let np = p.unicode_len();
    let ns = s.unicode_len();
    if np > ns {
        return false;
    }
    let mut i: usize = 0;
    while i < np
        invariant
            np == p@.len(),
            ns == s@.len(),
            np <= ns,
            0 <= i <= np,
            forall|j: int| 0 <= j < i ==> s@[j] == p@[j],
        decreases np - i,
    {
        if s.get_char(i) != p.get_char(i) {
            proof {
                assert(!p@.is_prefix_of(s@)) by {
                    assert(s@.subrange(0, np as int)[i as int] != p@[i as int]);
                }
            }
            return false;
        }
        i += 1;
    }
    proof {
        assert(p@ =~= s@.subrange(0, np as int));
    }
    true
}

/// The decimal digit character for `d`.
pub open spec fn dec_digit(d: nat) -> char
    recommends
        d < 10,
{
    ((d + 0x30) as u8) as char
}

/// The decimal rendering of `n`, most significant digit first, no sign and
/// no leading zeros (a single `'0'` for zero).
pub open spec fn u64_dec(n: nat) -> Seq<char>
    decreases n,
{
    if n < 10 {
        seq![dec_digit(n)]
    } else {
        u64_dec(n / 10).push(dec_digit(n % 10))
    }
}

/// The decimal rendering of `n`, with a leading `'-'` when negative.
pub open spec fn i64_dec(n: int) -> Seq<char> {
    if n < 0 {
        seq!['-'].add(u64_dec((-n) as nat))
    } else {
        u64_dec(n as nat)
    }
}

/// The one-character string slice for decimal digit `d`.
fn digit_str(d: u64) -> (r: &'static str)
    requires
        d < 10,
    ensures
        r@ == seq![dec_digit(d as nat)],
{
    proof {
        reveal_strlit("0");
        reveal_strlit("1");
        reveal_strlit("2");
        reveal_strlit("3");
        reveal_strlit("4");
        reveal_strlit("5");
        reveal_strlit("6");
        reveal_strlit("7");
        reveal_strlit("8");
        reveal_strlit("9");
    }
    match d {
        0 => "0",
        1 => "1",
        2 => "2",
        3 => "3",
        4 => "4",
        5 => "5",
        6 => "6",
        7 => "7",
        8 => "8",
        _ => {
            proof {
                assert(d == 9);
            }
            "9"
        },
    }
}

/// Renders `n` in decimal.
pub fn u64_to_string(n: u64) -> (r: String)
    ensures
        r@ == u64_dec(n as nat),
    decreases n,
{
    if n < 10 {
        digit_str(n).to_owned()
    } else {
        let q = n / 10;
        let d = n % 10;
        proof {
            assert(q < n) by (nonlinear_arith)
                requires
                    n >= 10,
                    q == n / 10,
            ;
        }
        let mut s = u64_to_string(q);
        s.append(digit_str(d));
        s
    }
}

/// Renders `n` in decimal, with a leading minus sign when negative.
pub fn i64_to_string(n: i64) -> (r: String)
    ensures
        r@ == i64_dec(n as int),
{
    if n >= 0 {
        u64_to_string(n as u64)
    } else {
        // magnitude computed without overflowing at i64::MIN
        let mag: u64 = ((-(n + 1)) as u64) + 1;
        proof {
            assert(mag == -(n as int));
            reveal_strlit("-");
        }
        let mut s = "-".to_owned();
        s.append(u64_to_string(mag).as_str());
        proof {
            assert(s@ =~= i64_dec(n as int));
        }
        s
    }
}

/// Splitting `s` at every occurrence of `c`: the empty string yields one
/// empty piece, and every separator closes a piece, so the piece count is
/// one more than the separator count.
pub open spec fn spec_split(s: Seq<char>, c: char) -> Seq<Seq<char>>
    decreases s.len(),
{
    if s.len() == 0 {
        seq![Seq::<char>::empty()]
    } else if s[0] == c {
        seq![Seq::<char>::empty()].add(spec_split(s.drop_first(), c))
    } else {
        let r = spec_split(s.drop_first(), c);
        seq![seq![s[0]].add(r[0])].add(r.skip(1))
    }
}

/// The index of the first occurrence of `c` in `s`, or `s.len()` if absent.
pub open spec fn first_at(s: Seq<char>, c: char) -> int
    decreases s.len(),
{
    if s.len() == 0 {
        0
    } else if s[0] == c {
        0
    } else {
        1 + first_at(s.drop_first(), c)
    }
}

proof fn lemma_first_at_bounds(s: Seq<char>, c: char)
    ensures
        0 <= first_at(s, c) <= s.len(),
        forall|j: int| 0 <= j < first_at(s, c) ==> s[j] != c,
        first_at(s, c) < s.len() ==> s[first_at(s, c)] == c,
    decreases s.len(),
{
    if s.len() > 0 && s[0] != c {
        lemma_first_at_bounds(s.drop_first(), c);
        assert forall|j: int| 0 <= j < first_at(s, c) implies s[j] != c by {
            if j > 0 {
                assert(s.drop_first()[j - 1] != c);
            }
        }
    }
}

proof fn lemma_first_at_is(s: Seq<char>, c: char, i: int)
    requires
        0 <= i <= s.len(),
        forall|j: int| 0 <= j < i ==> s[j] != c,
        i < s.len() ==> s[i] == c,
    ensures
        first_at(s, c) == i,
    decreases s.len(),
{
    if s.len() > 0 && s[0] != c {
        assert(i >= 1);
        assert forall|j: int| 0 <= j < i - 1 implies s.drop_first()[j] != c by {
            assert(s[j + 1] != c);
        }
        lemma_first_at_is(s.drop_first(), c, i - 1);
    }
}

/// How `spec_split` decomposes at the first separator.
proof fn lemma_split_first(s: Seq<char>, c: char)
    ensures
        spec_split(s, c).len() >= 1,
        spec_split(s, c)[0] == s.take(first_at(s, c)),
        first_at(s, c) < s.len() ==> spec_split(s, c).skip(1) == spec_split(
            s.skip(first_at(s, c) + 1),
            c,
        ),
        first_at(s, c) == s.len() ==> spec_split(s, c).len() == 1,
    decreases s.len(),
{
    lemma_first_at_bounds(s, c);
    if s.len() == 0 {
        assert(spec_split(s, c)[0] =~= s.take(0));
    } else if s[0] == c {
        assert(spec_split(s, c)[0] =~= s.take(0));
        assert(s.drop_first() =~= s.skip(1));
        assert(spec_split(s, c).skip(1) =~= spec_split(s.drop_first(), c));
    } else {
        lemma_split_first(s.drop_first(), c);
        lemma_first_at_bounds(s.drop_first(), c);
        let f = first_at(s, c);
        let r = spec_split(s.drop_first(), c);
        assert(f == 1 + first_at(s.drop_first(), c));
        assert(spec_split(s, c)[0] =~= s.take(f)) by {
            assert(r[0] == s.drop_first().take(f - 1));
            assert(seq![s[0]].add(s.drop_first().take(f - 1)) =~= s.take(f));
        }
        if f < s.len() {
            assert(s.drop_first().skip(first_at(s.drop_first(), c) + 1) =~= s.skip(f + 1));
            assert(spec_split(s, c).skip(1) =~= r.skip(1));
        }
    }
}

/// Splits `s` at every occurrence of `c`, keeping empty pieces.
pub fn split_on(s: &str, c: char) -> (r: Vec<String>)
    ensures
        r.deep_view() == spec_split(s@, c),
        r.len() >= 1,
{
    let n = s.unicode_len();
    let mut out: Vec<String> = Vec::new();
    let mut start: usize = 0;
    let mut i: usize = 0;
    proof {
        assert(s@.skip(0) =~= s@);
        assert(out.deep_view().add(spec_split(s@, c)) =~= spec_split(s@, c));
    }
    while i < n
        invariant
            n == s@.len(),
            0 <= start <= i <= n,
            forall|j: int| start <= j < i ==> s@[j] != c,
            out.deep_view().add(spec_split(s@.skip(start as int), c)) =~= spec_split(s@, c),
        decreases n - i,
    {
        if s.get_char(i) == c {
            let piece = s.substring_char(start, i).to_owned();
            proof {
                let rest = s@.skip(start as int);
                assert forall|j: int| 0 <= j < i - start implies rest[j] != c by {
                    assert(s@[start + j] != c);
                }
                assert(rest[i - start as int] == c);
                lemma_first_at_is(rest, c, i - start as int);
                lemma_split_first(rest, c);
                assert(rest.take(i - start as int) =~= s@.subrange(start as int, i as int));
                assert(rest.skip(i - start as int + 1) =~= s@.skip(i + 1));
                assert(spec_split(rest, c) =~= seq![piece@].add(spec_split(s@.skip(i + 1), c)));
            }
            let ghost prev = out.deep_view();
            out.push(piece);
            proof {
                assert(out.deep_view() =~= prev.push(piece@));
                assert(out.deep_view().add(spec_split(s@.skip(i + 1), c)) =~= spec_split(s@, c));
            }
            start = i + 1;
        }
        i += 1;
    }
    let piece = s.substring_char(start, n).to_owned();
    proof {
        let rest = s@.skip(start as int);
        assert forall|j: int| 0 <= j < rest.len() implies rest[j] != c by {
            assert(s@[start + j] != c);
        }
        lemma_first_at_is(rest, c, rest.len() as int);
        lemma_split_first(rest, c);
        assert(rest.take(rest.len() as int) =~= rest);
        assert(piece@ =~= rest);
        assert(spec_split(rest, c) =~= seq![piece@]);
    }
    let ghost prev = out.deep_view();
    out.push(piece);
    proof {
        assert(out.deep_view() =~= prev.push(piece@));
        assert(out.deep_view() =~= spec_split(s@, c));
    }
    out
}

/// ASCII whitespace, as trimmed from label-list pieces.
pub open spec fn is_ws(c: char) -> bool {
    c == ' ' || c == '\t' || c == '\n' || c == '\r'
}

/// `s` without leading whitespace.
pub open spec fn trim_start(s: Seq<char>) -> Seq<char>
    decreases s.len(),
{
    if s.len() > 0 && is_ws(s[0]) {
        trim_start(s.drop_first())
    } else {
        s
    }
}

/// `s` without trailing whitespace.
pub open spec fn trim_end(s: Seq<char>) -> Seq<char>
    decreases s.len(),
{
    if s.len() > 0 && is_ws(s.last()) {
        trim_end(s.drop_last())
    } else {
        s
    }
}

/// `s` without leading and trailing whitespace.
pub open spec fn spec_trim(s: Seq<char>) -> Seq<char> {
    trim_end(trim_start(s))
}

proof fn lemma_trim_start_is(s: Seq<char>, a: int)
    requires
        0 <= a <= s.len(),
        forall|j: int| 0 <= j < a ==> is_ws(s[j]),
        a < s.len() ==> !is_ws(s[a]),
    ensures
        trim_start(s) == s.skip(a),
    decreases s.len(),
{
    if s.len() > 0 && is_ws(s[0]) {
        assert(a >= 1);
        assert forall|j: int| 0 <= j < a - 1 implies is_ws(s.drop_first()[j]) by {
            assert(is_ws(s[j + 1]));
        }
        lemma_trim_start_is(s.drop_first(), a - 1);
        assert(s.drop_first().skip(a - 1) =~= s.skip(a));
    } else {
        assert(a == 0);
        assert(s.skip(0) =~= s);
    }
}

proof fn lemma_trim_end_is(s: Seq<char>, b: int)
    requires
        0 <= b <= s.len(),
        forall|j: int| b <= j < s.len() ==> is_ws(s[j]),
        b > 0 ==> !is_ws(s[b - 1]),
    ensures
        trim_end(s) == s.take(b),
    decreases s.len(),
{
    if s.len() > 0 && is_ws(s.last()) {
        assert(b < s.len());
        lemma_trim_end_is(s.drop_last(), b);
        assert(s.drop_last().take(b) =~= s.take(b));
    } else {
        assert(b == s.len());
        assert(s.take(b) =~= s);
    }
}

/// Whether `c` is ASCII whitespace.
fn is_ws_char(c: char) -> (r: bool)
    ensures
        r == is_ws(c),
{
    c == ' ' || c == '\t' || c == '\n' || c == '\r'
}

/// Strips leading and trailing ASCII whitespace.
pub fn trim(s: &str) -> (r: String)
    ensures
        r@ == spec_trim(s@),
{
    let n = s.unicode_len();
    let mut a: usize = 0;
    while a < n && is_ws_char(s.get_char(a))
        invariant
            n == s@.len(),
            0 <= a <= n,
            forall|j: int| 0 <= j < a ==> is_ws(s@[j]),
        decreases n - a,
    {
        a += 1;
    }
    proof {
        lemma_trim_start_is(s@, a as int);
    }
    let mut b: usize = n;
    while b > a && is_ws_char(s.get_char(b - 1))
        invariant
            n == s@.len(),
            a <= b <= n,
            a < n ==> !is_ws(s@[a as int]),
            forall|j: int| b <= j < n ==> is_ws(s@[j]),
        decreases b,
    {
        b -= 1;
    }
    let r = s.substring_char(a, b).to_owned();
    proof {
        let t = s@.skip(a as int);
        assert forall|j: int| b - a <= j < t.len() implies is_ws(t[j]) by {
            assert(is_ws(s@[a + j]));
        }
        if b > a {
            assert(!is_ws(t[b - a - 1 as int])) by {
                assert(t[b - a - 1 as int] == s@[b - 1 as int]);
            }
        } else {
            assert(a == b);
            if a < n {
                assert(!is_ws(t[0]));
            }
        }
        lemma_trim_end_is(t, b - a as int);
        assert(t.take(b - a as int) =~= s@.subrange(a as int, b as int));
    }
    r
}

/// One line as delivered by line splitting: a trailing carriage return is
/// dropped.
pub open spec fn drop_cr(l: Seq<char>) -> Seq<char> {
    if l.len() > 0 && l.last() == '\r' {
        l.drop_last()
    } else {
        l
    }
}

/// The lines of `s`: pieces between newline characters, each without a
/// trailing carriage return, with no phantom empty line after a final
/// newline.
pub open spec fn spec_lines(s: Seq<char>) -> Seq<Seq<char>> {
    if s.len() == 0 {
        Seq::empty()
    } else {
        let ps = spec_split(s, '\n');
        let ps2 = if ps.last().len() == 0 {
            ps.drop_last()
        } else {
            ps
        };
        ps2.map_values(|l: Seq<char>| drop_cr(l))
    }
}

/// Splits `s` into lines.
pub fn lines_of(s: &str) -> (r: Vec<String>)
    ensures
        r.deep_view() == spec_lines(s@),
{
    if s.unicode_len() == 0 {
        let r: Vec<String> = Vec::new();
        proof {
            assert(r.deep_view() =~= spec_lines(s@));
        }
        return r;
    }
    let mut ps = split_on(s, '\n');
    let last_len = ps[ps.len() - 1].as_str().unicode_len();
    if last_len == 0 {
        let ghost prev = ps.deep_view();
        let _ = ps.pop();
        proof {
            assert(ps.deep_view() =~= prev.drop_last());
        }
    }
    let mut out: Vec<String> = Vec::new();
    let ghost pieces = ps.deep_view();
    let mut i: usize = 0;
    while i < ps.len()
        invariant
            pieces == ps.deep_view(),
            0 <= i <= ps.len(),
            out.deep_view() =~= pieces.take(i as int).map_values(|l: Seq<char>| drop_cr(l)),
        decreases ps.len() - i,
    {
        let piece = &ps[i];
        let m = piece.as_str().unicode_len();
        let line: String = if m > 0 && piece.as_str().get_char(m - 1) == '\r' {
            piece.as_str().substring_char(0, m - 1).to_owned()
        } else {
            piece.clone()
        };
        proof {
            assert(line@ == drop_cr(pieces[i as int])) by {
                if m > 0 && pieces[i as int].last() == '\r' {
                    assert(pieces[i as int].subrange(0, m - 1 as int) =~= pieces[
                        i as int
                    ].drop_last());
                }
            }
        }
        let ghost prev = out.deep_view();
        out.push(line);
        proof {
            assert(out.deep_view() =~= prev.push(line@));
            assert(out.deep_view() =~= pieces.take(i + 1).map_values(
                |l: Seq<char>| drop_cr(l),
            ));
        }
        i += 1;
    }
    proof {
        assert(pieces.take(ps.len() as int) =~= pieces);
        assert(out.deep_view() =~= spec_lines(s@));
    }
    out
}

/// The lines joined with single newlines, no trailing newline.
pub open spec fn spec_join_nl(ls: Seq<Seq<char>>) -> Seq<char>
    decreases ls.len(),
{
    if ls.len() == 0 {
        Seq::empty()
    } else if ls.len() == 1 {
        ls[0]
    } else {
        spec_join_nl(ls.drop_last()).push('\n').add(ls.last())
    }
}

/// Joins lines with single newlines.
pub fn join_nl(v: &Vec<String>) -> (r: String)
    ensures
        r@ == spec_join_nl(v.deep_view()),
{
    let mut out = String::new();
    let mut i: usize = 0;
    proof {
        reveal_strlit("\n");
    }
    while i < v.len()
        invariant
            0 <= i <= v.len(),
            out@ == spec_join_nl(v.deep_view().take(i as int)),
            "\n"@ == seq!['\n'],
        decreases v.len() - i,
    {
        if i > 0 {
            out.append("\n");
        }
        out.append(v[i].as_str());
        proof {
            let dv = v.deep_view();
            assert(dv.take(i + 1).drop_last() =~= dv.take(i as int));
            assert(dv.take(i + 1).last() == dv[i as int]);
            if i > 0 {
                assert(out@ =~= spec_join_nl(dv.take(i as int)).push('\n').add(dv[i as int]));
            } else {
                assert(out@ =~= dv[0]);
            }
        }
        i += 1;
    }
    proof {
        assert(v.deep_view().take(v.len() as int) =~= v.deep_view());
    }
    out
}

/// Is `c` a decimal digit?
pub open spec fn is_dec_digit(c: char) -> bool {
    0x30 <= c as int <= 0x39
}

/// The numeric value of digit `c`.
pub open spec fn digit_val(c: char) -> int {
    c as int - 0x30
}

/// Does `s` consist of one or more decimal digits?
pub open spec fn all_digits(s: Seq<char>) -> bool {
    s.len() > 0 && forall|i: int| 0 <= i < s.len() ==> is_dec_digit(#[trigger] s[i])
}

/// The value of a digit string, most significant digit first.
pub open spec fn dec_val(s: Seq<char>) -> int
    decreases s.len(),
{
    if s.len() == 0 {
        0
    } else {
        dec_val(s.drop_last()) * 10 + digit_val(s.last())
    }
}

/// The digit part of an integer literal: an optional leading plus sign is
/// not part of the value.
pub open spec fn parse_body(s: Seq<char>) -> Seq<char> {
    if s.len() > 0 && s[0] == '+' {
        s.drop_first()
    } else {
        s
    }
}

/// What `str::parse::<u64>` accepts: an optional plus sign, then digits,
/// with a value that fits.
pub open spec fn spec_parse_u64(s: Seq<char>) -> Option<u64> {
    let b = parse_body(s);
    if all_digits(b) && dec_val(b) <= u64::MAX {
        Option::Some(dec_val(b) as u64)
    } else {
        Option::None
    }
}

proof fn lemma_dec_val_nonneg(s: Seq<char>)
    requires
        forall|i: int| 0 <= i < s.len() ==> is_dec_digit(#[trigger] s[i]),
    ensures
        dec_val(s) >= 0,
    decreases s.len(),
{
    if s.len() > 0 {
        lemma_dec_val_nonneg(s.drop_last());
    }
}

proof fn lemma_dec_val_prefix_le(s: Seq<char>, i: int)
    requires
        forall|k: int| 0 <= k < s.len() ==> is_dec_digit(#[trigger] s[k]),
        0 <= i <= s.len(),
    ensures
        dec_val(s.take(i)) <= dec_val(s),
    decreases s.len(),
{
    if i == s.len() {
        assert(s.take(i) =~= s);
    } else {
        assert(s.take(i) =~= s.drop_last().take(i));
        lemma_dec_val_prefix_le(s.drop_last(), i);
        lemma_dec_val_nonneg(s.drop_last());
    }
}

/// Parses a decimal `u64`, as `str::parse` does: an optional plus sign,
/// then one or more digits; anything else, or a value that does not fit,
/// is no value.
pub fn parse_u64(s: &str) -> (r: Option<u64>)
    ensures
        r == spec_parse_u64(s@),
{
    let n = s.unicode_len();
    let start: usize = if n > 0 && s.get_char(0) == '+' {
        1
    } else {
        0
    };
    proof {
        if start == 1 {
            assert(parse_body(s@) =~= s@.skip(1));
        } else {
            assert(parse_body(s@) =~= s@);
        }
    }
    let ghost b = parse_body(s@);
    if start == n {
        proof {
            assert(!all_digits(b));
        }
        return Option::None;
    }
    let mut val: u64 = 0;
    let mut i: usize = start;
    proof {
        assert(b.take(0) =~= Seq::<char>::empty());
    }
    while i < n
        invariant
            n == s@.len(),
            start <= i <= n,
            start < n,
            start == 0 || start == 1,
            b == parse_body(s@),
            b.len() == n - start,
            forall|k: int| 0 <= k < b.len() ==> b[k] == s@[k + start],
            forall|k: int| 0 <= k < i - start ==> is_dec_digit(#[trigger] b[k]),
            val == dec_val(b.take(i - start)),
        decreases n - i,
    {
        let c = s.get_char(i);
        if c < '0' || c > '9' {
            proof {
                assert(b[i - start] == c);
                assert(!is_dec_digit(b[i - start]));
                assert(!all_digits(b));
            }
            return Option::None;
        }
        let d: u64 = (c as u32 - 0x30) as u64;
        proof {
            assert(d == digit_val(c));
        }
        let wide: u128 = (val as u128) * 10 + (d as u128);
        proof {
            assert(b.take(i - start + 1).drop_last() =~= b.take(i - start));
            assert(b.take(i - start + 1).last() == b[i - start]);
        }
        if wide > u64::MAX as u128 {
            proof {
                assert(dec_val(b.take(i - start + 1)) > u64::MAX);
                assert forall|k: int| 0 <= k < b.len() implies is_dec_digit(#[trigger] b[k])
                    || !all_digits(b) by {}
                if all_digits(b) {
                    lemma_dec_val_prefix_le(b, i - start + 1);
                    assert(dec_val(b) > u64::MAX);
                }
            }
            return Option::None;
        }
        val = wide as u64;
        i += 1;
    }
    proof {
        assert(b.take(n - start) =~= b);
        assert(all_digits(b));
        lemma_dec_val_nonneg(b);
    }
    Option::Some(val)
}

/// The last `n` elements of `ls` (all of them when fewer).
pub open spec fn last_n<A>(ls: Seq<A>, n: int) -> Seq<A> {
    if ls.len() > n {
        ls.skip(ls.len() - n)
    } else {
        ls
    }
}

} // verus!
