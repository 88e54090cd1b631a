//! Verified text utilities: character classes, searching, splitting,
//! trimming, and decimal conversion over `Seq<char>` views.

use vstd::prelude::*;

verus! {

use vstd::string::StrSliceExecFns;
use vstd::string::StringExecFns;

// ---------- character classes ----------

pub open spec fn is_ws_char(c: char) -> bool {
    c == ' ' || c == '\t' || c == '\r' || c == '\n'
}

/// Characters a path-template placeholder segment may match.
pub open spec fn is_param_char(c: char) -> bool {
    ('A' <= c && c <= 'Z') || ('a' <= c && c <= 'z') || ('0' <= c && c <= '9') || c == '_' || c
        == '.' || c == '-'
}

pub fn char_is_ws(c: char) -> (r: bool)
    ensures
        r == is_ws_char(c),
{
    c == ' ' || c == '\t' || c == '\r' || c == '\n'
}

pub fn char_is_param(c: char) -> (r: bool)
    ensures
        r == is_param_char(c),
{
    ('A' <= c && c <= 'Z') || ('a' <= c && c <= 'z') || ('0' <= c && c <= '9') || c == '_' || c
        == '.' || c == '-'
}

// ---------- equality ----------

/// Character-for-character string equality, reflected as view equality.
pub fn str_eq(a: &str, b: &str) -> (r: bool)
    ensures
        r == (a@ == b@),
{
    let na = a.unicode_len();
    let nb = b.unicode_len();
    if na != nb {
        return false;
    }
    let mut i: usize = 0;
    while i < na
        invariant
            na == a@.len(),
            na == b@.len(),
            i <= na,
            forall|j: int| 0 <= j < i ==> a@[j] == b@[j],
        decreases na - i,
    {
        if a.get_char(i) != b.get_char(i) {
            return false;
        }
        i += 1;
    }
    proof {
        assert(a@ =~= b@);
    }
    true
}

// ---------- searching ----------

/// Index of the first occurrence of `sep`, or -1 if it does not occur.
pub open spec fn find_char(s: Seq<char>, sep: char) -> int
    decreases s.len(),
{
    if s.len() == 0 {
        -1
    } else if s[0] == sep {
        0
    } else if find_char(s.drop_first(), sep) == -1 {
        -1
    } else {
        1 + find_char(s.drop_first(), sep)
    }
}

pub proof fn lemma_find_char(s: Seq<char>, sep: char)
    ensures
        find_char(s, sep) == -1 ==> forall|j: int| 0 <= j < s.len() ==> s[j] != sep,
        find_char(s, sep) != -1 ==> 0 <= find_char(s, sep) < s.len() && s[find_char(s, sep)] == sep
            && forall|j: int| 0 <= j < find_char(s, sep) ==> s[j] != sep,
    decreases s.len(),
{
    if s.len() > 0 && s[0] != sep {
        lemma_find_char(s.drop_first(), sep);
        let r = find_char(s.drop_first(), sep);
        if r == -1 {
            assert forall|j: int| 0 <= j < s.len() implies s[j] != sep by {
                if j > 0 {
                    assert(s.drop_first()[j - 1] == s[j]);
                }
            }
        } else {
            assert(s[find_char(s, sep)] == s.drop_first()[r]);
            assert forall|j: int| 0 <= j < find_char(s, sep) implies s[j] != sep by {
                if j > 0 {
                    assert(s.drop_first()[j - 1] == s[j]);
                }
            }
        }
    }
}

pub fn find_char_exec(s: &str, sep: char) -> (r: Option<usize>)
    ensures
        match r {
            Option::None => find_char(s@, sep) == -1,
            Option::Some(i) => find_char(s@, sep) == i && i < s@.len(),
        },
{
    proof {
        lemma_find_char(s@, sep);
    }
    let n = s.unicode_len();
    let mut i: usize = 0;
    while i < n
        invariant
            n == s@.len(),
            i <= n,
            forall|j: int| 0 <= j < i ==> s@[j] != sep,
        decreases n - i,
    {
        if s.get_char(i) == sep {
            proof {
                lemma_find_char(s@, sep);
            }
            return Some(i);
        }
        i += 1;
    }
    None
}

// ---------- splitting ----------

/// The pieces of `s` between occurrences of `sep`; always at least one piece.
pub open spec fn split_char(s: Seq<char>, sep: char) -> Seq<Seq<char>>
    decreases s.len(),
    via split_char_decreases
{
    let i = find_char(s, sep);
    if i == -1 {
        seq![s]
    } else {
        seq![s.take(i)] + split_char(s.skip(i + 1), sep)
    }
}

#[via_fn]
proof fn split_char_decreases(s: Seq<char>, sep: char) {
    lemma_find_char(s, sep);
}

pub proof fn lemma_split_char_len(s: Seq<char>, sep: char)
    ensures
        split_char(s, sep).len() >= 1,
    decreases s.len(),
{
    lemma_find_char(s, sep);
    let i = find_char(s, sep);
    if i != -1 {
        lemma_split_char_len(s.skip(i + 1), sep);
    }
}

/// The view of each piece produced by the executable split.
pub open spec fn strs_view(v: Seq<String>) -> Seq<Seq<char>> {
    v.map_values(|x: String| x@)
}

pub fn split_char_exec(s: &str, sep: char) -> (r: Vec<String>)
    ensures
        strs_view(r@) == split_char(s@, sep),
        r@.len() >= 1,
    decreases s@.len(),
{
    proof {
        lemma_find_char(s@, sep);
    }
    match find_char_exec(s, sep) {
        Option::None => {
            let mut v: Vec<String> = Vec::new();
            v.push(s.to_owned());
            proof {
                assert(strs_view(v@) =~= seq![s@]);
            }
            v
        },
        Option::Some(i) => {
            let n = s.unicode_len();
            let head = s.substring_char(0, i).to_owned();
            let rest = s.substring_char(i + 1, n);
            proof {
                assert(rest@ =~= s@.skip(i + 1));
                assert(head@ =~= s@.take(i as int));
            }
            let mut v = split_char_exec(rest, sep);
            v.insert(0, head);
            proof {
                assert(strs_view(v@) =~= seq![s@.take(i as int)] + split_char(
                    s@.skip(i + 1),
                    sep,
                ));
            }
            v
        },
    }
}

// ---------- the header-block delimiter ----------

/// A CRLF CRLF delimiter starts at position `i`.
pub open spec fn delim_at(s: Seq<char>, i: int) -> bool {
    &&& 0 <= i
    &&& i + 4 <= s.len()
    &&& s[i] == '\r'
    &&& s[i + 1] == '\n'
    &&& s[i + 2] == '\r'
    &&& s[i + 3] == '\n'
}

/// Index of the first CRLF CRLF, or -1 if none occurs.
pub open spec fn find_delim(s: Seq<char>) -> int
    decreases s.len(),
{
    if s.len() < 4 {
        -1
    } else if s[0] == '\r' && s[1] == '\n' && s[2] == '\r' && s[3] == '\n' {
        0
    } else if find_delim(s.drop_first()) == -1 {
        -1
    } else {
        1 + find_delim(s.drop_first())
    }
}

pub proof fn lemma_find_delim(s: Seq<char>)
    ensures
        find_delim(s) == -1 ==> forall|j: int| !delim_at(s, j),
        find_delim(s) != -1 ==> delim_at(s, find_delim(s)) && forall|j: int|
            0 <= j < find_delim(s) ==> !delim_at(s, j),
    decreases s.len(),
{
    if s.len() < 4 {
    } else if s[0] == '\r' && s[1] == '\n' && s[2] == '\r' && s[3] == '\n' {
    } else {
        lemma_find_delim(s.drop_first());
        let r = find_delim(s.drop_first());
        assert(forall|j: int|
            0 <= j < s.drop_first().len() ==> s.drop_first()[j] == s[j + 1]);
        if r == -1 {
            assert forall|j: int| !delim_at(s, j) by {
                if 0 < j && j + 4 <= s.len() {
                    assert(!delim_at(s.drop_first(), j - 1));
                }
            }
        } else {
            assert(delim_at(s.drop_first(), r));
            assert(delim_at(s, r + 1));
            assert forall|j: int| 0 <= j < find_delim(s) implies !delim_at(s, j) by {
                if 0 < j {
                    assert(!delim_at(s.drop_first(), j - 1));
                }
            }
        }
    }
}

pub fn find_delim_exec(s: &str) -> (r: Option<usize>)
    ensures
        match r {
            Option::None => find_delim(s@) == -1,
            Option::Some(i) => find_delim(s@) == i && i + 4 <= s@.len(),
        },
{
    proof {
        lemma_find_delim(s@);
    }
    let n = s.unicode_len();
    if n < 4 {
        return None;
    }
    let mut i: usize = 0;
    while i <= n - 4
        invariant
            n == s@.len(),
            4 <= n,
            i <= n - 3,
            forall|j: int| 0 <= j < i ==> !delim_at(s@, j),
        decreases n - i,
    {
        if s.get_char(i) == '\r' && s.get_char(i + 1) == '\n' && s.get_char(i + 2) == '\r'
            && s.get_char(i + 3) == '\n' {
            proof {
                lemma_find_delim(s@);
                assert(delim_at(s@, i as int));
            }
            return Some(i);
        }
        i += 1;
    }
    proof {
        assert forall|j: int| !delim_at(s@, j) by {
            if 0 <= j && j + 4 <= s@.len() {
                assert(j < i);
            }
        }
    }
    None
}

// ---------- trimming ----------

pub open spec fn spec_trim_start(s: Seq<char>) -> Seq<char>
    decreases s.len(),
{
    if s.len() > 0 && is_ws_char(s[0]) {
        spec_trim_start(s.drop_first())
    } else {
        s
    }
}

pub open spec fn spec_trim_end(s: Seq<char>) -> Seq<char>
    decreases s.len(),
{
    if s.len() > 0 && is_ws_char(s.last()) {
        spec_trim_end(s.drop_last())
    } else {
        s
    }
}

/// Whitespace removed from both ends.
pub open spec fn spec_trim(s: Seq<char>) -> Seq<char> {
    spec_trim_end(spec_trim_start(s))
}

pub fn trim(s: &str) -> (r: String)
    ensures
        r@ == spec_trim(s@),
{
    let n = s.unicode_len();
    proof {
        assert(s@.skip(0) =~= s@);
    }
    let mut start: usize = 0;
    while start < n && char_is_ws(s.get_char(start))
        invariant
            n == s@.len(),
            start <= n,
            spec_trim_start(s@) == spec_trim_start(s@.skip(start as int)),
        decreases n - start,
    {
        proof {
            assert(s@.skip(start as int).drop_first() =~= s@.skip(start as int + 1));
        }
        start += 1;
    }
    proof {
        if start == n {
            assert(s@.skip(start as int) =~= Seq::<char>::empty());
        }
        assert(spec_trim_start(s@) == s@.skip(start as int));
    }
    let mut end: usize = n;
    while end > start && char_is_ws(s.get_char(end - 1))
        invariant
            n == s@.len(),
            start <= end <= n,
            spec_trim_start(s@) == s@.skip(start as int),
            spec_trim_end(s@.skip(start as int)) == spec_trim_end(
                s@.subrange(start as int, end as int),
            ),
        decreases end,
    {
        proof {
            assert(s@.subrange(start as int, end as int).drop_last() =~= s@.subrange(
                start as int,
                end as int - 1,
            ));
            assert(s@.subrange(start as int, end as int).last() == s@[end - 1]);
        }
        end -= 1;
    }
    proof {
        assert(spec_trim_end(s@.subrange(start as int, end as int)) == s@.subrange(
            start as int,
            end as int,
        ));
    }
    s.substring_char(start, end).to_owned()
}

// ---------- trailing-slash normalization ----------

/// Trailing `/` characters removed, except from a lone `/` (or shorter).
pub open spec fn spec_normalize_target(t: Seq<char>) -> Seq<char>
    decreases t.len(),
{
    if t.len() > 1 && t.last() == '/' {
        spec_normalize_target(t.drop_last())
    } else {
        t
    }
}

pub fn normalize_target(s: &str) -> (r: String)
    ensures
        r@ == spec_normalize_target(s@),
{
    let n = s.unicode_len();
    proof {
        assert(s@.take(n as int) =~= s@);
    }
    let mut end: usize = n;
    while end > 1 && s.get_char(end - 1) == '/'
        invariant
            n == s@.len(),
            end <= n,
            spec_normalize_target(s@) == spec_normalize_target(s@.take(end as int)),
        decreases end,
    {
        proof {
            assert(s@.take(end as int).drop_last() =~= s@.take(end as int - 1));
            assert(s@.take(end as int).last() == s@[end - 1]);
        }
        end -= 1;
    }
    proof {
        assert(s@.take(n as int) =~= s@);
        assert(spec_normalize_target(s@.take(end as int)) == s@.take(end as int));
    }
    s.substring_char(0, end).to_owned()
}

// ---------- carriage-return stripping ----------

/// One trailing `\r` removed, as happens to each header line.
pub open spec fn spec_strip_cr(l: Seq<char>) -> Seq<char> {
    if l.len() > 0 && l.last() == '\r' {
        l.drop_last()
    } else {
        l
    }
}

pub fn strip_cr(s: &str) -> (r: String)
    ensures
        r@ == spec_strip_cr(s@),
{
    let n = s.unicode_len();
    if n > 0 && s.get_char(n - 1) == '\r' {
        proof {
            assert(s@.take(n as int - 1) =~= s@.drop_last());
        }
        s.substring_char(0, n - 1).to_owned()
    } else {
        s.to_owned()
    }
}

// ---------- decimal numbers ----------

pub open spec fn digit_char_val(c: char) -> int {
    match c {
        '0' => 0,
        '1' => 1,
        '2' => 2,
        '3' => 3,
        '4' => 4,
        '5' => 5,
        '6' => 6,
        '7' => 7,
        '8' => 8,
        '9' => 9,
        _ => -1,
    }
}

pub open spec fn is_digit_char(c: char) -> bool {
    digit_char_val(c) >= 0
}

/// Non-empty and made of decimal digits only.
pub open spec fn all_digits(s: Seq<char>) -> bool {
    s.len() > 0 && forall|i: int| 0 <= i < s.len() ==> is_digit_char(#[trigger] s[i])
}

/// The number the digit string denotes.
pub open spec fn spec_digits_val(s: Seq<char>) -> int
    decreases s.len(),
{
    if s.len() == 0 {
        0
    } else {
        spec_digits_val(s.drop_last()) * 10 + digit_char_val(s.last())
    }
}

proof fn lemma_digits_val_bounds(s: Seq<char>)
    requires
        forall|i: int| 0 <= i < s.len() ==> is_digit_char(#[trigger] s[i]),
    ensures
        spec_digits_val(s) >= 0,
        forall|i: int|
            0 <= i <= s.len() ==> spec_digits_val(#[trigger] s.take(i)) <= spec_digits_val(s),
    decreases s.len(),
{
    if s.len() > 0 {
        lemma_digits_val_bounds(s.drop_last());
        assert(forall|i: int| 0 <= i < s.len() - 1 ==> s.drop_last()[i] == s[i]);
        assert(spec_digits_val(s.drop_last()) * 10 >= spec_digits_val(s.drop_last()))
            by (nonlinear_arith)
            requires
                spec_digits_val(s.drop_last()) >= 0,
        ;
        assert forall|i: int| 0 <= i <= s.len() implies spec_digits_val(#[trigger] s.take(i))
            <= spec_digits_val(s) by {
            if i < s.len() {
                assert(s.take(i) =~= s.drop_last().take(i));
            } else {
                assert(s.take(i) =~= s);
            }
        }
    }
}

fn digit_of(c: char) -> (r: Option<u32>)
    ensures
        match r {
            Option::Some(d) => digit_char_val(c) == d && d < 10,
            Option::None => digit_char_val(c) == -1,
        },
{
    match c {
        '0' => Some(0),
        '1' => Some(1),
        '2' => Some(2),
        '3' => Some(3),
        '4' => Some(4),
        '5' => Some(5),
        '6' => Some(6),
        '7' => Some(7),
        '8' => Some(8),
        '9' => Some(9),
        _ => None,
    }
}

/// Parse a string of decimal digits; `None` on empty input, a non-digit, or
/// a value that does not fit in `u32`.
pub fn parse_u32_digits(s: &str) -> (r: Option<u32>)
    ensures
        match r {
            Option::Some(v) => all_digits(s@) && spec_digits_val(s@) == v,
            Option::None => !(all_digits(s@) && spec_digits_val(s@) <= u32::MAX),
        },
{
    let n = s.unicode_len();
    if n == 0 {
        return None;
    }
    let mut acc: u32 = 0;
    let mut i: usize = 0;
    while i < n
        invariant
            n == s@.len(),
            0 < n,
            i <= n,
            forall|j: int| 0 <= j < i ==> is_digit_char(#[trigger] s@[j]),
            acc == spec_digits_val(s@.take(i as int)),
        decreases n - i,
    {
        let c = s.get_char(i);
        match digit_of(c) {
            Option::None => {
                return None;
            },
            Option::Some(d) => {
                proof {
                    assert(s@.take(i + 1).drop_last() =~= s@.take(i as int));
                    assert(s@.take(i + 1).last() == s@[i as int]);
                }
                if acc > u32::MAX / 10 || (acc == u32::MAX / 10 && d > u32::MAX % 10) {
                    proof {
                        if all_digits(s@) {
                            lemma_digits_val_bounds(s@);
                            assert(spec_digits_val(s@.take(i + 1)) <= spec_digits_val(s@));
                            assert(acc * 10 + d > u32::MAX) by (nonlinear_arith)
                                requires
                                    acc > u32::MAX / 10 || (acc == u32::MAX / 10 && d > u32::MAX
                                        % 10),
                                    acc >= 0,
                                    d >= 0,
                            ;
                        }
                    }
                    return None;
                }
                proof {
                    assert(acc * 10 + d <= u32::MAX) by (nonlinear_arith)
                        requires
                            acc <= u32::MAX / 10,
                            d <= 9,
                            acc <= u32::MAX / 10 ==> acc * 10 <= u32::MAX - 9 || acc == u32::MAX
                                / 10,
                            !(acc == u32::MAX / 10 && d > u32::MAX % 10),
                    ;
                }
                acc = acc * 10 + d;
                i += 1;
            },
        }
    }
    proof {
        assert(s@.take(n as int) =~= s@);
    }
    Some(acc)
}

/// The decimal digit string of a non-negative number.
pub open spec fn spec_dec_digits(n: int) -> Seq<char>
    decreases n,
    via spec_dec_digits_decreases
{
    if n < 10 {
        seq![dec_digit_char(n)]
    } else {
        spec_dec_digits(n / 10).push(dec_digit_char(n % 10))
    }
}

pub open spec fn dec_digit_char(d: int) -> char {
    if d == 0 {
        '0'
    } else if d == 1 {
        '1'
    } else if d == 2 {
        '2'
    } else if d == 3 {
        '3'
    } else if d == 4 {
        '4'
    } else if d == 5 {
        '5'
    } else if d == 6 {
        '6'
    } else if d == 7 {
        '7'
    } else if d == 8 {
        '8'
    } else {
        '9'
    }
}

#[via_fn]
proof fn spec_dec_digits_decreases(n: int) {
    if n >= 10 {
        assert(0 <= n / 10 < n) by (nonlinear_arith)
            requires
                n >= 10,
        ;
    }
}

fn digit_string(d: usize) -> (r: String)
    requires
        d < 10,
    ensures
        r@ == seq![dec_digit_char(d as int)],
{
    let r: &str = match d {
        0 => "0",
        1 => "1",
        2 => "2",
        3 => "3",
        4 => "4",
        5 => "5",
        6 => "6",
        7 => "7",
        8 => "8",
        _ => "9",
    };
    proof {
        reveal_strlit("0");
        reveal_strlit("1");
        reveal_strlit("2");
        reveal_strlit("3");
        reveal_strlit("4");
        reveal_strlit("5");
        reveal_strlit("6");
        reveal_strlit("7");
        reveal_strlit("8");
        reveal_strlit("9");
        assert(r@ =~= seq![dec_digit_char(d as int)]);
    }
    r.to_owned()
}

/// Render a number in decimal.
pub fn usize_to_string(n: usize) -> (r: String)
    ensures
        r@ == spec_dec_digits(n as int),
    decreases n,
{
    if n < 10 {
        digit_string(n)
    } else {
        let mut s = usize_to_string(n / 10);
        let d = digit_string(n % 10);
        s.append(d.as_str());
        proof {
            assert(s@ =~= spec_dec_digits(n as int / 10).push(dec_digit_char(n as int % 10)));
        }
        s
    }
}

} // verus!
