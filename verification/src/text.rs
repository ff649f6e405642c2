//! Decimal rendering and timestamp formatting over `Seq<char>` models.
use vstd::prelude::*;
use vstd::string::*;

verus! {

/// The character for one decimal digit.
pub open spec fn digit_char(d: nat) -> char {
    if d == 0 {
        '0'
    } else if d == 1 {
        '1'
    } else if d == 2 {
        '2'
    } else if d == 3 {
        '3'
    } else if d == 4 {
        '4'
    } else if d == 5 {
        '5'
    } else if d == 6 {
        '6'
    } else if d == 7 {
        '7'
    } else if d == 8 {
        '8'
    } else {
        '9'
    }
}

/// The decimal digits of `n`, most significant first, no leading zeros
/// (a single `'0'` for zero).
pub open spec fn dec_digits(n: nat) -> Seq<char>
    decreases n,
{
    if n < 10 {
        seq![digit_char(n)]
    } else {
        dec_digits(n / 10).push(digit_char(n % 10))
    }
}

/// `dec_digits(n)` zero-padded on the left to at least two characters.
pub open spec fn pad2(n: nat) -> Seq<char> {
    if n < 10 {
        seq!['0'] + dec_digits(n)
    } else {
        dec_digits(n)
    }
}

/// `dec_digits(n)` zero-padded on the left to at least three characters.
pub open spec fn pad3(n: nat) -> Seq<char> {
    if n < 10 {
        seq!['0', '0'] + dec_digits(n)
    } else if n < 100 {
        seq!['0'] + dec_digits(n)
    } else {
        dec_digits(n)
    }
}

fn digit_str(d: u64) -> (r: &'static str)
    requires
        d < 10,
    ensures
        r@ =~= seq![digit_char(d as nat)],
{
    proof {
        reveal_strlit("0");
        reveal_strlit("1");
        reveal_strlit("2");
        reveal_strlit("3");
        reveal_strlit("4");
        reveal_strlit("5");
        reveal_strlit("6");
        reveal_strlit("7");
        reveal_strlit("8");
        reveal_strlit("9");
    }
    match d {
        0 => "0",
        1 => "1",
        2 => "2",
        3 => "3",
        4 => "4",
        5 => "5",
        6 => "6",
        7 => "7",
        8 => "8",
        _ => "9",
    }
}

/// Renders `n` in decimal, matching `dec_digits`.
pub fn u64_to_dec(n: u64) -> (r: String)
    ensures
        r@ == dec_digits(n as nat),
    decreases n,
{
    if n < 10 {
        let r = digit_str(n).to_owned();
        proof {
            assert(r@ =~= dec_digits(n as nat));
        }
        r
    } else {
        let mut s = u64_to_dec(n / 10);
        s.append(digit_str(n % 10));
        proof {
            assert(s@ =~= dec_digits(n as nat));
        }
        s
    }
}

/// Renders `n` in decimal with at least two digits.
pub fn u64_pad2(n: u64) -> (r: String)
    ensures
        r@ == pad2(n as nat),
{
    if n < 10 {
        let mut s = digit_str(0).to_owned();
        s.append(digit_str(n));
        proof {
            assert(s@ =~= pad2(n as nat));
        }
        s
    } else {
        u64_to_dec(n)
    }
}

/// Renders `n` in decimal with at least three digits.
pub fn u64_pad3(n: u64) -> (r: String)
    ensures
        r@ == pad3(n as nat),
{
    if n < 100 {
        let mut s = digit_str(0).to_owned();
        s.append(u64_pad2(n).as_str());
        proof {
            assert(s@ =~= pad3(n as nat));
        }
        s
    } else {
        u64_to_dec(n)
    }
}

/// Quotient and remainder in one call.
pub fn divmod(x: usize, y: usize) -> (r: (usize, usize))
    requires
        y != 0,
    ensures
        r.0 == x / y,
        r.1 == x % y,
{
    (x / y, x % y)
}

/// The `HH:MM:SS<sep>mmm` timestamp for a time in milliseconds: hours,
/// minutes and seconds zero-padded to two digits (hours keep all digits
/// beyond two), milliseconds to three.
pub open spec fn timestamp_chars(ms: nat, sep: Seq<char>) -> Seq<char> {
    pad2(ms / 1000 / 60 / 60) + seq![':'] + pad2((ms / 1000 / 60) % 60) + seq![':'] + pad2(
        (ms / 1000) % 60,
    ) + sep + pad3(ms % 1000)
}

/// Formats a time given in milliseconds as `HH:MM:SS<sep>mmm`.
pub fn millis_to_timestamp(ms: u64, millisecond_sep: &str) -> (r: String)
    ensures
        r@ == timestamp_chars(ms as nat, millisecond_sep@),
{
    let milliseconds = ms % 1000;
    let total_seconds = ms / 1000;
    let seconds = total_seconds % 60;
    let total_minutes = total_seconds / 60;
    let minutes = total_minutes % 60;
    let hours = total_minutes / 60;
    let mut s = u64_pad2(hours);
    proof {
        reveal_strlit(":");
    }
    s.append(":");
    s.append(u64_pad2(minutes).as_str());
    s.append(":");
    s.append(u64_pad2(seconds).as_str());
    s.append(millisecond_sep);
    s.append(u64_pad3(milliseconds).as_str());
    proof {
        assert(s@ =~= timestamp_chars(ms as nat, millisecond_sep@));
    }
    s
}

/// Relies on `String::push`: appends one character.
#[verifier::external_body]
pub fn push_char(s: &mut String, c: char)
    ensures
        final(s)@ == old(s)@.push(c),
{
    s.push(c)
}

/// An ASCII upper-case letter mapped to its lower-case form; any other
/// character unchanged.
pub open spec fn lower_char(c: char) -> char {
    if c == 'A' {
        'a'
    } else if c == 'B' {
        'b'
    } else if c == 'C' {
        'c'
    } else if c == 'D' {
        'd'
    } else if c == 'E' {
        'e'
    } else if c == 'F' {
        'f'
    } else if c == 'G' {
        'g'
    } else if c == 'H' {
        'h'
    } else if c == 'I' {
        'i'
    } else if c == 'J' {
        'j'
    } else if c == 'K' {
        'k'
    } else if c == 'L' {
        'l'
    } else if c == 'M' {
        'm'
    } else if c == 'N' {
        'n'
    } else if c == 'O' {
        'o'
    } else if c == 'P' {
        'p'
    } else if c == 'Q' {
        'q'
    } else if c == 'R' {
        'r'
    } else if c == 'S' {
        's'
    } else if c == 'T' {
        't'
    } else if c == 'U' {
        'u'
    } else if c == 'V' {
        'v'
    } else if c == 'W' {
        'w'
    } else if c == 'X' {
        'x'
    } else if c == 'Y' {
        'y'
    } else if c == 'Z' {
        'z'
    } else {
        c
    }
}

fn lower_char_exec(c: char) -> (r: char)
    ensures
        r == lower_char(c),
{
    match c {
        'A' => 'a',
        'B' => 'b',
        'C' => 'c',
        'D' => 'd',
        'E' => 'e',
        'F' => 'f',
        'G' => 'g',
        'H' => 'h',
        'I' => 'i',
        'J' => 'j',
        'K' => 'k',
        'L' => 'l',
        'M' => 'm',
        'N' => 'n',
        'O' => 'o',
        'P' => 'p',
        'Q' => 'q',
        'R' => 'r',
        'S' => 's',
        'T' => 't',
        'U' => 'u',
        'V' => 'v',
        'W' => 'w',
        'X' => 'x',
        'Y' => 'y',
        'Z' => 'z',
        _ => c,
    }
}

/// ASCII-lowercases a character sequence and drops every `'-'`: the
/// canonical form of a key identifier.
pub open spec fn lower_nodash(s: Seq<char>) -> Seq<char>
    decreases s.len(),
{
    if s.len() == 0 {
        Seq::empty()
    } else if s.last() == '-' {
        lower_nodash(s.drop_last())
    } else {
        lower_nodash(s.drop_last()).push(lower_char(s.last()))
    }
}

/// ASCII-lowercases `s` and strips every dash.
pub fn lower_nodash_exec(s: &str) -> (r: String)
    ensures
        r@ == lower_nodash(s@),
{
    let n = s.unicode_len();
    let mut out = String::new();
    let mut i: usize = 0;
    while i < n
        invariant
            n == s@.len(),
            i <= n,
            out@ == lower_nodash(s@.take(i as int)),
        decreases n - i,
    {
        let c = s.get_char(i);
        if c != '-' {
            push_char(&mut out, lower_char_exec(c));
        }
        proof {
            assert(s@.take(i + 1).drop_last() =~= s@.take(i as int));
        }
        i = i + 1;
    }
    proof {
        assert(s@.take(n as int) =~= s@);
    }
    out
}

/// `s` ends with `suffix`.
pub open spec fn ends_with(s: Seq<char>, suffix: Seq<char>) -> bool {
    suffix.len() <= s.len() && s.subrange(s.len() - suffix.len(), s.len() as int) == suffix
}

/// Whether `s` ends with `suffix`.
pub fn str_ends_with(s: &str, suffix: &str) -> (r: bool)
    ensures
        r == ends_with(s@, suffix@),
{
    let n = s.unicode_len();
    let m = suffix.unicode_len();
    if m > n {
        return false;
    }
    let mut i: usize = 0;
    while i < m
        invariant
            n == s@.len(),
            m == suffix@.len(),
            m <= n,
            i <= m,
            forall|j: int| 0 <= j < i ==> s@[n - m + j] == suffix@[j],
        decreases m - i,
    {
        if s.get_char(n - m + i) != suffix.get_char(i) {
            return false;
        }
        i = i + 1;
    }
    proof {
        assert(s@.subrange(n - m, n as int) =~= suffix@);
    }
    true
}

/// `p` is a prefix of `s`.
pub open spec fn is_prefix(p: Seq<char>, s: Seq<char>) -> bool {
    p.len() <= s.len() && s.subrange(0, p.len() as int) == p
}

/// Whether `s` starts with `prefix`.
pub fn str_starts_with(s: &str, prefix: &str) -> (r: bool)
    ensures
        r == is_prefix(prefix@, s@),
{
    let n = s.unicode_len();
    let m = prefix.unicode_len();
    if m > n {
        return false;
    }
    let mut i: usize = 0;
    while i < m
        invariant
            n == s@.len(),
            m == prefix@.len(),
            m <= n,
            i <= m,
            forall|j: int| 0 <= j < i ==> s@[j] == prefix@[j],
        decreases m - i,
    {
        if s.get_char(i) != prefix.get_char(i) {
            return false;
        }
        i = i + 1;
    }
    proof {
        assert(s@.subrange(0, m as int) =~= prefix@);
    }
    true
}

/// Whether two character sequences are equal.
pub fn str_eq(s: &str, t: &str) -> (r: bool)
    ensures
        r == (s@ == t@),
{
    let n = s.unicode_len();
    let m = t.unicode_len();
    if n != m {
        return false;
    }
    let mut i: usize = 0;
    while i < n
        invariant
            n == s@.len(),
            n == t@.len(),
            i <= n,
            forall|j: int| 0 <= j < i ==> s@[j] == t@[j],
        decreases n - i,
    {
        if s.get_char(i) != t.get_char(i) {
            return false;
        }
        i = i + 1;
    }
    proof {
        assert(s@ =~= t@);
    }
    true
}

/// The numeric value of one hexadecimal digit; meaningless on other
/// characters.
pub open spec fn hex_val(c: char) -> nat {
    if c == '0' {
        0
    } else if c == '1' {
        1
    } else if c == '2' {
        2
    } else if c == '3' {
        3
    } else if c == '4' {
        4
    } else if c == '5' {
        5
    } else if c == '6' {
        6
    } else if c == '7' {
        7
    } else if c == '8' {
        8
    } else if c == '9' {
        9
    } else if c == 'a' || c == 'A' {
        10
    } else if c == 'b' || c == 'B' {
        11
    } else if c == 'c' || c == 'C' {
        12
    } else if c == 'd' || c == 'D' {
        13
    } else if c == 'e' || c == 'E' {
        14
    } else {
        15
    }
}

/// The character is an ASCII hexadecimal digit.
pub open spec fn is_hex_digit(c: char) -> bool {
    c == '0' || c == '1' || c == '2' || c == '3' || c == '4' || c == '5' || c == '6' || c == '7'
        || c == '8' || c == '9' || c == 'a' || c == 'b' || c == 'c' || c == 'd' || c == 'e' || c
        == 'f' || c == 'A' || c == 'B' || c == 'C' || c == 'D' || c == 'E' || c == 'F'
}

/// All characters of `s` are hexadecimal digits.
pub open spec fn all_hex(s: Seq<char>) -> bool {
    forall|i: int| 0 <= i < s.len() ==> is_hex_digit(#[trigger] s[i])
}

/// The big-endian value of a hexadecimal digit sequence.
pub open spec fn hex_value(s: Seq<char>) -> nat
    decreases s.len(),
{
    if s.len() == 0 {
        0
    } else {
        hex_value(s.drop_last()) * 16 + hex_val(s.last())
    }
}

/// A prefix of a digit sequence never has a larger value than the whole.
proof fn lemma_hex_value_prefix(s: Seq<char>, j: int)
    requires
        0 <= j <= s.len(),
    ensures
        hex_value(s.take(j)) <= hex_value(s),
    decreases s.len() - j,
{
    if j < s.len() {
        lemma_hex_value_prefix(s, j + 1);
        assert(s.take(j + 1).drop_last() =~= s.take(j));
        assert(hex_value(s.take(j + 1)) == hex_value(s.take(j)) * 16 + hex_val(s[j]));
    } else {
        assert(s.take(j) =~= s);
    }
}

fn hex_digit_val_exec(c: char) -> (r: Option<u8>)
    ensures
        r is Some <==> is_hex_digit(c),
        r is Some ==> r.unwrap() == hex_val(c),
{
    match c {
        '0' => Some(0),
        '1' => Some(1),
        '2' => Some(2),
        '3' => Some(3),
        '4' => Some(4),
        '5' => Some(5),
        '6' => Some(6),
        '7' => Some(7),
        '8' => Some(8),
        '9' => Some(9),
        'a' | 'A' => Some(10),
        'b' | 'B' => Some(11),
        'c' | 'C' => Some(12),
        'd' | 'D' => Some(13),
        'e' | 'E' => Some(14),
        'f' | 'F' => Some(15),
        _ => None,
    }
}

/// The largest value that can take one more hexadecimal digit without
/// leaving `u128`.
const HEX_CARRY_LIMIT: u128 = 0xfffffffffffffffffffffffffffffff;

/// Parses `s` as a big-endian hexadecimal number, as `u128::from_str_radix`
/// with radix 16 does on such input: it fails exactly on an empty string, a
/// non-hexadecimal character, or a value over `u128::MAX`.
pub fn parse_hex_u128(s: &str) -> (r: Option<u128>)
    ensures
        r is Some <==> (s@.len() > 0 && all_hex(s@) && hex_value(s@) <= u128::MAX),
        r is Some ==> r.unwrap() == hex_value(s@),
{
    let n = s.unicode_len();
    if n == 0 {
        return None;
    }
    let mut v: u128 = 0;
    let mut i: usize = 0;
    while i < n
        invariant
            n == s@.len(),
            i <= n,
            v == hex_value(s@.take(i as int)),
            all_hex(s@.take(i as int)),
        decreases n - i,
    {
        let c = s.get_char(i);
        proof {
            assert(s@.take(i + 1).drop_last() =~= s@.take(i as int));
            assert(s@.take(i + 1).last() == s@[i as int]);
        }
        match hex_digit_val_exec(c) {
            Option::None => {
                return None;
            },
            Option::Some(d) => {
                if v > HEX_CARRY_LIMIT {
                    proof {
                        lemma_hex_value_prefix(s@, i + 1);
                        assert(hex_value(s@.take(i + 1)) == v * 16 + hex_val(c));
                        assert(v * 16 >= (HEX_CARRY_LIMIT + 1) * 16) by (nonlinear_arith)
                            requires
                                v > HEX_CARRY_LIMIT,
                        ;
                    }
                    return None;
                }
                proof {
                    assert(v * 16 <= HEX_CARRY_LIMIT * 16) by (nonlinear_arith)
                        requires
                            v <= HEX_CARRY_LIMIT,
                    ;
                }
                v = v * 16 + (d as u128);
            },
        }
        i = i + 1;
    }
    proof {
        assert(s@.take(n as int) =~= s@);
    }
    Some(v)
}

/// All characters of `s` are hexadecimal digits.
pub fn str_all_hex(s: &str) -> (r: bool)
    ensures
        r == all_hex(s@),
{
    let n = s.unicode_len();
    let mut i: usize = 0;
    while i < n
        invariant
            n == s@.len(),
            i <= n,
            forall|j: int| 0 <= j < i ==> is_hex_digit(#[trigger] s@[j]),
        decreases n - i,
    {
        if hex_digit_val_exec(s.get_char(i)).is_none() {
            return false;
        }
        i = i + 1;
    }
    true
}

/// The index of the first occurrence of `c` in `s`, or `-1` when absent.
pub open spec fn find_char(s: Seq<char>, c: char) -> int
    decreases s.len(),
{
    if s.len() == 0 {
        -1
    } else if s[0] == c {
        0
    } else {
        let r = find_char(s.drop_first(), c);
        if r == -1 {
            -1
        } else {
            r + 1
        }
    }
}

/// What `find_char` returns: `-1` exactly when `c` is absent, else the
/// least index holding `c`.
pub proof fn lemma_find_char(s: Seq<char>, c: char)
    ensures
        find_char(s, c) == -1 ==> forall|j: int| 0 <= j < s.len() ==> s[j] != c,
        find_char(s, c) != -1 ==> {
            &&& 0 <= find_char(s, c) < s.len()
            &&& s[find_char(s, c)] == c
            &&& forall|j: int| 0 <= j < find_char(s, c) ==> s[j] != c
        },
    decreases s.len(),
{
    if s.len() > 0 && s[0] != c {
        lemma_find_char(s.drop_first(), c);
        let rest = s.drop_first();
        let fr = find_char(rest, c);
        if fr == -1 {
            assert(find_char(s, c) == -1);
            assert forall|j: int| 0 <= j < s.len() implies s[j] != c by {
                if j > 0 {
                    assert(rest[j - 1] == s[j]);
                    assert(rest[j - 1] != c);
                }
            }
        } else {
            assert(find_char(s, c) == fr + 1);
            assert(s[fr + 1] == rest[fr]);
            assert forall|j: int| 0 <= j < fr + 1 implies s[j] != c by {
                if j > 0 {
                    assert(rest[j - 1] == s[j]);
                    assert(rest[j - 1] != c);
                }
            }
        }
    }
}

/// `s` split on `sep`: the separated pieces in order, empty pieces kept, a
/// single piece when `sep` is absent.
pub open spec fn split_parts(s: Seq<char>, sep: char) -> Seq<Seq<char>>
    decreases s.len(),
{
    let f = find_char(s, sep);
    if 0 <= f < s.len() {
        seq![s.take(f)] + split_parts(s.skip(f + 1), sep)
    } else {
        seq![s]
    }
}

/// The first occurrence of `c` in `s`, if any.
pub fn find_char_exec(s: &str, c: char) -> (r: Option<usize>)
    ensures
        match r {
            Some(i) => find_char(s@, c) == i,
            None => find_char(s@, c) == -1,
        },
{
    let n = s.unicode_len();
    let mut i: usize = 0;
    while i < n
        invariant
            n == s@.len(),
            i <= n,
            forall|j: int| 0 <= j < i ==> s@[j] != c,
        decreases n - i,
    {
        if s.get_char(i) == c {
            proof {
                lemma_find_char(s@, c);
                let f = find_char(s@, c);
                assert(s@[i as int] == c);
                if f == -1 {
                    assert(s@[i as int] != c);
                }
                if f < i {
                    assert(s@[f] != c);
                }
                if f > i {
                    assert(s@[i as int] != c);
                }
            }
            return Some(i);
        }
        i = i + 1;
    }
    proof {
        lemma_find_char(s@, c);
        let f = find_char(s@, c);
        if f != -1 {
            assert(s@[f] != c);
        }
    }
    None
}

/// Splits `s` on `sep`, keeping empty pieces, as `str::split` does.
pub fn split_char(s: &str, sep: char) -> (r: Vec<String>)
    ensures
        r@.map_values(|x: String| x@) == split_parts(s@, sep),
    decreases s@.len(),
{
    proof {
        lemma_find_char(s@, sep);
    }
    let n = s.unicode_len();
    match find_char_exec(s, sep) {
        None => {
            let mut v: Vec<String> = Vec::new();
            v.push(s.to_owned());
            proof {
                assert(v@.map_values(|x: String| x@) =~= split_parts(s@, sep));
            }
            v
        },
        Some(i) => {
            let head = s.substring_char(0, i).to_owned();
            let tail = s.substring_char(i + 1, n);
            proof {
                assert(head@ =~= s@.take(i as int));
                assert(tail@ =~= s@.skip(i + 1));
            }
            let mut rest = split_char(tail, sep);
            let mut v: Vec<String> = Vec::new();
            v.push(head);
            v.append(&mut rest);
            proof {
                assert(v@.map_values(|x: String| x@) =~= split_parts(s@, sep));
            }
            v
        },
    }
}

/// The character is ASCII whitespace.
pub open spec fn is_space(c: char) -> bool {
    c == ' ' || c == '\t' || c == '\n' || c == '\r'
}

/// The whitespace-separated words of `s`, in order, each non-empty.
pub open spec fn words(s: Seq<char>) -> Seq<Seq<char>>
    decreases s.len(),
{
    if s.len() == 0 {
        Seq::empty()
    } else if is_space(s.last()) {
        words(s.drop_last())
    } else if s.len() >= 2 && !is_space(s[s.len() - 2]) {
        let w = words(s.drop_last());
        w.update(w.len() - 1, w.last().push(s.last()))
    } else {
        words(s.drop_last()).push(seq![s.last()])
    }
}

/// The words joined with single spaces.
pub open spec fn join_words(ws: Seq<Seq<char>>) -> Seq<char>
    decreases ws.len(),
{
    if ws.len() == 0 {
        Seq::empty()
    } else if ws.len() == 1 {
        ws[0]
    } else {
        join_words(ws.drop_last()) + seq![' '] + ws.last()
    }
}

/// `s` with runs of whitespace collapsed to single spaces and both ends
/// trimmed.
pub open spec fn norm_ws(s: Seq<char>) -> Seq<char> {
    join_words(words(s))
}

/// Every word is non-empty, and when `s` ends in a non-space character the
/// last word ends in it.
proof fn lemma_words_wf(s: Seq<char>)
    ensures
        forall|k: int| 0 <= k < words(s).len() ==> (#[trigger] words(s)[k]).len() > 0,
        s.len() > 0 && !is_space(s.last()) ==> words(s).len() > 0,
    decreases s.len(),
{
    if s.len() > 0 {
        lemma_words_wf(s.drop_last());
        let w = words(s.drop_last());
        if !is_space(s.last()) && s.len() >= 2 && !is_space(s[s.len() - 2]) {
            assert(s.drop_last().last() == s[s.len() - 2]);
            assert(w.len() > 0);
            let w2 = words(s);
            assert(w2 == w.update(w.len() - 1, w.last().push(s.last())));
            assert forall|k: int| 0 <= k < w2.len() implies (#[trigger] w2[k]).len() > 0 by {
                if k == w.len() - 1 {
                    assert(w2[k] == w.last().push(s.last()));
                } else {
                    assert(w2[k] == w[k]);
                }
            }
        }
    }
}

/// Joined non-empty words are empty exactly when there are no words.
proof fn lemma_join_words_len(ws: Seq<Seq<char>>)
    requires
        forall|k: int| 0 <= k < ws.len() ==> (#[trigger] ws[k]).len() > 0,
    ensures
        join_words(ws).len() == 0 <==> ws.len() == 0,
    decreases ws.len(),
{
    if ws.len() > 1 {
        assert(forall|k: int|
            0 <= k < ws.drop_last().len() ==> (#[trigger] ws.drop_last()[k]).len() > 0);
        lemma_join_words_len(ws.drop_last());
    }
}

/// Collapses whitespace runs to single spaces and trims both ends.
#[verifier::loop_isolation(false)]
pub fn normalize_ws(s: &str) -> (r: String)
    ensures
        r@ == norm_ws(s@),
{
    let n = s.unicode_len();
    let mut out = String::new();
    let mut prev_nonspace = false;
    let mut i: usize = 0;
    while i < n
        invariant
            i <= n,
            out@ == norm_ws(s@.take(i as int)),
            prev_nonspace == (i > 0 && !is_space(s@[i - 1])),
        decreases n - i,
    {
        let c = s.get_char(i);
        let space = c == ' ' || c == '\t' || c == '\n' || c == '\r';
        proof {
            let pre = s@.take(i as int);
            let post = s@.take(i + 1);
            assert(post.drop_last() =~= pre);
            assert(post.last() == s@[i as int]);
            lemma_words_wf(pre);
            lemma_words_wf(post);
            lemma_join_words_len(words(pre));
            if !space {
                if prev_nonspace {
                    let w = words(pre);
                    let w2 = words(post);
                    assert(w2 =~= w.update(w.len() - 1, w.last().push(c)));
                    assert(w2.drop_last() =~= w.drop_last());
                    if w.len() == 1 {
                        assert(join_words(w2) =~= join_words(w).push(c));
                    } else {
                        assert(join_words(w2) == join_words(w2.drop_last()) + seq![' ']
                            + w2.last());
                        assert(join_words(w2) =~= join_words(w).push(c));
                    }
                } else {
                    let w = words(pre);
                    let w2 = words(post);
                    assert(w2 =~= w.push(seq![c]));
                    assert(w2.drop_last() =~= w);
                    if w.len() == 0 {
                        assert(join_words(w2) =~= seq![c]);
                    } else {
                        assert(join_words(w2) =~= join_words(w) + seq![' '] + seq![c]);
                    }
                }
            } else {
                assert(words(post) =~= words(pre));
            }
        }
        if !space {
            if prev_nonspace {
                push_char(&mut out, c);
            } else if out.as_str().unicode_len() > 0 {
                push_char(&mut out, ' ');
                push_char(&mut out, c);
                proof {
                    assert(out@ =~= join_words(words(s@.take(i + 1))));
                }
            } else {
                push_char(&mut out, c);
                proof {
                    assert(out@ =~= join_words(words(s@.take(i + 1))));
                }
            }
            prev_nonspace = true;
        } else {
            prev_nonspace = false;
        }
        i = i + 1;
    }
    proof {
        assert(s@.take(n as int) =~= s@);
    }
    out
}

/// The binary size-unit class of a byte count: 0 for bytes up to 4 for
/// tebibytes.
pub open spec fn size_class(b: nat) -> nat {
    if b < 1024 {
        0
    } else if b < 1048576 {
        1
    } else if b < 1073741824 {
        2
    } else if b < 1099511627776 {
        3
    } else {
        4
    }
}

/// The byte count one step of unit class `k` holds.
pub open spec fn pow1024(k: nat) -> nat {
    if k == 0 {
        1
    } else if k == 1 {
        1024
    } else if k == 2 {
        1048576
    } else if k == 3 {
        1073741824
    } else {
        1099511627776
    }
}

/// The unit name of class `k`.
pub open spec fn bytes_unit(k: nat) -> Seq<char> {
    if k == 0 {
        "B"@
    } else if k == 1 {
        "KiB"@
    } else if k == 2 {
        "MiB"@
    } else if k == 3 {
        "GiB"@
    } else {
        "TiB"@
    }
}

/// A byte count scaled to its unit class, with two truncated decimals.
pub open spec fn bytes_value_chars(b: nat) -> Seq<char> {
    let p = pow1024(size_class(b));
    dec_digits(b / p) + "."@ + pad2((b % p) * 100 / p)
}

/// Humanizes a byte count: the scaled two-decimal value, the unit, and the
/// two joined with a space.
pub fn format_bytes(b: u64) -> (r: (String, String, String))
    ensures
        r.0@ == bytes_value_chars(b as nat),
        r.1@ == bytes_unit(size_class(b as nat)),
        r.2@ == bytes_value_chars(b as nat) + " "@ + bytes_unit(size_class(b as nat)),
{
    let p: u64 = if b < 1024 {
        1
    } else if b < 1048576 {
        1024
    } else if b < 1073741824 {
        1048576
    } else if b < 1099511627776 {
        1073741824
    } else {
        1099511627776
    };
    let unit: &'static str = if b < 1024 {
        "B"
    } else if b < 1048576 {
        "KiB"
    } else if b < 1073741824 {
        "MiB"
    } else if b < 1099511627776 {
        "GiB"
    } else {
        "TiB"
    };
    let mut value = u64_to_dec(b / p);
    value.append(".");
    value.append(u64_pad2((b % p) * 100 / p).as_str());
    let mut joined = value.clone();
    joined.append(" ");
    joined.append(unit);
    proof {
        assert(value@ =~= bytes_value_chars(b as nat));
        assert(joined@ =~= bytes_value_chars(b as nat) + " "@ + bytes_unit(size_class(b as nat)));
    }
    (value, unit.to_owned(), joined)
}

/// A value carried in thousandths, printed with its fractional part only
/// when one exists.
pub open spec fn milli_chars(n: nat) -> Seq<char> {
    if n % 1000 == 0 {
        dec_digits(n / 1000)
    } else {
        dec_digits(n / 1000) + "."@ + pad3(n % 1000)
    }
}

/// Prints a value carried in thousandths.
pub fn milli_to_string(n: u64) -> (r: String)
    ensures
        r@ == milli_chars(n as nat),
{
    if n % 1000 == 0 {
        u64_to_dec(n / 1000)
    } else {
        let mut s = u64_to_dec(n / 1000);
        s.append(".");
        s.append(u64_pad3(n % 1000).as_str());
        proof {
            assert(s@ =~= milli_chars(n as nat));
        }
        s
    }
}

} // verus!
