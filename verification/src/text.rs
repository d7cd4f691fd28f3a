//! Character-sequence utilities shared by the translator and the assembler:
//! trimming, splitting, comment stripping, and decimal / binary numerals.
//! Every executable function is specified against a recursive spec function
//! over `Seq<char>`.

use vstd::prelude::*;
use vstd::string::StrSliceExecFns;
use vstd::string::StringExecFns;

verus! {

/// Characters treated as blank when a line is trimmed.
pub open spec fn is_space(c: char) -> bool {
    c == ' ' || c == '\t' || c == '\r' || c == '\n' || c == '\u{b}' || c == '\u{c}'
}

pub fn is_space_char(c: char) -> (b: bool)
    ensures
        b == is_space(c),
{
    c == ' ' || c == '\t' || c == '\r' || c == '\n' || c == '\u{b}' || c == '\u{c}'
}

/// The sequence with leading blanks removed.
pub open spec fn trim_start(s: Seq<char>) -> Seq<char>
    decreases s.len(),
{
    if s.len() > 0 && is_space(s[0]) {
        trim_start(s.drop_first())
    } else {
        s
    }
}

/// The sequence with trailing blanks removed.
pub open spec fn trim_end(s: Seq<char>) -> Seq<char>
    decreases s.len(),
{
    if s.len() > 0 && is_space(s.last()) {
        trim_end(s.drop_last())
    } else {
        s
    }
}

/// The sequence with leading and trailing blanks removed.
pub open spec fn trim(s: Seq<char>) -> Seq<char> {
    trim_end(trim_start(s))
}

proof fn lemma_trim_start_at(s: Seq<char>, a: int)
    requires
        0 <= a <= s.len(),
        forall|j: int| 0 <= j < a ==> is_space(s[j]),
        a == s.len() || !is_space(s[a]),
    ensures
        trim_start(s) == s.skip(a),
    decreases a,
{
    if a == 0 {
        assert(s.skip(0) =~= s);
    } else {
        lemma_trim_start_at(s.drop_first(), a - 1);
        assert(s.drop_first().skip(a - 1) =~= s.skip(a));
    }
}

proof fn lemma_trim_end_at(s: Seq<char>, b: int)
    requires
        0 <= b <= s.len(),
        forall|j: int| b <= j < s.len() ==> is_space(s[j]),
        b == 0 || !is_space(s[b - 1]),
    ensures
        trim_end(s) == s.take(b),
    decreases s.len(),
{
    if b == s.len() {
        if s.len() > 0 && is_space(s.last()) {
            assert(!is_space(s[b - 1]));
            assert(false);
        }
        assert(s.take(b) =~= s);
    } else {
        assert(is_space(s.last()));
        lemma_trim_end_at(s.drop_last(), b);
        assert(s.drop_last().take(b) =~= s.take(b));
    }
}

/// Copies `s` with leading and trailing blanks removed.
pub fn trim_str(s: &str) -> (r: String)
    ensures
        r@ == trim(s@),
{
    let n = s.unicode_len();
    let mut a: usize = 0;
    while a < n && is_space_char(s.get_char(a))
        invariant
            0 <= a <= n,
            n == s@.len(),
            forall|j: int| 0 <= j < a ==> is_space(s@[j]),
        decreases n - a,
    {
        a = a + 1;
    }
    let mut b: usize = n;
    while b > a && is_space_char(s.get_char(b - 1))
        invariant
            a <= b <= n,
            n == s@.len(),
            forall|j: int| b <= j < n ==> is_space(s@[j]),
        decreases b,
    {
        b = b - 1;
    }
    proof {
        lemma_trim_start_at(s@, a as int);
        if b == a {
            lemma_trim_end_at(s@.skip(a as int), 0);
        } else {
            lemma_trim_end_at(s@.skip(a as int), b - a);
        }
        assert(s@.skip(a as int).take(b - a) =~= s@.subrange(a as int, b as int));
    }
    let sub = s.substring_char(a, b);
    sub.to_owned()
}

/// Index of the first occurrence of `c` in `s`, or `s.len()` when absent.
pub open spec fn find_char(s: Seq<char>, c: char) -> int
    decreases s.len(),
{
    if s.len() == 0 {
        0
    } else if s[0] == c {
        0
    } else {
        1 + find_char(s.drop_first(), c)
    }
}

pub proof fn lemma_find_char(s: Seq<char>, c: char)
    ensures
        0 <= find_char(s, c) <= s.len(),
        find_char(s, c) < s.len() ==> s[find_char(s, c)] == c,
        forall|j: int| 0 <= j < find_char(s, c) ==> s[j] != c,
    decreases s.len(),
{
    if s.len() == 0 {
    } else if s[0] == c {
    } else {
        lemma_find_char(s.drop_first(), c);
        assert forall|j: int| 0 <= j < find_char(s, c) implies s[j] != c by {
            if j > 0 {
                assert(s[j] == s.drop_first()[j - 1]);
            }
        }
    }
}

/// A position that is not `c` before any `c` pins `find_char` down.
pub proof fn lemma_find_char_at(s: Seq<char>, c: char, i: int)
    requires
        0 <= i <= s.len(),
        forall|j: int| 0 <= j < i ==> s[j] != c,
        i == s.len() || s[i] == c,
    ensures
        find_char(s, c) == i,
    decreases i,
{
    if i == 0 {
    } else {
        lemma_find_char_at(s.drop_first(), c, i - 1);
    }
}

/// `s` split at every occurrence of `sep`; always at least one piece.
pub open spec fn split_char(s: Seq<char>, sep: char) -> Seq<Seq<char>>
    decreases s.len(),
{
    if s.len() == 0 {
        seq![Seq::<char>::empty()]
    } else if s[0] == sep {
        seq![Seq::<char>::empty()] + split_char(s.drop_first(), sep)
    } else {
        let rest = split_char(s.drop_first(), sep);
        seq![seq![s[0]] + rest[0]] + rest.drop_first()
    }
}

pub proof fn lemma_split_char_nonempty(s: Seq<char>, sep: char)
    ensures
        split_char(s, sep).len() >= 1,
    decreases s.len(),
{
    if s.len() == 0 {
    } else if s[0] == sep {
        lemma_split_char_nonempty(s.drop_first(), sep);
    } else {
        lemma_split_char_nonempty(s.drop_first(), sep);
    }
}

/// Unrolls `split_char` by one whole piece: everything before the first
/// separator, then the split of what follows it.
pub proof fn lemma_split_char_step(s: Seq<char>, sep: char)
    ensures
        find_char(s, sep) == s.len() ==> split_char(s, sep) == seq![s],
        find_char(s, sep) < s.len() ==> split_char(s, sep) == seq![
            s.take(find_char(s, sep)),
        ] + split_char(s.skip(find_char(s, sep) + 1), sep),
    decreases s.len(),
{
    lemma_find_char(s, sep);
    if s.len() == 0 {
        assert(s =~= Seq::<char>::empty());
        assert(split_char(s, sep) =~= seq![s]);
    } else if s[0] == sep {
        assert(s.take(0) =~= Seq::<char>::empty());
        assert(s.skip(1) =~= s.drop_first());
        assert(split_char(s, sep) =~= seq![s.take(0)] + split_char(s.skip(1), sep));
    } else {
        let d = s.drop_first();
        lemma_split_char_step(d, sep);
        lemma_find_char(d, sep);
        let i = find_char(s, sep);
        assert(i == 1 + find_char(d, sep));
        if i == s.len() {
            assert(split_char(d, sep) == seq![d]);
            assert(seq![s[0]] + d =~= s);
            assert(split_char(s, sep) =~= seq![s]);
        } else {
            let rest = split_char(d, sep);
            assert(rest == seq![d.take(i - 1)] + split_char(d.skip(i), sep));
            lemma_split_char_nonempty(d.skip(i), sep);
            assert(rest[0] == d.take(i - 1));
            assert(seq![s[0]] + d.take(i - 1) =~= s.take(i));
            assert(rest.drop_first() =~= split_char(d.skip(i), sep));
            assert(d.skip(i) =~= s.skip(i + 1));
            assert(split_char(s, sep) =~= seq![s.take(i)] + split_char(s.skip(i + 1), sep));
        }
    }
}

/// The views of a sequence of owned strings.
pub open spec fn views_of(v: Seq<String>) -> Seq<Seq<char>> {
    v.map_values(|x: String| x@)
}

/// Splits `s` at every occurrence of `sep`.
pub fn split_str(s: &str, sep: char) -> (v: Vec<String>)
    ensures
        views_of(v@) == split_char(s@, sep),
{
    let n = s.unicode_len();
    let mut v: Vec<String> = Vec::new();
    let mut start: usize = 0;
    proof {
        assert(s@.skip(0) =~= s@);
        assert(views_of(v@) =~= Seq::<Seq<char>>::empty());
    }
    loop
        invariant_except_break
            0 <= start <= n,
            n == s@.len(),
            split_char(s@, sep) =~= views_of(v@) + split_char(s@.skip(start as int), sep),
        ensures
            views_of(v@) == split_char(s@, sep),
        decreases n - start,
    {
        let mut i = start;
        while i < n && s.get_char(i) != sep
            invariant
                start <= i <= n,
                n == s@.len(),
                forall|j: int| start <= j < i ==> s@[j] != sep,
            decreases n - i,
        {
            i = i + 1;
        }
        proof {
            let tail = s@.skip(start as int);
            lemma_find_char_at(tail, sep, i - start);
            lemma_split_char_step(tail, sep);
            assert(tail.take(i - start) =~= s@.subrange(start as int, i as int));
            if i < n {
                assert(tail.skip(i - start + 1) =~= s@.skip(i + 1));
            }
        }
        let piece = s.substring_char(start, i).to_owned();
        let ghost old_v = v@;
        v.push(piece);
        proof {
            assert(views_of(v@) =~= views_of(old_v).push(piece@));
        }
        if i == n {
            proof {
                let tail = s@.skip(start as int);
                assert(piece@ =~= tail);
                assert(split_char(tail, sep) == seq![tail]);
                assert(views_of(old_v) + seq![tail] =~= views_of(v@));
                assert(split_char(s@, sep) =~= views_of(v@));
            }
            break;
        }
        start = i + 1;
        proof {
            assert(split_char(s@, sep) =~= views_of(v@) + split_char(
                s@.skip(start as int),
                sep,
            ));
        }
    }
    v
}

/// Index of the first occurrence of `c` in `s`, or the length of `s` when
/// absent.
pub fn find_char_str(s: &str, c: char) -> (i: usize)
    ensures
        i == find_char(s@, c),
        i <= s@.len(),
{
    let n = s.unicode_len();
    let mut i: usize = 0;
    while i < n && s.get_char(i) != c
        invariant
            0 <= i <= n,
            n == s@.len(),
            forall|j: int| 0 <= j < i ==> s@[j] != c,
        decreases n - i,
    {
        i = i + 1;
    }
    proof {
        lemma_find_char_at(s@, c, i as int);
    }
    i
}

/// The prefix of `s` before the first occurrence of `c` (all of `s` when
/// `c` is absent).
pub open spec fn take_until(s: Seq<char>, c: char) -> Seq<char> {
    s.take(find_char(s, c))
}

/// The sequence with every leading occurrence of `c` removed.
pub open spec fn strip_all_start(s: Seq<char>, c: char) -> Seq<char>
    decreases s.len(),
{
    if s.len() > 0 && s[0] == c {
        strip_all_start(s.drop_first(), c)
    } else {
        s
    }
}

/// The sequence with every trailing occurrence of `c` removed.
pub open spec fn strip_all_end(s: Seq<char>, c: char) -> Seq<char>
    decreases s.len(),
{
    if s.len() > 0 && s.last() == c {
        strip_all_end(s.drop_last(), c)
    } else {
        s
    }
}

proof fn lemma_strip_all_start_at(s: Seq<char>, c: char, a: int)
    requires
        0 <= a <= s.len(),
        forall|j: int| 0 <= j < a ==> s[j] == c,
        a == s.len() || s[a] != c,
    ensures
        strip_all_start(s, c) == s.skip(a),
    decreases a,
{
    if a == 0 {
        assert(s.skip(0) =~= s);
    } else {
        lemma_strip_all_start_at(s.drop_first(), c, a - 1);
        assert(s.drop_first().skip(a - 1) =~= s.skip(a));
    }
}

proof fn lemma_strip_all_end_at(s: Seq<char>, c: char, b: int)
    requires
        0 <= b <= s.len(),
        forall|j: int| b <= j < s.len() ==> s[j] == c,
        b == 0 || s[b - 1] != c,
    ensures
        strip_all_end(s, c) == s.take(b),
    decreases s.len(),
{
    if b == s.len() {
        if s.len() > 0 && s.last() == c {
            assert(false);
        }
        assert(s.take(b) =~= s);
    } else {
        lemma_strip_all_end_at(s.drop_last(), c, b);
        assert(s.drop_last().take(b) =~= s.take(b));
    }
}

/// Copies `s` with every leading occurrence of `c` removed.
pub fn strip_start_str(s: &str, c: char) -> (r: String)
    ensures
        r@ == strip_all_start(s@, c),
{
    let n = s.unicode_len();
    let mut a: usize = 0;
    while a < n && s.get_char(a) == c
        invariant
            0 <= a <= n,
            n == s@.len(),
            forall|j: int| 0 <= j < a ==> s@[j] == c,
        decreases n - a,
    {
        a = a + 1;
    }
    proof {
        lemma_strip_all_start_at(s@, c, a as int);
        assert(s@.skip(a as int) =~= s@.subrange(a as int, n as int));
    }
    s.substring_char(a, n).to_owned()
}

/// Copies `s` with every trailing occurrence of `c` removed.
pub fn strip_end_str(s: &str, c: char) -> (r: String)
    ensures
        r@ == strip_all_end(s@, c),
{
    let n = s.unicode_len();
    let mut b: usize = n;
    while b > 0 && s.get_char(b - 1) == c
        invariant
            0 <= b <= n,
            n == s@.len(),
            forall|j: int| b <= j < n ==> s@[j] == c,
        decreases b,
    {
        b = b - 1;
    }
    proof {
        lemma_strip_all_end_at(s@, c, b as int);
        assert(s@.take(b as int) =~= s@.subrange(0, b as int));
    }
    s.substring_char(0, b).to_owned()
}

/// A source line reduced to its payload: trimmed, cut at the first `/`
/// (comments run to the end of the line), and trimmed again.
pub open spec fn clean_of(l: Seq<char>) -> Seq<char> {
    trim(take_until(trim(l), '/'))
}

/// Trims `line`, drops everything from the first `/` on, and trims again.
pub fn clean_line(line: &str) -> (r: String)
    ensures
        r@ == clean_of(line@),
{
    let t = trim_str(line);
    let n = t.as_str().unicode_len();
    let mut i: usize = 0;
    while i < n && t.as_str().get_char(i) != '/'
        invariant
            0 <= i <= n,
            n == t@.len(),
            forall|j: int| 0 <= j < i ==> t@[j] != '/',
        decreases n - i,
    {
        i = i + 1;
    }
    proof {
        lemma_find_char_at(t@, '/', i as int);
        assert(t@.take(i as int) =~= t@.subrange(0, i as int));
    }
    let head = t.as_str().substring_char(0, i);
    trim_str(head)
}

/// The decimal digit character for a value below ten.
pub open spec fn dec_digit(d: int) -> char {
    if d == 0 {
        '0'
    } else if d == 1 {
        '1'
    } else if d == 2 {
        '2'
    } else if d == 3 {
        '3'
    } else if d == 4 {
        '4'
    } else if d == 5 {
        '5'
    } else if d == 6 {
        '6'
    } else if d == 7 {
        '7'
    } else if d == 8 {
        '8'
    } else {
        '9'
    }
}

/// The decimal numeral of a non-negative value, most significant digit
/// first, with no leading zeros (a single `0` for zero).
pub open spec fn dec_chars(n: int) -> Seq<char>
    decreases n,
{
    if n < 10 {
        seq![dec_digit(n)]
    } else {
        dec_chars(n / 10) + seq![dec_digit(n % 10)]
    }
}

fn digit_str(d: u8) -> (r: &'static str)
    requires
        d < 10,
    ensures
        r@ == seq![dec_digit(d as int)],
{
    proof {
        reveal_strlit("0");
        reveal_strlit("1");
        reveal_strlit("2");
        reveal_strlit("3");
        reveal_strlit("4");
        reveal_strlit("5");
        reveal_strlit("6");
        reveal_strlit("7");
        reveal_strlit("8");
        reveal_strlit("9");
    }
    let r = if d == 0 {
        "0"
    } else if d == 1 {
        "1"
    } else if d == 2 {
        "2"
    } else if d == 3 {
        "3"
    } else if d == 4 {
        "4"
    } else if d == 5 {
        "5"
    } else if d == 6 {
        "6"
    } else if d == 7 {
        "7"
    } else if d == 8 {
        "8"
    } else {
        "9"
    };
    proof {
        assert(r@ =~= seq![dec_digit(d as int)]);
    }
    r
}

/// Appends the decimal numeral of `n` to `out`.
pub fn push_dec(out: &mut String, n: u64)
    ensures
        final(out)@ == old(out)@ + dec_chars(n as int),
    decreases n,
{
    if n < 10 {
        out.append(digit_str(n as u8));
    } else {
        push_dec(out, n / 10);
        out.append(digit_str((n % 10) as u8));
        proof {
            assert(old(out)@ + dec_chars(n as int / 10) + seq![dec_digit(n as int % 10)] =~= old(
                out,
            )@ + dec_chars(n as int));
        }
    }
}

/// The `width` lowest bits of a non-negative value, most significant first.
pub open spec fn bin_chars(n: int, width: nat) -> Seq<char>
    decreases width,
{
    if width == 0 {
        Seq::<char>::empty()
    } else {
        bin_chars(n / 2, (width - 1) as nat) + seq![if n % 2 == 1 { '1' } else { '0' }]
    }
}

/// Appends the `width`-bit binary numeral of `n` to `out`.
pub fn push_bin(out: &mut String, n: u16, width: u8)
    ensures
        final(out)@ == old(out)@ + bin_chars(n as int, width as nat),
    decreases width,
{
    proof {
        reveal_strlit("0");
        reveal_strlit("1");
    }
    if width > 0 {
        push_bin(out, n / 2, width - 1);
        out.append(if n % 2 == 1 { "1" } else { "0" });
        proof {
            let bit = seq![if n as int % 2 == 1 { '1' } else { '0' }];
            assert((if n as int % 2 == 1 { "1"@ } else { "0"@ }) =~= bit);
            assert(old(out)@ + bin_chars(n as int / 2, (width - 1) as nat) + bit =~= old(out)@
                + bin_chars(n as int, width as nat));
        }
    } else {
        proof {
            assert(old(out)@ + bin_chars(n as int, 0) =~= old(out)@);
        }
    }
}

/// Whether `c` is a decimal digit.
pub open spec fn is_digit(c: char) -> bool {
    '0' as int <= c as int && c as int <= '9' as int
}

/// The value of a decimal digit character.
pub open spec fn digit_val(c: char) -> int {
    c as int - '0' as int
}

pub fn is_digit_char(c: char) -> (b: bool)
    ensures
        b == is_digit(c),
{
    let u = c as u32;
    48 <= u && u <= 57
}

fn digit_of(c: char) -> (d: u8)
    requires
        is_digit(c),
    ensures
        d as int == digit_val(c),
{
    (c as u32 - 48) as u8
}

/// The value of a digit string read in base ten.
pub open spec fn digits_val(s: Seq<char>) -> int
    decreases s.len(),
{
    if s.len() == 0 {
        0
    } else {
        digits_val(s.drop_last()) * 10 + digit_val(s.last())
    }
}

/// Whether `s` is one or more decimal digits.
pub open spec fn all_digits(s: Seq<char>) -> bool {
    s.len() > 0 && forall|j: int| 0 <= j < s.len() ==> is_digit(s[j])
}

/// What parsing `s` as a decimal `u32` yields: the value when `s` is all
/// digits and small enough, nothing otherwise.
pub open spec fn parse_u32(s: Seq<char>) -> Option<u32> {
    if all_digits(s) && digits_val(s) <= u32::MAX {
        Some(digits_val(s) as u32)
    } else {
        None
    }
}

/// What parsing `s` as a decimal `u16` yields.
pub open spec fn parse_u16(s: Seq<char>) -> Option<u16> {
    if all_digits(s) && digits_val(s) <= u16::MAX {
        Some(digits_val(s) as u16)
    } else {
        None
    }
}

/// A digit string never reads as a negative value.
pub proof fn lemma_digits_val_nonneg(s: Seq<char>)
    requires
        forall|j: int| 0 <= j < s.len() ==> is_digit(s[j]),
    ensures
        digits_val(s) >= 0,
    decreases s.len(),
{
    if s.len() > 0 {
        lemma_digits_val_nonneg(s.drop_last());
    }
}

/// Once a digit prefix reaches a value, the digits that follow cannot
/// shrink it.
proof fn lemma_digits_val_mono(s: Seq<char>, k: int)
    requires
        0 <= k <= s.len(),
        forall|j: int| k <= j < s.len() ==> is_digit(s[j]),
        digits_val(s.take(k)) >= 0,
    ensures
        digits_val(s) >= digits_val(s.take(k)),
    decreases s.len() - k,
{
    if k == s.len() {
        assert(s.take(k) =~= s);
    } else {
        assert(s.take(k + 1).drop_last() =~= s.take(k));
        assert(s.take(k + 1).last() == s[k]);
        assert(digits_val(s.take(k + 1)) == digits_val(s.take(k)) * 10 + digit_val(s[k]));
        lemma_digits_val_mono(s, k + 1);
    }
}

/// Parses `s` as a decimal `u32`.
pub fn parse_u32_str(s: &str) -> (r: Option<u32>)
    ensures
        r == parse_u32(s@),
{
    let n = s.unicode_len();
    if n == 0 {
        return None;
    }
    let mut acc: u64 = 0;
    let mut i: usize = 0;
    while i < n
        invariant
            0 < n,
            n == s@.len(),
            0 <= i <= n,
            forall|j: int| 0 <= j < i ==> is_digit(s@[j]),
            acc as int == digits_val(s@.take(i as int)),
            acc <= u32::MAX,
        decreases n - i,
    {
        let c = s.get_char(i);
        if !is_digit_char(c) {
            return None;
        }
        let d = digit_of(c);
        let next: u64 = acc * 10 + d as u64;
        proof {
            assert(s@.take(i + 1).drop_last() =~= s@.take(i as int));
            assert(s@.take(i + 1).last() == s@[i as int]);
        }
        if next > u32::MAX as u64 {
            proof {
                if all_digits(s@) {
                    lemma_digits_val_mono(s@, i + 1);
                }
            }
            return None;
        }
        acc = next;
        i = i + 1;
    }
    proof {
        assert(s@.take(n as int) =~= s@);
    }
    Some(acc as u32)
}

/// Parses `s` as a decimal `u16`.
pub fn parse_u16_str(s: &str) -> (r: Option<u16>)
    ensures
        r == parse_u16(s@),
{
    let big = parse_u32_str(s);
    proof {
        if all_digits(s@) {
            lemma_digits_val_nonneg(s@);
        }
        if big is None && all_digits(s@) && digits_val(s@) <= u16::MAX {
            assert(digits_val(s@) <= u32::MAX);
        }
    }
    match big {
        Some(v) => if v <= u16::MAX as u32 {
            Some(v as u16)
        } else {
            None
        },
        None => None,
    }
}

/// The pieces joined with single newlines between them: the text whose
/// lines they are.
pub open spec fn join_lines(lines: Seq<Seq<char>>) -> Seq<char>
    decreases lines.len(),
{
    if lines.len() == 0 {
        Seq::<char>::empty()
    } else if lines.len() == 1 {
        lines[0]
    } else {
        lines[0] + seq!['\n'] + join_lines(lines.drop_first())
    }
}

pub proof fn lemma_join_lines_snoc(lines: Seq<Seq<char>>, x: Seq<char>)
    ensures
        join_lines(lines.push(x)) == if lines.len() == 0 {
            x
        } else {
            join_lines(lines) + seq!['\n'] + x
        },
    decreases lines.len(),
{
    let p = lines.push(x);
    if lines.len() == 0 {
        assert(p =~= seq![x]);
        assert(join_lines(seq![x]) == x);
    } else if lines.len() == 1 {
        assert(p.len() == 2);
        assert(join_lines(p) == p[0] + seq!['\n'] + join_lines(p.drop_first()));
        assert(p.drop_first() =~= seq![x]);
        assert(join_lines(seq![x]) == x);
        assert(p[0] == lines[0]);
        assert(join_lines(lines) == lines[0]);
    } else {
        lemma_join_lines_snoc(lines.drop_first(), x);
        assert(p.len() >= 2);
        assert(join_lines(p) == p[0] + seq!['\n'] + join_lines(p.drop_first()));
        assert(p.drop_first() =~= lines.drop_first().push(x));
        assert(p[0] == lines[0]);
        assert(join_lines(lines) == lines[0] + seq!['\n'] + join_lines(lines.drop_first()));
        assert(lines[0] + seq!['\n'] + (join_lines(lines.drop_first()) + seq!['\n'] + x) =~= (
        lines[0] + seq!['\n'] + join_lines(lines.drop_first())) + seq!['\n'] + x);
    }
}

/// Whether `s` and `t` hold the same characters.
pub fn str_eq(s: &str, t: &str) -> (r: bool)
    ensures
        r == (s@ == t@),
{
    let n = s.unicode_len();
    if n != t.unicode_len() {
        return false;
    }
    let mut i: usize = 0;
    while i < n
        invariant
            0 <= i <= n,
            n == s@.len(),
            n == t@.len(),
            forall|j: int| 0 <= j < i ==> s@[j] == t@[j],
        decreases n - i,
    {
        if s.get_char(i) != t.get_char(i) {
            return false;
        }
        i = i + 1;
    }
    proof {
        assert(s@ =~= t@);
    }
    true
}

} // verus!
