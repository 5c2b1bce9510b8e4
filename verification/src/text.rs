//! Text handling for sysfs attribute files: whitespace trimming and numerals.
use vstd::prelude::*;

verus! {

/// Unicode's White_Space property, the whitespace that `str::trim` removes.
pub open spec fn is_white_space(c: char) -> bool {
    let v = c as u32;
    ||| 0x9 <= v <= 0xd
    ||| v == 0x20
    ||| v == 0x85
    ||| v == 0xa0
    ||| v == 0x1680
    ||| 0x2000 <= v <= 0x200a
    ||| v == 0x2028
    ||| v == 0x2029
    ||| v == 0x202f
    ||| v == 0x205f
    ||| v == 0x3000
}

/// Whether `c` is whitespace.
pub fn char_is_white_space(c: char) -> (b: bool)
    ensures
        b == is_white_space(c),
{
    let v = c as u32;
    (0x9 <= v && v <= 0xd) || v == 0x20 || v == 0x85 || v == 0xa0 || v == 0x1680 || (0x2000 <= v
        && v <= 0x200a) || v == 0x2028 || v == 0x2029 || v == 0x202f || v == 0x205f || v == 0x3000
}

/// The characters of `s`.
pub fn chars_of(s: &str) -> (v: Vec<char>)
    ensures
        v@ == s@,
{
    let n = s.unicode_len();
    let mut v: Vec<char> = Vec::new();
    let mut i: usize = 0;
    while i < n
        invariant
            n == s@.len(),
            i <= n,
            v@ == s@.take(i as int),
        decreases n - i,
    {
        v.push(s.get_char(i));
        i = i + 1;
        assert(v@ =~= s@.take(i as int));
    }
    assert(v@ =~= s@);
    v
}

/// `s` without its leading whitespace.
pub open spec fn trim_start(s: Seq<char>) -> Seq<char>
    decreases s.len(),
{
    if s.len() > 0 && is_white_space(s[0]) {
        trim_start(s.drop_first())
    } else {
        s
    }
}

/// `s` without its trailing whitespace.
pub open spec fn trim_end(s: Seq<char>) -> Seq<char>
    decreases s.len(),
{
    if s.len() > 0 && is_white_space(s.last()) {
        trim_end(s.drop_last())
    } else {
        s
    }
}

/// `s` without leading and trailing whitespace.
pub open spec fn trimmed(s: Seq<char>) -> Seq<char> {
    trim_end(trim_start(s))
}

/// `s` without leading and trailing whitespace.
pub fn trim(s: &str) -> (t: String)
    ensures
        t@ == trimmed(s@),
{
    let cs = chars_of(s);
    let n = cs.len();
    let mut i: usize = 0;
    assert(s@.skip(0) =~= s@);
    while i < n && char_is_white_space(cs[i])
        invariant
            cs@ == s@,
            n == cs@.len(),
            i <= n,
            trim_start(s@) == trim_start(s@.skip(i as int)),
        decreases n - i,
    {
        assert(s@.skip(i as int).drop_first() =~= s@.skip(i + 1));
        i = i + 1;
    }
    let mut j: usize = n;
    assert(s@.skip(i as int) =~= s@.subrange(i as int, n as int));
    while j > i && char_is_white_space(cs[j - 1])
        invariant
            cs@ == s@,
            n == cs@.len(),
            i <= j <= n,
            trim_end(s@.subrange(i as int, n as int)) == trim_end(s@.subrange(i as int, j as int)),
        decreases j,
    {
        assert(s@.subrange(i as int, j as int).drop_last() =~= s@.subrange(i as int, j - 1));
        j = j - 1;
    }
    let t = s.substring_char(i, j);
    t.to_owned()
}

/// A text starts with `prefix`.
pub open spec fn has_prefix(s: Seq<char>, prefix: Seq<char>) -> bool {
    prefix.len() <= s.len() && s.take(prefix.len() as int) == prefix
}

/// Whether `s` holds the character `c`.
pub fn contains_char(s: &Vec<char>, c: char) -> (b: bool)
    ensures
        b == s@.contains(c),
{
    let mut i: usize = 0;
    while i < s.len()
        invariant
            i <= s@.len(),
            forall|k: int| 0 <= k < i ==> s@[k] != c,
        decreases s@.len() - i,
    {
        if s[i] == c {
            assert(s@[i as int] == c);
            return true;
        }
        i = i + 1;
    }
    false
}

/// The value of a digit in any radix up to 36; 36 for a character that is no
/// digit. Letters count from ten in either case.
pub open spec fn digit_value(c: char) -> nat {
    let v = c as u32;
    if 0x30 <= v <= 0x39 {
        (v - 0x30) as nat
    } else if 0x61 <= v <= 0x7a {
        (v - 0x61 + 10) as nat
    } else if 0x41 <= v <= 0x5a {
        (v - 0x41 + 10) as nat
    } else {
        36
    }
}

/// The value of a digit string, most significant digit first.
pub open spec fn digits_value(d: Seq<char>, radix: nat) -> nat
    decreases d.len(),
{
    if d.len() == 0 {
        0
    } else {
        digits_value(d.drop_last(), radix) * radix + digit_value(d.last())
    }
}

/// The digits of a numeral: what follows an optional leading `+`.
pub open spec fn numeral_digits(s: Seq<char>) -> Seq<char> {
    if s.len() > 0 && s[0] == '+' {
        s.drop_first()
    } else {
        s
    }
}

/// An unsigned numeral in `radix`: an optional `+`, then one or more digits of
/// the radix and nothing else.
pub open spec fn is_numeral(s: Seq<char>, radix: nat) -> bool {
    let d = numeral_digits(s);
    d.len() > 0 && forall|i: int| 0 <= i < d.len() ==> digit_value(#[trigger] d[i]) < radix
}

/// The number an unsigned numeral stands for.
pub open spec fn numeral_value(s: Seq<char>, radix: nat) -> nat {
    digits_value(numeral_digits(s), radix)
}

/// `s` is a numeral in `radix` whose value is at most `max`.
pub open spec fn numeral_within(s: Seq<char>, radix: nat, max: nat) -> bool {
    is_numeral(s, radix) && numeral_value(s, radix) <= max
}

/// `num_traits::Num::from_str_radix` for `u8`, which is `u8::from_str_radix`: it
/// accepts exactly the numerals of the radix whose value fits, and yields that
/// value. It panics on a radix outside 2..=36.
#[verifier::external_body]
pub(crate) fn u8_from_str_radix(s: &str, radix: u32) -> (r: Result<u8, std::num::ParseIntError>)
    requires
        2 <= radix <= 36,
    ensures
        r is Ok <==> numeral_within(s@, radix as nat, u8::MAX as nat),
        r matches Ok(v) ==> v == numeral_value(s@, radix as nat),
{
    <u8 as num_traits::Num>::from_str_radix(s, radix)
}

/// `num_traits::Num::from_str_radix` for `u16`, which is `u16::from_str_radix`: it
/// accepts exactly the numerals of the radix whose value fits, and yields that
/// value. It panics on a radix outside 2..=36.
#[verifier::external_body]
pub(crate) fn u16_from_str_radix(s: &str, radix: u32) -> (r: Result<u16, std::num::ParseIntError>)
    requires
        2 <= radix <= 36,
    ensures
        r is Ok <==> numeral_within(s@, radix as nat, u16::MAX as nat),
        r matches Ok(v) ==> v == numeral_value(s@, radix as nat),
{
    <u16 as num_traits::Num>::from_str_radix(s, radix)
}

/// `num_traits::Num::from_str_radix` for `u32`, which is `u32::from_str_radix`: it
/// accepts exactly the numerals of the radix whose value fits, and yields that
/// value. It panics on a radix outside 2..=36.
#[verifier::external_body]
pub(crate) fn u32_from_str_radix(s: &str, radix: u32) -> (r: Result<u32, std::num::ParseIntError>)
    requires
        2 <= radix <= 36,
    ensures
        r is Ok <==> numeral_within(s@, radix as nat, u32::MAX as nat),
        r matches Ok(v) ==> v == numeral_value(s@, radix as nat),
{
    <u32 as num_traits::Num>::from_str_radix(s, radix)
}

/// Whether two texts are equal.
pub fn text_equals(a: &str, b: &str) -> (r: bool)
    ensures
        r == (a@ == b@),
{
    a.to_owned() == b.to_owned()
}

/// The character of a decimal digit.
pub open spec fn digit_char(d: nat) -> char {
    (d + 48) as char
}

/// The decimal numeral of `n`, without leading zeros.
pub open spec fn decimal(n: nat) -> Seq<char>
    decreases n,
{
    if n < 10 {
        seq![digit_char(n)]
    } else {
        decimal(n / 10) + seq![digit_char(n % 10)]
    }
}

/// The decimal numeral of `n`, with a `-` when it is negative.
pub open spec fn signed_decimal(n: int) -> Seq<char> {
    if n < 0 {
        seq!['-'] + decimal((-n) as nat)
    } else {
        decimal(n as nat)
    }
}

/// The one-character text of digit `d`.
fn digit_str(d: u8) -> (s: &'static str)
    requires
        d < 10,
    ensures
        s@ == seq![digit_char(d as nat)],
{
    proof {
        reveal_strlit("0");
        reveal_strlit("1");
        reveal_strlit("2");
        reveal_strlit("3");
        reveal_strlit("4");
        reveal_strlit("5");
        reveal_strlit("6");
        reveal_strlit("7");
        reveal_strlit("8");
        reveal_strlit("9");
    }
    let s = match d {
        0 => "0",
        1 => "1",
        2 => "2",
        3 => "3",
        4 => "4",
        5 => "5",
        6 => "6",
        7 => "7",
        8 => "8",
        _ => "9",
    };
    assert(s@ =~= seq![digit_char(d as nat)]);
    s
}

/// The digits of `ds` as characters, last digit first.
pub open spec fn reversed_digits(ds: Seq<u8>) -> Seq<char> {
    Seq::new(ds.len(), |i: int| digit_char(ds[ds.len() - 1 - i] as nat))
}

/// Appends the decimal numeral of `n` to `out`.
fn push_decimal(out: &mut String, n: u64)
    ensures
        final(out)@ == old(out)@ + decimal(n as nat),
{
    let mut m: u64 = n;
    let mut ds: Vec<u8> = Vec::new();
    loop
        invariant_except_break
            m > 0 || ds@.len() == 0,
            decimal(n as nat) == (if m == 0 && ds@.len() > 0 {
                Seq::<char>::empty()
            } else {
                decimal(m as nat)
            }) + reversed_digits(ds@),
            forall|i: int| 0 <= i < ds@.len() ==> ds@[i] < 10,
        ensures
            decimal(n as nat) == reversed_digits(ds@),
            forall|i: int| 0 <= i < ds@.len() ==> ds@[i] < 10,
        decreases m,
    {
        let ghost prev = ds@;
        let d = (m % 10) as u8;
        ds.push(d);
        let ghost old_m = m;
        m = m / 10;
        assert(reversed_digits(ds@) =~= seq![digit_char(d as nat)] + reversed_digits(prev));
        if m == 0 {
            assert(decimal(old_m as nat) =~= seq![digit_char(d as nat)]);
            assert(decimal(n as nat) =~= reversed_digits(ds@));
            break;
        }
        assert(decimal(old_m as nat) == decimal(m as nat) + seq![digit_char(d as nat)]);
        assert(decimal(n as nat) =~= decimal(m as nat) + reversed_digits(ds@));
    }
    let ghost start = out@;
    let mut k: usize = ds.len();
    while k > 0
        invariant
            k <= ds@.len(),
            forall|i: int| 0 <= i < ds@.len() ==> ds@[i] < 10,
            out@ == start + reversed_digits(ds@).take(ds@.len() - k),
        decreases k,
    {
        k = k - 1;
        let s = digit_str(ds[k]);
        out.append(s);
        assert(out@ =~= start + reversed_digits(ds@).take(ds@.len() - k));
    }
    assert(reversed_digits(ds@).take(ds@.len() as int) =~= reversed_digits(ds@));
}

/// The decimal numeral of `n`.
pub fn decimal_u32(n: u32) -> (s: String)
    ensures
        s@ == decimal(n as nat),
{
    let mut s = String::new();
    push_decimal(&mut s, n as u64);
    s
}

/// The decimal numeral of `n`.
pub fn decimal_usize(n: usize) -> (s: String)
    ensures
        s@ == decimal(n as nat),
{
    let mut s = String::new();
    push_decimal(&mut s, n as u64);
    s
}

/// The lower-case hexadecimal digit of `d`.
pub open spec fn hex_digit_char(d: nat) -> char {
    if d < 10 {
        digit_char(d)
    } else if d == 10 {
        'a'
    } else if d == 11 {
        'b'
    } else if d == 12 {
        'c'
    } else if d == 13 {
        'd'
    } else if d == 14 {
        'e'
    } else {
        'f'
    }
}

/// The four lower-case hexadecimal digits of `n`, most significant first.
pub open spec fn hex4(n: u16) -> Seq<char> {
    seq![
        hex_digit_char((n / 0x1000) as nat),
        hex_digit_char(((n / 0x100) % 16) as nat),
        hex_digit_char(((n / 16) % 16) as nat),
        hex_digit_char((n % 16) as nat),
    ]
}

/// Appends the lower-case hexadecimal digit of `d` to `out`.
fn push_hex_digit(out: &mut String, d: u16)
    requires
        d < 16,
    ensures
        final(out)@ == old(out)@.push(hex_digit_char(d as nat)),
{
    if d < 10 {
        out.append(digit_str(d as u8));
    } else {
        proof {
            reveal_strlit("a");
            reveal_strlit("b");
            reveal_strlit("c");
            reveal_strlit("d");
            reveal_strlit("e");
            reveal_strlit("f");
        }
        let t = match d {
            10 => "a",
            11 => "b",
            12 => "c",
            13 => "d",
            14 => "e",
            _ => "f",
        };
        out.append(t);
    }
}

/// `n` as `0x` and four lower-case hexadecimal digits.
pub fn hex_u16(n: u16) -> (s: String)
    ensures
        s@ == "0x"@ + hex4(n),
{
    proof {
        reveal_strlit("0x");
    }
    let mut s = "0x".to_owned();
    push_hex_digit(&mut s, n / 0x1000);
    push_hex_digit(&mut s, (n / 0x100) % 16);
    push_hex_digit(&mut s, (n / 16) % 16);
    push_hex_digit(&mut s, n % 16);
    assert(s@ =~= "0x"@ + hex4(n));
    s
}

/// The decimal numeral of `n`, with a `-` when it is negative.
pub fn decimal_i32(n: i32) -> (s: String)
    ensures
        s@ == signed_decimal(n as int),
{
    let mut s = String::new();
    if n < 0 {
        s.append("-");
        proof {
            reveal_strlit("-");
        }
        let m: i64 = -(n as i64);
        push_decimal(&mut s, m as u64);
    } else {
        push_decimal(&mut s, n as u64);
    }
    s
}

/// The words of `s`, as `str::split_whitespace` gives them: its maximal runs of
/// characters other than whitespace, in order.
pub open spec fn words(s: Seq<char>) -> Seq<Seq<char>>
    decreases s.len(),
{
    if s.len() == 0 {
        Seq::empty()
    } else {
        let w = words(s.drop_last());
        let c = s.last();
        if is_white_space(c) {
            w
        } else if s.len() >= 2 && !is_white_space(s[s.len() - 2]) {
            w.drop_last().push(w.last().push(c))
        } else {
            w.push(seq![c])
        }
    }
}

/// The value of each text in `v`.
pub open spec fn strings_view(v: Seq<String>) -> Seq<Seq<char>> {
    v.map_values(|s: String| s@)
}

/// The words of `s`.
pub fn split_whitespace(s: &str) -> (r: Vec<String>)
    ensures
        strings_view(r@) == words(s@),
{
    let cs = chars_of(s);
    let n = cs.len();
    let mut r: Vec<String> = Vec::new();
    let mut in_word = false;
    let mut start: usize = 0;
    let mut i: usize = 0;
    while i < n
        invariant
            cs@ == s@,
            n == cs@.len(),
            i <= n,
            !in_word ==> words(s@.take(i as int)) == strings_view(r@),
            !in_word ==> (i == 0 || is_white_space(s@[i - 1])),
            in_word ==> start < i && words(s@.take(i as int)) == strings_view(r@).push(
                s@.subrange(start as int, i as int),
            ),
            in_word ==> !is_white_space(s@[i - 1]),
        decreases n - i,
    {
        let c = cs[i];
        let ws = char_is_white_space(c);
        assert(s@.take(i + 1).drop_last() =~= s@.take(i as int));
        let ghost prev = r@;
        if ws {
            if in_word {
                let w = s.substring_char(start, i).to_owned();
                r.push(w);
                assert(strings_view(r@) =~= strings_view(prev).push(s@.subrange(start as int, i as int)));
                in_word = false;
            }
        } else {
            if in_word {
                assert(s@.subrange(start as int, i + 1) =~= s@.subrange(start as int, i as int).push(c));
                assert(strings_view(r@).push(s@.subrange(start as int, i as int)).drop_last() =~= strings_view(r@));
            } else {
                start = i;
                assert(s@.subrange(start as int, i + 1) =~= seq![c]);
            }
            in_word = true;
        }
        i = i + 1;
    }
    assert(s@.take(n as int) =~= s@);
    if in_word {
        let ghost prev = r@;
        let w = s.substring_char(start, n).to_owned();
        r.push(w);
        assert(strings_view(r@) =~= strings_view(prev).push(s@.subrange(start as int, n as int)));
    }
    r
}

/// A line without the carriage return that ends it, if any.
pub open spec fn strip_cr(l: Seq<char>) -> Seq<char> {
    if l.len() > 0 && l.last() == '\r' {
        l.drop_last()
    } else {
        l
    }
}

/// The lines of `s` that a newline has ended (without their line ending), and
/// the text after the last newline.
pub open spec fn line_pieces(s: Seq<char>) -> (Seq<Seq<char>>, Seq<char>)
    decreases s.len(),
{
    if s.len() == 0 {
        (Seq::empty(), Seq::empty())
    } else {
        let (done, cur) = line_pieces(s.drop_last());
        if s.last() == '\n' {
            (done.push(strip_cr(cur)), Seq::empty())
        } else {
            (done, cur.push(s.last()))
        }
    }
}

/// The lines of `s`, as `str::lines` gives them: split at `\n` or `\r\n`, line
/// endings left out, and no empty line after a final line ending.
pub open spec fn lines(s: Seq<char>) -> Seq<Seq<char>> {
    let (done, cur) = line_pieces(s);
    if cur.len() > 0 {
        done.push(cur)
    } else {
        done
    }
}

/// The lines of `s`.
pub fn split_lines(s: &str) -> (r: Vec<String>)
    ensures
        strings_view(r@) == lines(s@),
{
    let cs = chars_of(s);
    let n = cs.len();
    let mut r: Vec<String> = Vec::new();
    let mut start: usize = 0;
    let mut i: usize = 0;
    assert(s@.subrange(0, 0) =~= Seq::<char>::empty());
    while i < n
        invariant
            cs@ == s@,
            n == cs@.len(),
            start <= i <= n,
            line_pieces(s@.take(i as int)) == (strings_view(r@), s@.subrange(start as int, i as int)),
        decreases n - i,
    {
        let c = cs[i];
        assert(s@.take(i + 1).drop_last() =~= s@.take(i as int));
        let ghost prev = r@;
        if c == '\n' {
            let ghost cur = s@.subrange(start as int, i as int);
            let end = if i > start && cs[i - 1] == '\r' {
                i - 1
            } else {
                i
            };
            assert(s@.subrange(start as int, end as int) =~= strip_cr(cur));
            let line = s.substring_char(start, end).to_owned();
            r.push(line);
            assert(strings_view(r@) =~= strings_view(prev).push(strip_cr(cur)));
            start = i + 1;
            assert(s@.subrange(start as int, i + 1) =~= Seq::<char>::empty());
        } else {
            assert(s@.subrange(start as int, i + 1) =~= s@.subrange(start as int, i as int).push(c));
        }
        i = i + 1;
    }
    assert(s@.take(n as int) =~= s@);
    if start < n {
        let ghost prev = r@;
        let line = s.substring_char(start, n).to_owned();
        r.push(line);
        assert(strings_view(r@) =~= strings_view(prev).push(s@.subrange(start as int, n as int)));
    }
    r
}

} // verus!
