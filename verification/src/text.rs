//! Text helpers: decimal numbers, searching, splitting and trimming.
//!
//! A text is modelled as the sequence of its characters, `Seq<char>`.

use vstd::prelude::*;
use vstd::utf8::{decode_utf8, valid_utf8};

verus! {

/// `String::push` adds one character at the end of the string.
pub assume_specification[ String::push ](s: &mut String, c: char)
    ensures
        final(s)@ == old(s)@.push(c),
;

/// What `String::from_utf8_lossy` makes of some bytes.
pub uninterp spec fn lossy_text(bytes: Seq<u8>) -> Seq<char>;

/// `std::str::from_utf8`: the text that the bytes encode, where they are valid UTF-8.
#[verifier::external_body]
pub(crate) fn utf8_text(bytes: &[u8]) -> (r: Option<&str>)
    ensures
        match r {
            Some(s) => valid_utf8(bytes@) && s@ == decode_utf8(bytes@),
            None => !valid_utf8(bytes@),
        },
{
    std::str::from_utf8(bytes).ok()
}

/// `String::from_utf8_lossy`: the text that the bytes encode, with a replacement character for
/// what is not valid UTF-8. Valid bytes give exactly their text.
#[verifier::external_body]
pub(crate) fn utf8_text_lossy(bytes: &[u8]) -> (r: String)
    ensures
        r@ == lossy_text(bytes@),
        valid_utf8(bytes@) ==> r@ == decode_utf8(bytes@),
{
    String::from_utf8_lossy(bytes).into_owned()
}

/// The characters of a string slice, in order.
pub fn chars_of(s: &str) -> (r: Vec<char>)
    ensures
        r@ == s@,
{
    let mut out: Vec<char> = Vec::new();
    for c in it: s.chars()
        invariant
            it.seq() == s@,
            out@ == it.seq().take(it.index()),
    {
        out.push(c);
    }
    out
}

/// The string made of the characters `from..to` of `chars`.
pub fn string_of(chars: &[char], from: usize, to: usize) -> (r: String)
    requires
        from <= to <= chars@.len(),
    ensures
        r@ == chars@.subrange(from as int, to as int),
{
    let mut out: String = String::new();
    let mut i: usize = from;
    while i < to
        invariant
            from <= i <= to <= chars@.len(),
            out@ == chars@.subrange(from as int, i as int),
        decreases to - i,
    {
        out.push(chars[i]);
        i += 1;
        assert(chars@.subrange(from as int, i as int) =~= chars@.subrange(
            from as int,
            i - 1,
        ).push(chars@[i - 1]));
    }
    out
}

/// The ASCII digit that stands for `d`.
pub open spec fn digit(d: nat) -> char {
    (48 + d) as char
}

/// The character is an ASCII digit.
pub open spec fn is_digit(c: char) -> bool {
    '0' <= c <= '9'
}

/// `n` written in base ten, without leading zeros.
pub open spec fn decimal(n: nat) -> Seq<char>
    decreases n,
{
    if n < 10 {
        seq![digit(n)]
    } else {
        decimal(n / 10).push(digit(n % 10))
    }
}

/// Every character is an ASCII digit.
pub open spec fn all_digits(s: Seq<char>) -> bool {
    forall|i: int| 0 <= i < s.len() ==> is_digit(#[trigger] s[i])
}

/// The number that a run of digits stands for.
pub open spec fn digits_value(s: Seq<char>) -> nat
    decreases s.len(),
{
    if s.len() == 0 {
        0
    } else {
        (digits_value(s.drop_last()) * 10 + (s.last() as nat - 48)) as nat
    }
}

/// Reads an unsigned number: an optional `+`, then digits only, and a value of at most `max`.
pub open spec fn parse_unsigned(s: Seq<char>, max: nat) -> Option<nat> {
    let d = if s.len() > 0 && s[0] == '+' {
        s.skip(1)
    } else {
        s
    };
    if d.len() > 0 && all_digits(d) && digits_value(d) <= max {
        Some(digits_value(d))
    } else {
        None
    }
}

/// `n` in base ten, with zeros in front up to `width` characters.
pub open spec fn padded_decimal(n: nat, width: nat) -> Seq<char> {
    let d = decimal(n);
    if d.len() >= width {
        d
    } else {
        Seq::new((width - d.len()) as nat, |i: int| '0') + d
    }
}

proof fn lemma_digit(d: nat)
    requires
        d < 10,
    ensures
        is_digit(digit(d)),
        digit(d) as nat == 48 + d,
{
}

/// Numbers read back as they were written: `parse_unsigned` undoes `decimal`.
pub proof fn lemma_decimal_reads_back(n: nat, max: nat)
    ensures
        decimal(n).len() > 0,
        all_digits(decimal(n)),
        digits_value(decimal(n)) == n,
        parse_unsigned(decimal(n), max) == (if n <= max {
            Some(n)
        } else {
            None
        }),
    decreases n,
{
    if n < 10 {
        lemma_digit(n);
        let s = decimal(n);
        assert(s.drop_last() =~= Seq::<char>::empty());
        assert(digits_value(s.drop_last()) == 0);
        assert(s.last() as nat == 48 + n);
    } else {
        lemma_decimal_reads_back(n / 10, max);
        lemma_digit(n % 10);
        let s = decimal(n);
        assert(s.drop_last() =~= decimal(n / 10));
        assert(s.last() as nat == 48 + n % 10);
        assert forall|i: int| 0 <= i < s.len() implies is_digit(#[trigger] s[i]) by {
            if i < s.len() - 1 {
                assert(s[i] == decimal(n / 10)[i]);
            }
        }
    }
    assert(is_digit(decimal(n)[0]));
}

/// Two different numbers are never written alike.
pub proof fn lemma_decimal_injective(a: nat, b: nat)
    requires
        decimal(a) == decimal(b),
    ensures
        a == b,
{
    lemma_decimal_reads_back(a, a);
    lemma_decimal_reads_back(b, b);
}

/// Writes `n` in base ten.
pub fn decimal_text(n: u128) -> (r: String)
    ensures
        r@ == decimal(n as nat),
{
    let mut digits: Vec<char> = Vec::new();
    let mut rest: u128 = n;
    while rest >= 10
        invariant
            decimal(n as nat) == decimal(rest as nat) + digits@.reverse(),
        decreases rest,
    {
        let d: u8 = (rest % 10) as u8;
        let c: char = (48 + d) as char;
        proof {
            let before = digits@;
            assert(decimal(rest as nat) == decimal(rest as nat / 10).push(digit(rest as nat % 10)));
            assert(before.push(c).reverse() =~= seq![c] + before.reverse());
            assert(decimal(rest as nat) + before.reverse() =~= decimal(rest as nat / 10)
                + before.push(c).reverse());
        }
        digits.push(c);
        rest = rest / 10;
    }
    let mut out: String = String::new();
    out.push((48 + rest as u8) as char);
    let mut i: usize = digits.len();
    assert(digits@.reverse().take(0) =~= Seq::<char>::empty());
    assert(out@ =~= decimal(rest as nat) + digits@.reverse().take(0));
    while i > 0
        invariant
            i <= digits@.len(),
            out@ == decimal(rest as nat) + digits@.reverse().take(digits@.len() - i),
            decimal(n as nat) == decimal(rest as nat) + digits@.reverse(),
        decreases i,
    {
        i -= 1;
        out.push(digits[i]);
        proof {
            let k = digits@.len() - i;
            assert(digits@.reverse().take(k) =~= digits@.reverse().take(k - 1).push(digits@[i as int]));
            assert(out@ =~= decimal(rest as nat) + digits@.reverse().take(k));
        }
    }
    assert(digits@.reverse().take(digits@.len() as int) =~= digits@.reverse());
    out
}

/// Writes `n` in base ten, with zeros in front up to four characters.
pub fn padded_decimal_text(n: u32) -> (r: String)
    ensures
        r@ == padded_decimal(n as nat, 4),
{
    let digits: Vec<char> = chars_of(decimal_text(n as u128).as_str());
    let mut out: String = String::new();
    let mut len: usize = digits.len();
    while len < 4
        invariant
            digits@ == decimal(n as nat),
            digits@.len() <= len,
            digits@.len() >= 4 ==> len == digits@.len(),
            digits@.len() < 4 ==> len <= 4,
            out@ == Seq::new((len - digits@.len()) as nat, |i: int| '0'),
        decreases 4 - len,
    {
        out.push('0');
        len += 1;
        assert(out@ =~= Seq::new((len - digits@.len()) as nat, |i: int| '0'));
    }
    let mut i: usize = 0;
    assert(digits@.take(0) =~= Seq::<char>::empty());
    assert(out@ =~= out@ + digits@.take(0));
    let ghost zeros = out@;
    while i < digits.len()
        invariant
            i <= digits@.len(),
            out@ == zeros + digits@.take(i as int),
        decreases digits@.len() - i,
    {
        out.push(digits[i]);
        i += 1;
        assert(digits@.take(i as int) =~= digits@.take(i - 1).push(digits@[i - 1]));
        assert(out@ =~= zeros + digits@.take(i as int));
    }
    assert(digits@.take(i as int) =~= digits@);
    assert(zeros.len() == 0 ==> zeros + digits@ =~= digits@);
    out
}

proof fn lemma_value_grows(s: Seq<char>, i: int)
    requires
        all_digits(s),
        0 <= i <= s.len(),
    ensures
        digits_value(s.take(i)) <= digits_value(s),
    decreases s.len(),
{
    if i == s.len() {
        assert(s.take(i) =~= s);
    } else {
        assert forall|k: int| 0 <= k < s.drop_last().len() implies is_digit(
            #[trigger] s.drop_last()[k],
        ) by {
            assert(is_digit(s[k]));
        }
        lemma_value_grows(s.drop_last(), i);
        assert(s.take(i) =~= s.drop_last().take(i));
        assert(is_digit(s.last()));
    }
}

/// Reads an unsigned number out of the characters `from..to`.
pub fn parse_number(chars: &[char], from: usize, to: usize, max: u64) -> (r: Option<u64>)
    requires
        from <= to <= chars@.len(),
    ensures
        match r {
            Some(v) => parse_unsigned(chars@.subrange(from as int, to as int), max as nat)
                == Some(v as nat),
            None => parse_unsigned(chars@.subrange(from as int, to as int), max as nat) is None,
        },
{
    let ghost s = chars@.subrange(from as int, to as int);
    let mut i: usize = from;
    if i < to && chars[i] == '+' {
        i += 1;
    }
    let ghost d = chars@.subrange(i as int, to as int);
    assert(d =~= if s.len() > 0 && s[0] == '+' {
        s.skip(1)
    } else {
        s
    });
    if i == to {
        return None;
    }
    let start: usize = i;
    let mut value: u64 = 0;
    assert(d.take(0) =~= Seq::<char>::empty());
    while i < to
        invariant
            from <= start <= i <= to <= chars@.len(),
            start < to,
            d == chars@.subrange(start as int, to as int),
            all_digits(d.take(i - start)),
            value as nat == digits_value(d.take(i - start)),
            value <= max,
            s == chars@.subrange(from as int, to as int),
            d == (if s.len() > 0 && s[0] == '+' {
                s.skip(1)
            } else {
                s
            }),
        decreases to - i,
    {
        let c: char = chars[i];
        assert(c == d[i - start]);
        if c < '0' || c > '9' {
            assert(!is_digit(d[i - start]));
            return None;
        }
        let next: u128 = (value as u128) * 10 + (c as u32 - 48) as u128;
        proof {
            let longer = d.take(i - start + 1);
            assert(longer.drop_last() =~= d.take(i - start));
            assert(longer.last() == c);
            assert(digits_value(longer) == next as nat);
            assert forall|k: int| 0 <= k < longer.len() implies is_digit(#[trigger] longer[k]) by {
                if k < i - start {
                    assert(longer[k] == d.take(i - start)[k]);
                }
            }
        }
        if next > max as u128 {
            proof {
                if all_digits(d) {
                    lemma_value_grows(d, i - start + 1);
                }
            }
            return None;
        }
        value = next as u64;
        i += 1;
    }
    assert(d.take(to - start) =~= d);
    Some(value)
}

/// The lower-case hexadecimal digit that stands for `d`.
pub open spec fn hex_digit(d: nat) -> char {
    if d < 10 {
        digit(d)
    } else {
        (87 + d) as char
    }
}

/// A byte as `0x` and two hexadecimal digits.
pub open spec fn hex_byte(b: u8) -> Seq<char> {
    seq!['0', 'x', hex_digit(b as nat / 16), hex_digit(b as nat % 16)]
}

fn hex_char(d: u8) -> (r: char)
    requires
        d < 16,
    ensures
        r == hex_digit(d as nat),
{
    if d < 10 {
        (48 + d) as char
    } else {
        (87 + d) as char
    }
}

/// Writes a byte as `0x` and two hexadecimal digits.
pub fn hex_byte_text(b: u8) -> (r: String)
    ensures
        r@ == hex_byte(b),
{
    let mut out: String = String::new();
    out.push('0');
    out.push('x');
    out.push(hex_char(b / 16));
    out.push(hex_char(b % 16));
    assert(out@ =~= hex_byte(b));
    out
}

/// `needle` stands in `hay` at position `at`.
pub open spec fn occurs_at<T>(hay: Seq<T>, needle: Seq<T>, at: int) -> bool {
    &&& 0 <= at
    &&& at + needle.len() <= hay.len()
    &&& hay.subrange(at, at + needle.len()) == needle
}

/// The first position from `from` on at which `needle` stands in `hay`.
pub open spec fn find<T>(hay: Seq<T>, needle: Seq<T>, from: int) -> Option<int>
    decreases hay.len() - from + 1,
{
    if from < 0 || from + needle.len() > hay.len() {
        None
    } else if occurs_at(hay, needle, from) {
        Some(from)
    } else {
        find(hay, needle, from + 1)
    }
}

/// What `find` reports is an occurrence, and there is none before it.
pub proof fn lemma_find<T>(hay: Seq<T>, needle: Seq<T>, from: int)
    requires
        0 <= from,
    ensures
        match find(hay, needle, from) {
            Some(i) => from <= i && occurs_at(hay, needle, i) && forall|j: int|
                from <= j < i ==> !#[trigger] occurs_at(hay, needle, j),
            None => forall|j: int| from <= j ==> !#[trigger] occurs_at(hay, needle, j),
        },
    decreases hay.len() - from + 1,
{
    if from + needle.len() <= hay.len() && !occurs_at(hay, needle, from) {
        lemma_find(hay, needle, from + 1);
    }
}

/// An occurrence with none before it is what `find` reports.
pub proof fn lemma_find_is_first<T>(hay: Seq<T>, needle: Seq<T>, from: int, i: int)
    requires
        0 <= from <= i,
        occurs_at(hay, needle, i),
        forall|j: int| from <= j < i ==> !#[trigger] occurs_at(hay, needle, j),
    ensures
        find(hay, needle, from) == Some(i),
{
    lemma_find(hay, needle, from);
}

/// Finds the first occurrence of `needle` in `hay` from `from` on.
pub fn find_chars(hay: &[char], needle: &[char], from: usize) -> (r: Option<usize>)
    ensures
        match r {
            Some(i) => find(hay@, needle@, from as int) == Some(i as int) && i + needle@.len()
                <= hay@.len(),
            None => find(hay@, needle@, from as int) is None,
        },
{
    let mut at: usize = from;
    while at <= hay.len() && needle.len() <= hay.len() - at
        invariant
            find(hay@, needle@, from as int) == find(hay@, needle@, at as int),
        decreases hay@.len() - at + 1,
    {
        let mut k: usize = 0;
        while k < needle.len() && hay[at + k] == needle[k]
            invariant
                at + needle@.len() <= hay@.len() <= usize::MAX,
                k <= needle@.len(),
                forall|j: int| 0 <= j < k ==> hay@[at + j] == needle@[j],
            decreases needle@.len() - k,
        {
            k += 1;
        }
        if k == needle.len() {
            assert(hay@.subrange(at as int, at + needle@.len()) =~= needle@);
            return Some(at);
        }
        assert(hay@.subrange(at as int, at + needle@.len())[k as int] != needle@[k as int]);
        if at == hay.len() {
            return None;
        }
        at += 1;
    }
    None
}

/// Finds the first occurrence of `needle` in `hay` from `from` on.
pub fn find_bytes(hay: &[u8], needle: &[u8], from: usize) -> (r: Option<usize>)
    ensures
        match r {
            Some(i) => find(hay@, needle@, from as int) == Some(i as int) && i + needle@.len()
                <= hay@.len(),
            None => find(hay@, needle@, from as int) is None,
        },
{
    let mut at: usize = from;
    while at <= hay.len() && needle.len() <= hay.len() - at
        invariant
            find(hay@, needle@, from as int) == find(hay@, needle@, at as int),
        decreases hay@.len() - at + 1,
    {
        let mut k: usize = 0;
        while k < needle.len() && hay[at + k] == needle[k]
            invariant
                at + needle@.len() <= hay@.len() <= usize::MAX,
                k <= needle@.len(),
                forall|j: int| 0 <= j < k ==> hay@[at + j] == needle@[j],
            decreases needle@.len() - k,
        {
            k += 1;
        }
        if k == needle.len() {
            assert(hay@.subrange(at as int, at + needle@.len()) =~= needle@);
            return Some(at);
        }
        assert(hay@.subrange(at as int, at + needle@.len())[k as int] != needle@[k as int]);
        if at == hay.len() {
            return None;
        }
        at += 1;
    }
    None
}

/// Strings as character sequences.
pub open spec fn words(v: Seq<String>) -> Seq<Seq<char>> {
    v.map_values(|s: String| s@)
}

/// The characters of each text of a list.
pub open spec fn texts(v: Seq<Vec<char>>) -> Seq<Seq<char>> {
    v.map_values(|x: Vec<char>| x@)
}

/// The pieces of `s` between the occurrences of `sep`. There is always at least one.
pub open spec fn split(s: Seq<char>, sep: Seq<char>) -> Seq<Seq<char>>
    decreases s.len(),
{
    match find(s, sep, 0) {
        Some(i) => if 0 <= i && 0 < sep.len() && i + sep.len() <= s.len() {
            seq![s.take(i)] + split(s.skip(i + sep.len()), sep)
        } else {
            seq![s]
        },
        None => seq![s],
    }
}

/// Splits a text at every occurrence of `sep`.
pub fn split_chars(s: &[char], sep: &[char]) -> (r: Vec<Vec<char>>)
    requires
        sep@.len() > 0,
    ensures
        texts(r@) == split(s@, sep@),
        r@.len() > 0,
{
    let mut out: Vec<Vec<char>> = Vec::new();
    let mut from: usize = 0;
    assert(s@.skip(0) =~= s@);
    assert(texts(out@) + split(s@, sep@) =~= split(s@, sep@));
    loop
        invariant_except_break
            split(s@, sep@) == texts(out@) + split(s@.skip(from as int), sep@),
        invariant
            from <= s@.len(),
            sep@.len() > 0,
        ensures
            texts(out@) == split(s@, sep@),
            out@.len() > 0,
        decreases s@.len() - from,
    {
        let rest: Vec<char> = copy_chars(s, from, s.len());
        let ghost before = texts(out@);
        match find_chars(rest.as_slice(), sep, 0) {
            Some(i) => {
                proof {
                    lemma_find(rest@, sep@, 0);
                }
                out.push(copy_chars(rest.as_slice(), 0, i));
                proof {
                    assert(rest@.subrange(0, i as int) =~= rest@.take(i as int));
                    assert(texts(out@) =~= before.push(rest@.take(i as int)));
                    assert(s@.skip(from + i + sep@.len()) =~= rest@.skip(i + sep@.len()));
                    assert(before + split(rest@, sep@) =~= texts(out@) + split(
                        rest@.skip(i + sep@.len()),
                        sep@,
                    ));
                }
                from = from + i + sep.len();
            },
            None => {
                out.push(rest);
                assert(texts(out@) =~= before + seq![rest@]);
                break;
            },
        }
    }
    out
}

/// A copy of the characters `from..to`.
pub fn copy_chars(chars: &[char], from: usize, to: usize) -> (r: Vec<char>)
    requires
        from <= to <= chars@.len(),
    ensures
        r@ == chars@.subrange(from as int, to as int),
{
    let mut out: Vec<char> = Vec::new();
    let mut i: usize = from;
    while i < to
        invariant
            from <= i <= to <= chars@.len(),
            out@ == chars@.subrange(from as int, i as int),
        decreases to - i,
    {
        out.push(chars[i]);
        i += 1;
        assert(chars@.subrange(from as int, i as int) =~= chars@.subrange(
            from as int,
            i - 1,
        ).push(chars@[i - 1]));
    }
    out
}

/// The lines of a text: each ends at a line feed, a carriage return before it is dropped, and
/// nothing after the last line feed is no line.
pub open spec fn lines(s: Seq<char>) -> Seq<Seq<char>>
    decreases s.len(),
{
    if s.len() == 0 {
        seq![]
    } else {
        match find(s, seq!['\n'], 0) {
            Some(i) => if 0 <= i < s.len() {
                seq![drop_return(s.take(i))] + lines(s.skip(i + 1))
            } else {
                seq![s]
            },
            None => seq![s],
        }
    }
}

/// The text without the carriage return at its end.
pub open spec fn drop_return(s: Seq<char>) -> Seq<char> {
    if s.len() > 0 && s.last() == '\r' {
        s.drop_last()
    } else {
        s
    }
}

/// Splits a text into its lines.
pub fn lines_of(s: &[char]) -> (r: Vec<Vec<char>>)
    ensures
        texts(r@) == lines(s@),
{
    let mut out: Vec<Vec<char>> = Vec::new();
    let mut from: usize = 0;
    assert(s@.skip(0) =~= s@);
    assert(texts(out@) + lines(s@) =~= lines(s@));
    let feed: Vec<char> = vec!['\n'];
    while from < s.len()
        invariant
            from <= s@.len(),
            feed@ == seq!['\n'],
            lines(s@) == texts(out@) + lines(s@.skip(from as int)),
        decreases s@.len() - from,
    {
        let rest: Vec<char> = copy_chars(s, from, s.len());
        let ghost before = texts(out@);
        match find_chars(rest.as_slice(), feed.as_slice(), 0) {
            Some(i) => {
                proof {
                    lemma_find(rest@, feed@, 0);
                }
                let end: usize = if i > 0 && rest[i - 1] == '\r' {
                    i - 1
                } else {
                    i
                };
                out.push(copy_chars(rest.as_slice(), 0, end));
                proof {
                    assert(rest@.subrange(0, end as int) =~= drop_return(rest@.take(i as int)));
                    assert(texts(out@) =~= before.push(drop_return(rest@.take(i as int))));
                    assert(s@.skip(from + i + 1) =~= rest@.skip(i + 1));
                    assert(before + lines(rest@) =~= texts(out@) + lines(rest@.skip(i + 1)));
                }
                from = from + i + 1;
            },
            None => {
                out.push(rest);
                proof {
                    assert(texts(out@) =~= before + seq![rest@]);
                    assert(s@.skip(s@.len() as int) =~= Seq::<char>::empty());
                    assert(texts(out@) + lines(Seq::<char>::empty()) =~= texts(out@));
                }
                from = s.len();
            },
        }
    }
    assert(s@.skip(from as int) =~= Seq::<char>::empty());
    assert(texts(out@) + lines(Seq::<char>::empty()) =~= texts(out@));
    out
}

/// The characters that Unicode counts as white space.
pub open spec fn white_space(c: char) -> bool {
    let u = c as u32;
    ||| 0x9 <= u <= 0xd
    ||| u == 0x20
    ||| u == 0x85
    ||| u == 0xa0
    ||| u == 0x1680
    ||| 0x2000 <= u <= 0x200a
    ||| u == 0x2028
    ||| u == 0x2029
    ||| u == 0x202f
    ||| u == 0x205f
    ||| u == 0x3000
}

/// Whether Unicode counts the character as white space.
pub fn is_white_space(c: char) -> (r: bool)
    ensures
        r == white_space(c),
{
    let u: u32 = c as u32;
    (0x9 <= u && u <= 0xd) || u == 0x20 || u == 0x85 || u == 0xa0 || u == 0x1680 || (0x2000 <= u
        && u <= 0x200a) || u == 0x2028 || u == 0x2029 || u == 0x202f || u == 0x205f || u == 0x3000
}

/// The first position from `i` on that holds no white space, or the end of the text.
pub open spec fn skip_white(s: Seq<char>, i: int) -> int
    decreases s.len() - i,
{
    if 0 <= i < s.len() && white_space(s[i]) {
        skip_white(s, i + 1)
    } else {
        i
    }
}

/// The first position from `i` on that holds white space, or the end of the text.
pub open spec fn word_end(s: Seq<char>, i: int) -> int
    decreases s.len() - i,
{
    if 0 <= i < s.len() && !white_space(s[i]) {
        word_end(s, i + 1)
    } else {
        i
    }
}

/// The last position up to `j` before which no white space stands, or zero.
pub open spec fn back_white(s: Seq<char>, j: int) -> int
    decreases j,
{
    if 0 < j <= s.len() && white_space(s[j - 1]) {
        back_white(s, j - 1)
    } else {
        j
    }
}

/// Finds the first position from `i` on that holds no white space.
pub fn skip_white_from(s: &[char], i: usize) -> (r: usize)
    requires
        i <= s@.len(),
    ensures
        r as int == skip_white(s@, i as int),
        i <= r <= s@.len(),
{
    let mut at: usize = i;
    while at < s.len() && is_white_space(s[at])
        invariant
            i <= at <= s@.len(),
            skip_white(s@, i as int) == skip_white(s@, at as int),
        decreases s@.len() - at,
    {
        at += 1;
    }
    at
}

/// Finds the first position from `i` on that holds white space.
pub fn word_end_from(s: &[char], i: usize) -> (r: usize)
    requires
        i <= s@.len(),
    ensures
        r as int == word_end(s@, i as int),
        i <= r <= s@.len(),
{
    let mut at: usize = i;
    while at < s.len() && !is_white_space(s[at])
        invariant
            i <= at <= s@.len(),
            word_end(s@, i as int) == word_end(s@, at as int),
        decreases s@.len() - at,
    {
        at += 1;
    }
    at
}

/// The text without the white space at its two ends.
pub open spec fn trim(s: Seq<char>) -> Seq<char> {
    let from = skip_white(s, 0);
    let to = back_white(s, s.len() as int);
    if from < to {
        s.subrange(from, to)
    } else {
        seq![]
    }
}

/// A copy of the text without the white space at its two ends.
pub fn trim_chars(s: &[char]) -> (r: Vec<char>)
    ensures
        r@ == trim(s@),
{
    let from: usize = skip_white_from(s, 0);
    let mut to: usize = s.len();
    while to > 0 && is_white_space(s[to - 1])
        invariant
            to <= s@.len(),
            back_white(s@, s@.len() as int) == back_white(s@, to as int),
        decreases to,
    {
        to -= 1;
    }
    if from < to {
        copy_chars(s, from, to)
    } else {
        Vec::new()
    }
}

/// `A` to `Z` become `a` to `z`, every other character stays.
pub open spec fn ascii_lower(c: char) -> char {
    if 'A' <= c <= 'Z' {
        (c as u32 + 32) as char
    } else {
        c
    }
}

/// The text with its ASCII letters in lower case.
pub open spec fn lower_text(s: Seq<char>) -> Seq<char> {
    s.map_values(|c: char| ascii_lower(c))
}

/// Turns an ASCII letter into lower case.
pub fn lower_char(c: char) -> (r: char)
    ensures
        r == ascii_lower(c),
{
    if 'A' <= c && c <= 'Z' {
        (c as u8 + 32) as char
    } else {
        c
    }
}

/// A copy of the text with its ASCII letters in lower case.
pub fn lower_chars(s: &[char]) -> (r: Vec<char>)
    ensures
        r@ == lower_text(s@),
{
    let mut out: Vec<char> = Vec::new();
    let mut i: usize = 0;
    while i < s.len()
        invariant
            i <= s@.len(),
            out@ == lower_text(s@.take(i as int)),
        decreases s@.len() - i,
    {
        out.push(lower_char(s[i]));
        i += 1;
        assert(out@ =~= lower_text(s@.take(i as int)));
    }
    assert(s@.take(i as int) =~= s@);
    out
}

/// Whether two texts hold the same characters.
pub fn same_chars(a: &[char], b: &[char]) -> (r: bool)
    ensures
        r == (a@ == b@),
{
    if a.len() != b.len() {
        return false;
    }
    let mut i: usize = 0;
    while i < a.len()
        invariant
            a@.len() == b@.len(),
            i <= a@.len(),
            a@.take(i as int) == b@.take(i as int),
        decreases a@.len() - i,
    {
        if a[i] != b[i] {
            return false;
        }
        i += 1;
        assert(a@.take(i as int) =~= a@.take(i - 1).push(a@[i - 1]));
        assert(b@.take(i as int) =~= b@.take(i - 1).push(b@[i - 1]));
    }
    assert(a@.take(i as int) =~= a@);
    assert(b@.take(i as int) =~= b@);
    true
}

/// Whether two texts are equal when the ASCII letters' case is left aside.
pub fn same_ignoring_case(a: &str, b: &str) -> (r: bool)
    ensures
        r == (lower_text(a@) == lower_text(b@)),
{
    let x: Vec<char> = lower_chars(chars_of(a).as_slice());
    let y: Vec<char> = lower_chars(chars_of(b).as_slice());
    same_chars(x.as_slice(), y.as_slice())
}

/// The number that a run of digits spells in base ten.
pub open spec fn spelled(digits: Seq<char>) -> int {
    digits.fold_left(0int, |value: int, c: char| 10 * value + (c as int - 48))
}

/// The text is a run of ASCII digits.
pub open spec fn is_digit_run(s: Seq<char>) -> bool {
    &&& s.len() > 0
    &&& forall|i: int| 0 <= i < s.len() ==> 48 <= (#[trigger] s[i]) as int <= 57
}

proof fn lemma_spelled(s: Seq<char>)
    requires
        all_digits(s),
    ensures
        spelled(s) == digits_value(s),
    decreases s.len(),
{
    let f = |value: int, c: char| 10 * value + (c as int - 48);
    if s.len() > 0 {
        let front = s.drop_last();
        assert forall|i: int| 0 <= i < front.len() implies is_digit(#[trigger] front[i]) by {
            assert(is_digit(s[i]));
        }
        lemma_spelled(front);
        assert(is_digit(s[s.len() - 1]));
        assert(s.fold_left(0int, f) == f(front.fold_left(0int, f), s.last()));
    }
}

/// A number is written in base ten: digits only, no zero in front of another digit, and the digits
/// spell the number. That leaves one text only.
pub proof fn law_numbers_are_written_in_base_ten(n: nat)
    ensures
        is_digit_run(decimal(n)),
        decimal(n).len() > 1 ==> decimal(n)[0] != '0',
        spelled(decimal(n)) == n,
    decreases n,
{
    lemma_decimal_reads_back(n, n);
    lemma_spelled(decimal(n));
    assert forall|i: int| 0 <= i < decimal(n).len() implies 48 <= (#[trigger] decimal(n)[i]) as int
        <= 57 by {
        assert(is_digit(decimal(n)[i]));
    }
    if n >= 10 {
        law_numbers_are_written_in_base_ten(n / 10);
        assert(decimal(n)[0] == decimal(n / 10)[0]);
        if n / 10 < 10 {
            lemma_digit(n / 10);
            assert(decimal(n / 10)[0] == digit(n / 10));
        } else {
            lemma_decimal_reads_back(n / 10 / 10, n);
            assert(decimal(n / 10).len() > 1);
        }
    }
}

/// A number is read from digits, with or without a plus sign before them, and from nothing else,
/// and only up to the largest that is asked for.
pub proof fn law_numbers_are_read_in_base_ten(s: Seq<char>, max: nat)
    ensures
        ({
            let digits = if s.len() > 0 && s[0] == '+' {
                s.skip(1)
            } else {
                s
            };
            &&& parse_unsigned(s, max) matches Some(n) ==> is_digit_run(digits) && n == spelled(
                digits,
            ) && n <= max
            &&& is_digit_run(digits) && spelled(digits) <= max ==> parse_unsigned(s, max) is Some
        }),
{
    let digits = if s.len() > 0 && s[0] == '+' {
        s.skip(1)
    } else {
        s
    };
    if is_digit_run(digits) {
        assert forall|i: int| 0 <= i < digits.len() implies is_digit(#[trigger] digits[i]) by {
            assert(48 <= digits[i] as int <= 57);
        }
    }
    if all_digits(digits) {
        lemma_spelled(digits);
        if digits.len() > 0 {
            assert forall|i: int| 0 <= i < digits.len() implies 48 <= (#[trigger] digits[i]) as int
                <= 57 by {
                assert(is_digit(digits[i]));
            }
        }
    }
}

/// Zeros in front do not change the number that digits spell.
proof fn lemma_spelled_behind_zeros(zeros: nat, s: Seq<char>)
    ensures
        spelled(Seq::new(zeros, |i: int| '0') + s) == spelled(s),
    decreases s.len(), zeros,
{
    let f = |value: int, c: char| 10 * value + (c as int - 48);
    let z = Seq::new(zeros, |i: int| '0');
    if s.len() > 0 {
        lemma_spelled_behind_zeros(zeros, s.drop_last());
        assert((z + s).drop_last() =~= z + s.drop_last());
        assert((z + s).fold_left(0int, f) == f((z + s).drop_last().fold_left(0int, f), s.last()));
        assert(s.fold_left(0int, f) == f(s.drop_last().fold_left(0int, f), s.last()));
    } else if zeros > 0 {
        let shorter = Seq::new((zeros - 1) as nat, |i: int| '0');
        lemma_spelled_behind_zeros((zeros - 1) as nat, s);
        assert((z + s).drop_last() =~= shorter + s);
        assert((z + s).last() == '0');
        assert((z + s).fold_left(0int, f) == f((z + s).drop_last().fold_left(0int, f), '0'));
    } else {
        assert(z + s =~= s);
    }
}

/// A padded number has at least the width that is asked for, zeros stand in front only where that
/// takes them, and its digits spell the number.
pub proof fn law_padding_is_zeros_in_front(n: nat, width: nat)
    ensures
        padded_decimal(n, width).len() >= width,
        padded_decimal(n, width).len() > width && width >= 1 ==> padded_decimal(n, width)[0] != '0',
        spelled(padded_decimal(n, width)) == n,
        forall|i: int|
            0 <= i < padded_decimal(n, width).len() ==> 48 <= (#[trigger] padded_decimal(
                n,
                width,
            )[i]) as int <= 57,
{
    law_numbers_are_written_in_base_ten(n);
    let d = decimal(n);
    if d.len() < width {
        lemma_spelled_behind_zeros((width - d.len()) as nat, d);
    }
}

/// A byte is written as `0x` and its two hexadecimal digits, the high one first.
pub proof fn law_bytes_are_written_in_hexadecimal(b: u8)
    ensures
        hex_byte(b).len() == 4,
        hex_byte(b)[0] == '0',
        hex_byte(b)[1] == 'x',
        hex_byte(b)[2] == "0123456789abcdef"@[b as int / 16],
        hex_byte(b)[3] == "0123456789abcdef"@[b as int % 16],
{
    reveal_strlit("0123456789abcdef");
    let t = "0123456789abcdef"@;
    assert(t[0] == '0' && t[1] == '1' && t[2] == '2' && t[3] == '3' && t[4] == '4' && t[5] == '5'
        && t[6] == '6' && t[7] == '7' && t[8] == '8' && t[9] == '9' && t[10] == 'a' && t[11] == 'b'
        && t[12] == 'c' && t[13] == 'd' && t[14] == 'e' && t[15] == 'f');
}

/// A search finds an occurrence, it finds the first one, and it finds one wherever there is one.
pub proof fn law_search_finds_the_first<T>(hay: Seq<T>, needle: Seq<T>, from: int, at: int)
    requires
        0 <= from <= at,
    ensures
        find(hay, needle, from) matches Some(i) ==> {
            &&& from <= i
            &&& i + needle.len() <= hay.len()
            &&& forall|k: int| 0 <= k < needle.len() ==> hay[i + k] == #[trigger] needle[k]
        },
        at + needle.len() <= hay.len() && (forall|k: int|
            0 <= k < needle.len() ==> hay[at + k] == #[trigger] needle[k]) ==> (find(
            hay,
            needle,
            from,
        ) matches Some(i) && i <= at),
{
    lemma_find(hay, needle, from);
    if let Some(i) = find(hay, needle, from) {
        assert forall|k: int| 0 <= k < needle.len() implies hay[i + k] == #[trigger] needle[k] by {
            assert(hay.subrange(i, i + needle.len())[k] == hay[i + k]);
        }
    }
    if at + needle.len() <= hay.len() && (forall|k: int|
        0 <= k < needle.len() ==> hay[at + k] == #[trigger] needle[k]) {
        assert(hay.subrange(at, at + needle.len()) =~= needle);
        assert(occurs_at(hay, needle, at));
    }
}

/// A text is split at the first separator, and what is behind it is split in turn. A text without
/// one is left whole.
pub proof fn law_split_at_every_separator(front: Seq<char>, sep: Seq<char>, rest: Seq<char>)
    requires
        sep.len() > 0,
    ensures
        (forall|i: int|
            0 <= i < front.len() ==> #[trigger] (front + sep).subrange(i, i + sep.len()) != sep)
            ==> split(front + sep + rest, sep) == seq![front] + split(rest, sep),
        (forall|i: int|
            0 <= i && i + sep.len() <= front.len() ==> #[trigger] front.subrange(i, i + sep.len())
                != sep) ==> split(front, sep) == seq![front],
{
    let all = front + sep + rest;
    if forall|i: int|
        0 <= i < front.len() ==> #[trigger] (front + sep).subrange(i, i + sep.len()) != sep {
        assert(all.subrange(front.len() as int, (front.len() + sep.len()) as int) =~= sep);
        assert forall|j: int| 0 <= j < front.len() implies !#[trigger] occurs_at(all, sep, j) by {
            assert(all.subrange(j, j + sep.len()) =~= (front + sep).subrange(j, j + sep.len()));
        }
        lemma_find_is_first(all, sep, 0, front.len() as int);
        assert(all.take(front.len() as int) =~= front);
        assert(all.skip((front.len() + sep.len()) as int) =~= rest);
    }
    if forall|i: int|
        0 <= i && i + sep.len() <= front.len() ==> #[trigger] front.subrange(i, i + sep.len())
            != sep {
        lemma_find(front, sep, 0);
        if let Some(i) = find(front, sep, 0) {
            assert(front.subrange(i, i + sep.len()) != sep);
        }
    }
}

/// Every line feed ends a line, a carriage return right before it goes with it, and what is left
/// behind the last one is a line too unless it is empty.
pub proof fn law_lines_end_at_line_feeds(front: Seq<char>, rest: Seq<char>)
    requires
        !front.contains('\n'),
    ensures
        lines(Seq::<char>::empty()) == Seq::<Seq<char>>::empty(),
        front.len() > 0 ==> lines(front) == seq![front],
        lines(front + seq!['\n'] + rest) == seq![
            if front.len() > 0 && front[front.len() - 1] == '\r' {
                front.take(front.len() - 1)
            } else {
                front
            },
        ] + lines(rest),
{
    let feed = seq!['\n'];
    let all = front + feed + rest;
    lemma_find(front, feed, 0);
    if let Some(i) = find(front, feed, 0) {
        assert(front.subrange(i, i + 1)[0] == front[i]);
        assert(front.contains(front[i]));
    }
    assert(all.subrange(front.len() as int, front.len() as int + 1) =~= feed);
    assert forall|j: int| 0 <= j < front.len() implies !#[trigger] occurs_at(all, feed, j) by {
        if occurs_at(all, feed, j) {
            assert(all.subrange(j, j + 1)[0] == all[j]);
            assert(front.contains(front[j]));
        }
    }
    lemma_find_is_first(all, feed, 0, front.len() as int);
    assert(all.take(front.len() as int) =~= front);
    assert(all.skip(front.len() as int + 1) =~= rest);
    if front.len() > 0 {
        assert(front.drop_last() =~= front.take(front.len() - 1));
    }
}

/// These are the characters that count as white space.
pub proof fn law_white_space_characters(c: char)
    ensures
        white_space(c) <==> seq![
            '\u{9}',
            '\u{a}',
            '\u{b}',
            '\u{c}',
            '\u{d}',
            '\u{20}',
            '\u{85}',
            '\u{a0}',
            '\u{1680}',
            '\u{2000}',
            '\u{2001}',
            '\u{2002}',
            '\u{2003}',
            '\u{2004}',
            '\u{2005}',
            '\u{2006}',
            '\u{2007}',
            '\u{2008}',
            '\u{2009}',
            '\u{200a}',
            '\u{2028}',
            '\u{2029}',
            '\u{202f}',
            '\u{205f}',
            '\u{3000}',
        ].contains(c),
{
    let all = seq![
        '\u{9}',
        '\u{a}',
        '\u{b}',
        '\u{c}',
        '\u{d}',
        '\u{20}',
        '\u{85}',
        '\u{a0}',
        '\u{1680}',
        '\u{2000}',
        '\u{2001}',
        '\u{2002}',
        '\u{2003}',
        '\u{2004}',
        '\u{2005}',
        '\u{2006}',
        '\u{2007}',
        '\u{2008}',
        '\u{2009}',
        '\u{200a}',
        '\u{2028}',
        '\u{2029}',
        '\u{202f}',
        '\u{205f}',
        '\u{3000}',
    ];
    if white_space(c) {
        let u = c as int;
        let i = if u <= 0xd {
            u - 9
        } else if u == 0x20 {
            5
        } else if u == 0x85 {
            6
        } else if u == 0xa0 {
            7
        } else if u == 0x1680 {
            8
        } else if u <= 0x200a {
            9 + (u - 0x2000)
        } else if u == 0x2028 {
            20
        } else if u == 0x2029 {
            21
        } else if u == 0x202f {
            22
        } else if u == 0x205f {
            23
        } else {
            24int
        };
        assert(all[i] == c);
    }
}

/// White space is passed over up to the first other character, and a word up to the first white
/// space.
pub proof fn law_words_end_at_white_space(s: Seq<char>, i: int)
    requires
        0 <= i <= s.len(),
    ensures
        i <= skip_white(s, i) <= s.len(),
        forall|j: int| i <= j < skip_white(s, i) ==> white_space(#[trigger] s[j]),
        skip_white(s, i) < s.len() ==> !white_space(s[skip_white(s, i)]),
        i <= word_end(s, i) <= s.len(),
        forall|j: int| i <= j < word_end(s, i) ==> !white_space(#[trigger] s[j]),
        word_end(s, i) < s.len() ==> white_space(s[word_end(s, i)]),
    decreases s.len() - i,
{
    if i < s.len() {
        law_words_end_at_white_space(s, i + 1);
    }
}

proof fn lemma_back_white(s: Seq<char>, j: int)
    requires
        0 <= j <= s.len(),
    ensures
        0 <= back_white(s, j) <= j,
        forall|k: int| back_white(s, j) <= k < j ==> white_space(#[trigger] s[k]),
        back_white(s, j) > 0 ==> !white_space(s[back_white(s, j) - 1]),
    decreases j,
{
    if j > 0 {
        lemma_back_white(s, j - 1);
    }
}

/// Trimming takes white space off both ends, takes nothing else, and leaves none there.
pub proof fn law_trimming_takes_white_space_only(
    before: Seq<char>,
    middle: Seq<char>,
    after: Seq<char>,
)
    requires
        forall|i: int| 0 <= i < before.len() ==> white_space(#[trigger] before[i]),
        forall|i: int| 0 <= i < after.len() ==> white_space(#[trigger] after[i]),
        middle.len() > 0 ==> !white_space(middle[0]) && !white_space(middle[middle.len() - 1]),
    ensures
        trim(before + middle + after) == middle,
{
    let s = before + middle + after;
    let from = skip_white(s, 0);
    let to = back_white(s, s.len() as int);
    law_words_end_at_white_space(s, 0);
    lemma_back_white(s, s.len() as int);
    let b = before.len() as int;
    let e = b + middle.len();
    assert forall|i: int| 0 <= i < b implies white_space(#[trigger] s[i]) by {
        assert(s[i] == before[i]);
    }
    assert forall|i: int| e <= i < s.len() implies white_space(#[trigger] s[i]) by {
        assert(s[i] == after[i - e]);
    }
    if middle.len() > 0 {
        assert(s[b] == middle[0]);
        assert(s[e - 1] == middle[middle.len() - 1]);
        assert(from == b);
        assert(to == e);
        assert(s.subrange(b, e) =~= middle);
    } else {
        if from < s.len() {
            assert(white_space(s[from]));
        }
        assert(middle =~= Seq::<char>::empty());
    }
}

/// Lower case changes the 26 capital ASCII letters and no other character, each to its small one.
pub proof fn law_lower_case_is_ascii_only(s: Seq<char>, i: int)
    requires
        0 <= i < s.len(),
    ensures
        lower_text(s).len() == s.len(),
        65 <= s[i] as int <= 90 ==> lower_text(s)[i] as int == s[i] as int + 32,
        !(65 <= s[i] as int <= 90) ==> lower_text(s)[i] == s[i],
{
}

/// What is written for a number are its digits in base ten, four of them at least where it is
/// padded, and what is written for a byte are its two hexadecimal digits behind `0x`.
pub proof fn law_written_numbers_spell_them(
    n: u128,
    k: u32,
    b: u8,
    plain: String,
    padded: String,
    hex: String,
)
    requires
        call_ensures(decimal_text, (n,), plain),
        call_ensures(padded_decimal_text, (k,), padded),
        call_ensures(hex_byte_text, (b,), hex),
    ensures
        is_digit_run(plain@),
        spelled(plain@) == n,
        plain@.len() > 1 ==> plain@[0] != '0',
        is_digit_run(padded@),
        spelled(padded@) == k,
        padded@.len() >= 4,
        padded@.len() > 4 ==> padded@[0] != '0',
        hex@.len() == 4,
        hex@[0] == '0' && hex@[1] == 'x',
        hex@[2] == "0123456789abcdef"@[b as int / 16],
        hex@[3] == "0123456789abcdef"@[b as int % 16],
{
    law_numbers_are_written_in_base_ten(n as nat);
    law_padding_is_zeros_in_front(k as nat, 4);
    law_bytes_are_written_in_hexadecimal(b);
    assert forall|i: int| 0 <= i < padded@.len() implies 48 <= (#[trigger] padded@[i]) as int
        <= 57 by {
        assert(padded@[i] == padded_decimal(k as nat, 4)[i]);
    }
}

/// A number is read from a part of a text where that part is a run of digits, with or without a
/// plus sign, and spells no more than the largest that is asked for.
pub proof fn law_read_numbers_are_spelled(
    chars: &[char],
    from: usize,
    to: usize,
    max: u64,
    r: Option<u64>,
)
    requires
        call_ensures(parse_number, (chars, from, to, max), r),
        from <= to <= chars@.len(),
    ensures
        ({
            let part = chars@.subrange(from as int, to as int);
            let digits = if part.len() > 0 && part[0] == '+' {
                part.skip(1)
            } else {
                part
            };
            &&& r is Some <==> is_digit_run(digits) && spelled(digits) <= max
            &&& r matches Some(n) ==> n == spelled(digits)
        }),
{
    law_numbers_are_read_in_base_ten(chars@.subrange(from as int, to as int), max as nat);
}

/// Characters and bytes are searched alike: what is found is an occurrence, no earlier one stands
/// from where the search began, and nothing is found only where there is none.
pub proof fn law_searches_find_the_first(
    chars: &[char],
    word: &[char],
    bytes: &[u8],
    mark: &[u8],
    from: usize,
    at: int,
    r: Option<usize>,
    q: Option<usize>,
)
    requires
        call_ensures(find_chars, (chars, word, from), r),
        call_ensures(find_bytes, (bytes, mark, from), q),
        from <= at,
    ensures
        r matches Some(i) ==> from <= i && i + word@.len() <= chars@.len() && chars@.subrange(
            i as int,
            i + word@.len(),
        ) == word@,
        at + word@.len() <= chars@.len() && chars@.subrange(at, at + word@.len()) == word@ ==> (
        r matches Some(i) && i <= at),
        q matches Some(i) ==> from <= i && i + mark@.len() <= bytes@.len() && bytes@.subrange(
            i as int,
            i + mark@.len(),
        ) == mark@,
        at + mark@.len() <= bytes@.len() && bytes@.subrange(at, at + mark@.len()) == mark@ ==> (
        q matches Some(i) && i <= at),
{
    lemma_find(chars@, word@, from as int);
    lemma_find(bytes@, mark@, from as int);
    if at + word@.len() <= chars@.len() && chars@.subrange(at, at + word@.len()) == word@ {
        assert(occurs_at(chars@, word@, at));
    }
    if at + mark@.len() <= bytes@.len() && bytes@.subrange(at, at + mark@.len()) == mark@ {
        assert(occurs_at(bytes@, mark@, at));
    }
}

/// A text is taken apart into its characters, and a part of it is made of the characters that
/// stand there.
pub proof fn law_parts_of_a_text(
    s: &str,
    chars: &[char],
    from: usize,
    to: usize,
    taken: Vec<char>,
    part: String,
    copy: Vec<char>,
)
    requires
        call_ensures(chars_of, (s,), taken),
        call_ensures(string_of, (chars, from, to), part),
        call_ensures(copy_chars, (chars, from, to), copy),
        from <= to <= chars@.len(),
    ensures
        taken@ == s@,
        part@ == chars@.subrange(from as int, to as int),
        copy@ == chars@.subrange(from as int, to as int),
{
}

/// Splitting gives the pieces between separators, and lines are those that line feeds end.
pub proof fn law_pieces_of_a_text(
    s: &[char],
    sep: &[char],
    i: int,
    pieces: Vec<Vec<char>>,
    text_lines: Vec<Vec<char>>,
)
    requires
        call_ensures(split_chars, (s, sep), pieces),
        call_ensures(lines_of, (s,), text_lines),
        sep@.len() > 0,
    ensures
        pieces@.len() == split(s@, sep@).len(),
        0 <= i < pieces@.len() ==> pieces@[i]@ == split(s@, sep@)[i],
        text_lines@.len() == lines(s@).len(),
        0 <= i < text_lines@.len() ==> text_lines@[i]@ == lines(s@)[i],
{
    if 0 <= i < pieces@.len() {
        assert(texts(pieces@)[i] == pieces@[i]@);
    }
    if 0 <= i < text_lines@.len() {
        assert(texts(text_lines@)[i] == text_lines@[i]@);
    }
}

/// White space ends words and is passed over and trimmed, wherever a word or the search begins.
pub proof fn law_words_are_found(
    s: &[char],
    i: usize,
    c: char,
    begin: usize,
    end: usize,
    trimmed: Vec<char>,
    white: bool,
)
    requires
        call_ensures(skip_white_from, (s, i), begin),
        call_ensures(word_end_from, (s, i), end),
        call_ensures(trim_chars, (s,), trimmed),
        call_ensures(is_white_space, (c,), white),
        i <= s@.len(),
    ensures
        i <= begin <= s@.len(),
        forall|j: int| i <= j < begin ==> white_space(#[trigger] s@[j]),
        begin < s@.len() ==> !white_space(s@[begin as int]),
        i <= end <= s@.len(),
        forall|j: int| i <= j < end ==> !white_space(#[trigger] s@[j]),
        end < s@.len() ==> white_space(s@[end as int]),
        trimmed@ == trim(s@),
        white == white_space(c),
{
    law_words_end_at_white_space(s@, i as int);
}

/// Two texts are the same where they have the same characters, and the same but for case where
/// their lower case forms are; only the capital letters `A` to `Z` have another lower case form.
pub proof fn law_texts_are_compared_by_character(
    a: &[char],
    b: &[char],
    s: &str,
    t: &str,
    i: int,
    same: bool,
    alike: bool,
    lower: Vec<char>,
    one: char,
)
    requires
        call_ensures(same_chars, (a, b), same),
        call_ensures(same_ignoring_case, (s, t), alike),
        call_ensures(lower_chars, (a,), lower),
        0 <= i < a@.len(),
        call_ensures(lower_char, (a@[i],), one),
    ensures
        same <==> a@ == b@,
        alike <==> lower_text(s@) == lower_text(t@),
        lower@.len() == a@.len(),
        lower@[i] == one,
        65 <= a@[i] as int <= 90 ==> one as int == a@[i] as int + 32,
        !(65 <= a@[i] as int <= 90) ==> one == a@[i],
{
    law_lower_case_is_ascii_only(a@, i);
}

} // verus!
