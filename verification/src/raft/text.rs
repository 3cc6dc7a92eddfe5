//! Decimal numbers and separator-split fields, as the configuration and the
//! connection handshake write them.
use vstd::prelude::*;
use vstd::string::*;

verus! {

/// Why a decimal field was refused; the same three kinds that std's
/// `ParseIntError::kind` reports for unsigned targets.
#[derive(Clone, Copy, Debug, PartialEq, Eq)]
pub enum IntErrorKind {
    /// The field is empty.
    Empty,
    /// The field holds a character that is not a decimal digit.
    InvalidDigit,
    /// The number is larger than the target type holds.
    PosOverflow,
}

pub open spec fn is_digit(c: char) -> bool {
    '0' <= c && c <= '9'
}

pub open spec fn digit_value(c: char) -> nat {
    (c as int - '0' as int) as nat
}

/// Reads the digits `d` from the left onto the running value `acc`; the
/// first character that is not a digit, or the first digit that takes the
/// value past `max`, decides the error.
pub open spec fn scan_digits(acc: nat, d: Seq<char>, max: nat) -> Result<nat, IntErrorKind>
    decreases d.len(),
{
    if d.len() == 0 {
        Ok(acc)
    } else if !is_digit(d[0]) {
        Err(IntErrorKind::InvalidDigit)
    } else if acc * 10 + digit_value(d[0]) > max {
        Err(IntErrorKind::PosOverflow)
    } else {
        scan_digits(acc * 10 + digit_value(d[0]), d.drop_first(), max)
    }
}

/// The unsigned number that `s` spells in decimal, at most `max`: an
/// optional leading `+`, then digits.
pub open spec fn spec_parse_unsigned(s: Seq<char>, max: nat) -> Result<nat, IntErrorKind> {
    if s.len() == 0 {
        Err(IntErrorKind::Empty)
    } else if s.len() == 1 && (s[0] == '+' || s[0] == '-') {
        Err(IntErrorKind::InvalidDigit)
    } else if s[0] == '+' {
        scan_digits(0, s.drop_first(), max)
    } else {
        scan_digits(0, s, max)
    }
}

pub open spec fn spec_parse_u8(s: Seq<char>) -> Result<u8, IntErrorKind> {
    match spec_parse_unsigned(s, 0xff) {
        Ok(n) => Ok(n as u8),
        Err(e) => Err(e),
    }
}

pub open spec fn spec_parse_u16(s: Seq<char>) -> Result<u16, IntErrorKind> {
    match spec_parse_unsigned(s, 0xffff) {
        Ok(n) => Ok(n as u16),
        Err(e) => Err(e),
    }
}

proof fn lemma_scan_bounded(acc: nat, d: Seq<char>, max: nat)
    requires
        acc <= max,
    ensures
        scan_digits(acc, d, max) matches Ok(n) ==> n <= max,
    decreases d.len(),
{
    if d.len() > 0 && is_digit(d[0]) && acc * 10 + digit_value(d[0]) <= max {
        lemma_scan_bounded(acc * 10 + digit_value(d[0]), d.drop_first(), max);
    }
}

/// Reads an unsigned decimal number of at most `max` from `s`.
fn parse_unsigned(s: &Vec<char>, max: u32) -> (r: Result<u32, IntErrorKind>)
    requires
        max <= 0xffff,
    ensures
        match spec_parse_unsigned(s@, max as nat) {
            Ok(n) => r == Ok::<u32, IntErrorKind>(n as u32),
            Err(e) => r == Err::<u32, IntErrorKind>(e),
        },
{
    let len = s.len();
    if len == 0 {
        return Err(IntErrorKind::Empty);
    }
    if len == 1 && (s[0] == '+' || s[0] == '-') {
        return Err(IntErrorKind::InvalidDigit);
    }
    let mut i: usize = if s[0] == '+' { 1 } else { 0 };
    assert(s@.drop_first() =~= s@.subrange(1, len as int));
    assert(s@ =~= s@.subrange(0, len as int));
    let mut acc: u32 = 0;
    while i < len
        invariant
            len == s@.len(),
            i <= len,
            max <= 0xffff,
            acc <= max,
            spec_parse_unsigned(s@, max as nat) == scan_digits(
                acc as nat,
                s@.subrange(i as int, len as int),
                max as nat,
            ),
        decreases len - i,
    {
        let c = s[i];
        assert(s@.subrange(i as int, len as int)[0] == c);
        assert(s@.subrange(i as int, len as int).drop_first() =~= s@.subrange(
            i + 1,
            len as int,
        ));
        if !('0' <= c && c <= '9') {
            return Err(IntErrorKind::InvalidDigit);
        }
        let d: u32 = (c as u32) - ('0' as u32);
        assert(d as nat == digit_value(c));
        if acc * 10 + d > max {
            return Err(IntErrorKind::PosOverflow);
        }
        acc = acc * 10 + d;
        i = i + 1;
    }
    assert(s@.subrange(len as int, len as int).len() == 0);
    Ok(acc)
}

/// Reads an unsigned 8-bit decimal number, as `str::parse::<u8>` does.
pub fn parse_u8(s: &Vec<char>) -> (r: Result<u8, IntErrorKind>)
    ensures
        r == spec_parse_u8(s@),
{
    proof {
        if s@.len() > 0 {
            if s@[0] == '+' {
                lemma_scan_bounded(0, s@.drop_first(), 0xff);
            } else {
                lemma_scan_bounded(0, s@, 0xff);
            }
        }
    }
    match parse_unsigned(s, 0xff) {
        Ok(n) => Ok(n as u8),
        Err(e) => Err(e),
    }
}

/// Reads an unsigned 16-bit decimal number, as `str::parse::<u16>` does.
pub fn parse_u16(s: &Vec<char>) -> (r: Result<u16, IntErrorKind>)
    ensures
        r == spec_parse_u16(s@),
{
    proof {
        if s@.len() > 0 {
            if s@[0] == '+' {
                lemma_scan_bounded(0, s@.drop_first(), 0xffff);
            } else {
                lemma_scan_bounded(0, s@, 0xffff);
            }
        }
    }
    match parse_unsigned(s, 0xffff) {
        Ok(n) => Ok(n as u16),
        Err(e) => Err(e),
    }
}

/// The characters of `s`, in order.
pub fn chars_of(s: &str) -> (v: Vec<char>)
    ensures
        v@ == s@,
{
    let n = s.unicode_len();
    let mut v: Vec<char> = Vec::new();
    let mut i: usize = 0;
    while i < n
        invariant
            n == s@.len(),
            i <= n,
            v@ == s@.take(i as int),
        decreases n - i,
    {
        v.push(s.get_char(i));
        assert(s@.take(i + 1) =~= s@.take(i as int).push(s@[i as int]));
        i = i + 1;
    }
    assert(s@.take(n as int) =~= s@);
    v
}

/// The fields of `s` between occurrences of `sep`, as `str::split` yields
/// them: there is always one more field than there are separators.
pub open spec fn split_on(s: Seq<char>, sep: char) -> Seq<Seq<char>>
    decreases s.len(),
{
    if s.len() == 0 {
        seq![Seq::<char>::empty()]
    } else {
        let prev = split_on(s.drop_last(), sep);
        if s.last() == sep {
            prev.push(Seq::<char>::empty())
        } else {
            prev.update(prev.len() - 1, prev.last().push(s.last()))
        }
    }
}

pub proof fn lemma_split_nonempty(s: Seq<char>, sep: char)
    ensures
        split_on(s, sep).len() >= 1,
    decreases s.len(),
{
    if s.len() > 0 {
        lemma_split_nonempty(s.drop_last(), sep);
    }
}

/// The views of a sequence of character vectors.
pub open spec fn views(vs: Seq<Vec<char>>) -> Seq<Seq<char>> {
    vs.map_values(|v: Vec<char>| v@)
}

/// Splits `s` at every `sep`.
pub fn split_chars(s: &Vec<char>, sep: char) -> (r: Vec<Vec<char>>)
    ensures
        views(r@) == split_on(s@, sep),
{
    let n = s.len();
    let mut done: Vec<Vec<char>> = Vec::new();
    let mut cur: Vec<char> = Vec::new();
    let mut i: usize = 0;
    assert(s@.take(0) =~= Seq::<char>::empty());
    assert(views(done@).push(cur@) =~= split_on(s@.take(0), sep));
    while i < n
        invariant
            n == s@.len(),
            i <= n,
            views(done@).push(cur@) == split_on(s@.take(i as int), sep),
        decreases n - i,
    {
        let c = s[i];
        let ghost prev = split_on(s@.take(i as int), sep);
        assert(s@.take(i + 1).drop_last() =~= s@.take(i as int));
        assert(s@.take(i + 1).last() == c);
        if c == sep {
            let old_cur = cur;
            done.push(old_cur);
            cur = Vec::new();
            assert(views(done@) =~= prev);
            assert(views(done@).push(cur@) =~= prev.push(Seq::<char>::empty()));
        } else {
            let ghost old_done = views(done@);
            cur.push(c);
            assert(views(done@) =~= old_done);
            assert(views(done@).push(cur@) =~= prev.update(
                prev.len() - 1,
                prev.last().push(c),
            ));
        }
        i = i + 1;
    }
    assert(s@.take(n as int) =~= s@);
    done.push(cur);
    done
}

} // verus!

verus! {

/// The decimal digit of `d`, for `d < 10`.
pub open spec fn digit_char(d: nat) -> char {
    ('0' as int + d) as char
}

/// `n` written in decimal, most significant digit first, with no leading
/// zeros.
pub open spec fn decimal(n: nat) -> Seq<char>
    decreases n,
{
    if n < 10 {
        seq![digit_char(n)]
    } else {
        decimal(n / 10).push(digit_char(n % 10))
    }
}

proof fn lemma_digit_char(d: nat)
    requires
        d < 10,
    ensures
        is_digit(digit_char(d)),
        digit_value(digit_char(d)) == d,
{
}

/// Every character of `decimal(n)` is a digit, and there is at least one.
pub proof fn lemma_decimal_digits(n: nat)
    ensures
        decimal(n).len() >= 1,
        forall|i: int| 0 <= i < decimal(n).len() ==> is_digit(#[trigger] decimal(n)[i]),
    decreases n,
{
    lemma_digit_char(n % 10);
    if n >= 10 {
        lemma_decimal_digits(n / 10);
        assert forall|i: int| 0 <= i < decimal(n).len() implies is_digit(#[trigger] decimal(n)[i]) by {
            if i < decimal(n / 10).len() {
                assert(decimal(n)[i] == decimal(n / 10)[i]);
            }
        }
    }
}

/// Reading one more digit continues the reading of the digits before it.
proof fn lemma_scan_push(acc: nat, d: Seq<char>, c: char, max: nat)
    requires
        is_digit(c),
    ensures
        scan_digits(acc, d.push(c), max) == (match scan_digits(acc, d, max) {
            Ok(v) => if v * 10 + digit_value(c) > max {
                Err(IntErrorKind::PosOverflow)
            } else {
                Ok(v * 10 + digit_value(c))
            },
            Err(e) => Err(e),
        }),
    decreases d.len(),
{
    let dc = d.push(c);
    if d.len() == 0 {
        assert(dc[0] == c);
        assert(dc.drop_first() =~= Seq::<char>::empty());
        assert(scan_digits(acc * 10 + digit_value(c), Seq::<char>::empty(), max) == Ok::<
            nat,
            IntErrorKind,
        >(acc * 10 + digit_value(c)));
    } else {
        assert(dc[0] == d[0]);
        assert(dc.drop_first() =~= d.drop_first().push(c));
        if is_digit(d[0]) && acc * 10 + digit_value(d[0]) <= max {
            lemma_scan_push(acc * 10 + digit_value(d[0]), d.drop_first(), c, max);
        }
    }
}

/// The decimal text of a number reads back as that number, when the
/// number fits.
pub proof fn lemma_parse_decimal(n: nat, max: nat)
    requires
        n <= max,
    ensures
        spec_parse_unsigned(decimal(n), max) == Ok::<nat, IntErrorKind>(n),
    decreases n,
{
    lemma_decimal_digits(n);
    lemma_scan_decimal(n, max);
}

proof fn lemma_scan_decimal(n: nat, max: nat)
    requires
        n <= max,
    ensures
        scan_digits(0, decimal(n), max) == Ok::<nat, IntErrorKind>(n),
    decreases n,
{
    lemma_digit_char(n % 10);
    if n < 10 {
        lemma_scan_push(0, Seq::<char>::empty(), digit_char(n), max);
        assert(decimal(n) =~= Seq::<char>::empty().push(digit_char(n)));
    } else {
        lemma_scan_decimal(n / 10, max);
        lemma_scan_push(0, decimal(n / 10), digit_char(n % 10), max);
    }
}

/// A text with no separator is one field.
pub proof fn lemma_split_without_sep(x: Seq<char>, sep: char)
    requires
        !x.contains(sep),
    ensures
        split_on(x, sep) == seq![x],
    decreases x.len(),
{
    if x.len() == 0 {
        assert(x =~= Seq::<char>::empty());
        assert(split_on(x, sep) =~= seq![x]);
    } else {
        assert(!x.drop_last().contains(sep)) by {
            if x.drop_last().contains(sep) {
                let i = choose|i: int| 0 <= i < x.drop_last().len() && x.drop_last()[i] == sep;
                assert(x[i] == sep);
            }
        }
        lemma_split_without_sep(x.drop_last(), sep);
        assert(x.last() != sep) by {
            assert(x[x.len() - 1] == x.last());
        }
        assert(x.drop_last().push(x.last()) =~= x);
        assert(split_on(x, sep) =~= seq![x]);
    }
}

/// A separator between two texts joins their fields.
pub proof fn lemma_split_join(x: Seq<char>, y: Seq<char>, sep: char)
    ensures
        split_on(x + seq![sep] + y, sep) == split_on(x, sep) + split_on(y, sep),
    decreases y.len(),
{
    let z = x + seq![sep] + y;
    if y.len() == 0 {
        assert(z.drop_last() =~= x);
        assert(split_on(y, sep) =~= seq![Seq::<char>::empty()]);
        assert(split_on(z, sep) =~= split_on(x, sep) + split_on(y, sep));
    } else {
        assert(z.drop_last() =~= x + seq![sep] + y.drop_last());
        assert(z.last() == y.last());
        lemma_split_join(x, y.drop_last(), sep);
        lemma_split_nonempty(y.drop_last(), sep);
        let a = split_on(x, sep);
        let b = split_on(y.drop_last(), sep);
        if y.last() == sep {
            assert(split_on(z, sep) =~= a + split_on(y, sep));
        } else {
            assert((a + b).last() == b.last());
            assert((a + b).update((a + b).len() - 1, b.last().push(y.last())) =~= a + b.update(
                b.len() - 1,
                b.last().push(y.last()),
            ));
            assert(split_on(z, sep) =~= a + split_on(y, sep));
        }
    }
}

} // verus!

verus! {

/// The one-character text of the digit `d`.
fn digit_str(d: u16) -> (s: &'static str)
    requires
        d < 10,
    ensures
        s@ == seq![digit_char(d as nat)],
{
    proof {
        reveal_strlit("0");
        reveal_strlit("1");
        reveal_strlit("2");
        reveal_strlit("3");
        reveal_strlit("4");
        reveal_strlit("5");
        reveal_strlit("6");
        reveal_strlit("7");
        reveal_strlit("8");
        reveal_strlit("9");
    }
    let s = match d {
        0 => "0",
        1 => "1",
        2 => "2",
        3 => "3",
        4 => "4",
        5 => "5",
        6 => "6",
        7 => "7",
        8 => "8",
        _ => "9",
    };
    assert(s@ =~= seq![digit_char(d as nat)]);
    s
}

/// Appends `n` in decimal to `s`.
fn append_decimal(s: &mut String, n: u16)
    ensures
        final(s)@ == old(s)@ + decimal(n as nat),
    decreases n,
{
    if n >= 10 {
        append_decimal(s, n / 10);
    }
    s.append(digit_str(n % 10));
    assert(decimal(n as nat) == if n >= 10 {
        decimal((n / 10) as nat).push(digit_char((n % 10) as nat))
    } else {
        seq![digit_char(n as nat)]
    });
    assert(s@ =~= old(s)@ + decimal(n as nat));
}

/// `n` written in decimal.
pub fn decimal_string(n: u16) -> (s: String)
    ensures
        s@ == decimal(n as nat),
{
    let mut s = String::new();
    append_decimal(&mut s, n);
    assert(s@ =~= decimal(n as nat));
    s
}

/// `decimal(n)` is the standard decimal text of `n`: digits only, no
/// leading zero unless `n` is zero itself, and it reads back as `n`.
pub proof fn lemma_decimal_canonical(n: nat)
    ensures
        decimal(n).len() >= 1,
        forall|i: int| 0 <= i < decimal(n).len() ==> is_digit(#[trigger] decimal(n)[i]),
        n == 0 <==> decimal(n) == seq!['0'],
        n > 0 ==> decimal(n)[0] != '0',
        n <= 0xffff ==> spec_parse_u16(decimal(n)) == Ok::<u16, IntErrorKind>(n as u16),
    decreases n,
{
    lemma_decimal_digits(n);
    if n <= 0xffff {
        lemma_parse_decimal(n, 0xffff);
    }
    if n >= 10 {
        lemma_decimal_canonical(n / 10);
        assert(decimal(n)[0] == decimal(n / 10)[0]);
        assert(decimal(n).len() >= 2);
    } else if n == 0 {
        assert(decimal(n) =~= seq!['0']);
    }
}

} // verus!
