//! Text primitives: building strings, numerals and tokens.

use vstd::prelude::*;

verus! {

/// Appends a character to a string: `String::push`, which "appends the given
/// `char` to the end of this `String`".
pub assume_specification[ String::push ](s: &mut String, c: char)
    ensures
        final(s)@ == old(s)@.push(c),
;

/// The characters of `s`, in order.
pub fn chars_of(s: &str) -> (r: Vec<char>)
    ensures
        r@ == s@,
{
    let mut out: Vec<char> = Vec::new();
    for c in it: s.chars()
        invariant
            it.seq() == s@,
            out@ == s@.take(it.index()),
    {
        out.push(c);
        assert(s@.take(it.index() + 1) =~= s@.take(it.index()).push(c));
    }
    assert(s@.take(s@.len() as int) =~= s@);
    out
}

/// The string made of `chars[from..to]`.
pub fn string_of(chars: &Vec<char>, from: usize, to: usize) -> (r: String)
    requires
        from <= to <= chars@.len(),
    ensures
        r@ == chars@.subrange(from as int, to as int),
{
    let mut out = String::new();
    let mut i: usize = from;
    while i < to
        invariant
            from <= i <= to <= chars@.len(),
            out@ == chars@.subrange(from as int, i as int),
        decreases to - i,
    {
        out.push(chars[i]);
        i = i + 1;
        assert(chars@.subrange(from as int, i as int) =~= chars@.subrange(
            from as int,
            i - 1,
        ).push(chars@[i - 1]));
    }
    out
}

/// `a` followed by `b`.
pub fn cat(a: &str, b: &str) -> (r: String)
    ensures
        r@ == a@ + b@,
{
    let mut out = a.to_owned();
    out.append(b);
    out
}

/// `a`, `b` and `c` in a row.
pub fn cat3(a: &str, b: &str, c: &str) -> (r: String)
    ensures
        r@ == a@ + b@ + c@,
{
    let mut out = cat(a, b);
    out.append(c);
    out
}

/// `a`, `b`, `c` and `d` in a row.
pub fn cat4(a: &str, b: &str, c: &str, d: &str) -> (r: String)
    ensures
        r@ == a@ + b@ + c@ + d@,
{
    let mut out = cat3(a, b, c);
    out.append(d);
    out
}

/// The characters of an optional text.
pub open spec fn opt_text(s: Option<String>) -> Option<Seq<char>> {
    match s {
        Some(t) => Some(t@),
        None => None,
    }
}

/// A copy of an optional text.
pub fn clone_text(s: &Option<String>) -> (r: Option<String>)
    ensures
        opt_text(r) == opt_text(*s),
{
    match s {
        Some(t) => Some(t.clone()),
        None => None,
    }
}

/// What can be given where a text is asked for.
pub trait IntoText: Sized {
    /// The characters of the text.
    spec fn text(self) -> Seq<char>;

    /// The text as an owned string.
    fn into_text(self) -> (r: String)
        ensures
            r@ == self.text(),
    ;
}

impl IntoText for &str {
    open spec fn text(self) -> Seq<char> {
        self@
    }

    fn into_text(self) -> (r: String) {
        self.to_owned()
    }
}

impl IntoText for String {
    open spec fn text(self) -> Seq<char> {
        self@
    }

    fn into_text(self) -> (r: String) {
        self
    }
}

/// The position of the first `c` in `chars`, if there is one.
pub fn find_char(chars: &Vec<char>, c: char) -> (r: Option<usize>)
    ensures
        match r {
            Some(i) => i < chars@.len() && chars@[i as int] == c && !chars@.take(i as int).contains(
                c,
            ),
            None => !chars@.contains(c),
        },
{
    let mut i: usize = 0;
    while i < chars.len()
        invariant
            i <= chars@.len(),
            forall|j: int| 0 <= j < i ==> chars@[j] != c,
        decreases chars@.len() - i,
    {
        if chars[i] == c {
            return Some(i);
        }
        i = i + 1;
    }
    None
}

/// Whether `c` occurs in `s`.
pub fn contains_char(s: &str, c: char) -> (r: bool)
    ensures
        r == s@.contains(c),
{
    let chars = chars_of(s);
    match find_char(&chars, c) {
        Some(i) => {
            assert(s@[i as int] == c);
            true
        },
        None => false,
    }
}

/// The texts held by a sequence of strings.
pub open spec fn texts(v: Seq<String>) -> Seq<Seq<char>> {
    Seq::new(v.len(), |i: int| v[i]@)
}

// ---------------------------------------------------------------------------
// Numerals
// ---------------------------------------------------------------------------

/// The character of a single digit.
pub open spec fn digit_char(d: nat) -> char {
    (('0' as nat) + d) as char
}

/// The numeral of `n` in a radix of at most ten, most significant digit first
/// and without leading zeros.
pub open spec fn numeral(n: nat, radix: nat) -> Seq<char>
    decreases n,
{
    if radix < 2 || n < radix {
        seq![digit_char(n)]
    } else {
        proof {
            vstd::arithmetic::div_mod::lemma_div_decreases(n as int, radix as int);
        }
        numeral(n / radix, radix).push(digit_char(n % radix))
    }
}

/// The decimal numeral of an integer, with a leading `-` for negative ones.
pub open spec fn decimal(n: int) -> Seq<char> {
    if n < 0 {
        seq!['-'] + numeral((-n) as nat, 10)
    } else {
        numeral(n as nat, 10)
    }
}

fn digit_of(d: u8) -> (r: char)
    requires
        d < 10,
    ensures
        r == digit_char(d as nat),
{
    (48u8 + d) as char
}

fn push_numeral(out: &mut String, n: u64, radix: u64)
    requires
        2 <= radix <= 10,
    ensures
        final(out)@ == old(out)@ + numeral(n as nat, radix as nat),
    decreases n,
{
    if n < radix {
        out.push(digit_of(n as u8));
    } else {
        proof {
            vstd::arithmetic::div_mod::lemma_div_decreases(n as int, radix as int);
        }
        push_numeral(out, n / radix, radix);
        out.push(digit_of((n % radix) as u8));
    }
}

/// The numeral of `n` in the given radix.
pub fn numeral_of(n: u64, radix: u64) -> (r: String)
    requires
        2 <= radix <= 10,
    ensures
        r@ == numeral(n as nat, radix as nat),
{
    let mut out = String::new();
    push_numeral(&mut out, n, radix);
    out
}

/// The decimal numeral of `n`.
pub fn decimal_of(n: i64) -> (r: String)
    ensures
        r@ == decimal(n as int),
{
    if n < 0 {
        let mut out = String::new();
        out.push('-');
        let magnitude: u64 = (-(n as i128)) as u64;
        push_numeral(&mut out, magnitude, 10);
        out
    } else {
        numeral_of(n as u64, 10)
    }
}

/// Why a text is not a number of the wanted type.
#[derive(Debug, Clone, Copy, PartialEq, Eq, Structural)]
pub enum NumberError {
    Empty,
    InvalidDigit,
    TooLarge,
}

impl NumberError {
    /// The reason in words.
    pub open spec fn message(self) -> Seq<char> {
        match self {
            NumberError::Empty => "cannot parse integer from empty string"@,
            NumberError::InvalidDigit => "invalid digit found in string"@,
            NumberError::TooLarge => "number too large to fit in target type"@,
        }
    }

    /// The reason in words.
    pub fn to_text(self) -> (r: &'static str)
        ensures
            r@ == self.message(),
    {
        match self {
            NumberError::Empty => "cannot parse integer from empty string",
            NumberError::InvalidDigit => "invalid digit found in string",
            NumberError::TooLarge => "number too large to fit in target type",
        }
    }
}

/// The value of a digit in a radix of at most ten.
pub open spec fn digit_value(c: char, radix: nat) -> Option<nat> {
    if '0' as u32 <= c as u32 && (c as u32) - ('0' as u32) < radix {
        Some(((c as u32) - ('0' as u32)) as nat)
    } else {
        None
    }
}

/// Reads `s` digit by digit, after digits worth `acc`. The first character that
/// is no digit, or that takes the value beyond `max`, decides the error.
pub open spec fn read_digits(s: Seq<char>, radix: nat, max: nat, acc: nat) -> Result<
    nat,
    NumberError,
>
    decreases s.len(),
{
    if s.len() == 0 {
        Ok(acc)
    } else {
        match digit_value(s[0], radix) {
            None => Err(NumberError::InvalidDigit),
            Some(d) => if acc * radix + d > max {
                Err(NumberError::TooLarge)
            } else {
                read_digits(s.skip(1), radix, max, acc * radix + d)
            },
        }
    }
}

/// Reads an unsigned number of at most `max`: digits after an optional `+`.
pub open spec fn read_unsigned(s: Seq<char>, radix: nat, max: nat) -> Result<nat, NumberError> {
    if s.len() == 0 {
        Err(NumberError::Empty)
    } else if s.len() == 1 && (s[0] == '+' || s[0] == '-') {
        Err(NumberError::InvalidDigit)
    } else if s[0] == '+' {
        read_digits(s.skip(1), radix, max, 0)
    } else {
        read_digits(s, radix, max, 0)
    }
}

fn read_digits_from(chars: &Vec<char>, from: usize, radix: u64, max: u64) -> (r: Result<
    u64,
    NumberError,
>)
    requires
        from <= chars@.len(),
        2 <= radix <= 10,
    ensures
        r matches Ok(v) ==> read_digits(chars@.skip(from as int), radix as nat, max as nat, 0)
            == Ok::<nat, NumberError>(v as nat),
        r matches Err(e) ==> read_digits(chars@.skip(from as int), radix as nat, max as nat, 0)
            == Err::<nat, NumberError>(e),
{
    let mut acc: u64 = 0;
    let mut i: usize = from;
    while i < chars.len()
        invariant
            from <= i <= chars@.len(),
            2 <= radix <= 10,
            read_digits(chars@.skip(from as int), radix as nat, max as nat, 0) == read_digits(
                chars@.skip(i as int),
                radix as nat,
                max as nat,
                acc as nat,
            ),
        decreases chars@.len() - i,
    {
        let c: u32 = chars[i] as u32;
        assert(chars@.skip(i as int)[0] == chars@[i as int]);
        assert(chars@.skip(i as int).skip(1) =~= chars@.skip(i + 1));
        if c < 48 || (c - 48) as u64 >= radix {
            return Err(NumberError::InvalidDigit);
        }
        let d: u64 = (c - 48) as u64;
        assert(acc * radix <= 0xffff_ffff_ffff_ffff * 10) by (nonlinear_arith)
            requires
                acc <= 0xffff_ffff_ffff_ffff,
                radix <= 10,
        ;
        let next: u128 = (acc as u128) * (radix as u128) + (d as u128);
        if next > max as u128 {
            return Err(NumberError::TooLarge);
        }
        acc = next as u64;
        i = i + 1;
    }
    assert(chars@.skip(i as int).len() == 0);
    Ok(acc)
}

/// Parses an unsigned number of at most `max` in the given radix.
pub fn parse_unsigned(s: &str, radix: u64, max: u64) -> (r: Result<u64, NumberError>)
    requires
        2 <= radix <= 10,
    ensures
        r matches Ok(v) ==> read_unsigned(s@, radix as nat, max as nat) == Ok::<nat, NumberError>(
            v as nat,
        ),
        r matches Err(e) ==> read_unsigned(s@, radix as nat, max as nat) == Err::<nat, NumberError>(
            e,
        ),
{
    let chars = chars_of(s);
    if chars.len() == 0 {
        return Err(NumberError::Empty);
    }
    if chars.len() == 1 && (chars[0] == '+' || chars[0] == '-') {
        return Err(NumberError::InvalidDigit);
    }
    if chars[0] == '+' {
        read_digits_from(&chars, 1, radix, max)
    } else {
        assert(chars@.skip(0) =~= chars@);
        read_digits_from(&chars, 0, radix, max)
    }
}

/// Reads a decimal number in the range of `i32`, with an optional sign.
pub open spec fn read_i32(s: Seq<char>) -> Option<i32> {
    if s.len() > 1 && s[0] == '-' {
        match read_digits(s.skip(1), 10, 0x8000_0000, 0) {
            Ok(v) => Some((-(v as int)) as i32),
            Err(_) => None,
        }
    } else {
        match read_unsigned(s, 10, 0x7fff_ffff) {
            Ok(v) => Some(v as i32),
            Err(_) => None,
        }
    }
}

/// Parses a decimal `i32`.
pub fn parse_i32(s: &str) -> (r: Option<i32>)
    ensures
        r == read_i32(s@),
{
    let chars = chars_of(s);
    if chars.len() > 1 && chars[0] == '-' {
        match read_digits_from(&chars, 1, 10, 0x8000_0000) {
            Ok(v) => {
                proof {
                    lemma_read_digits_bound(s@.skip(1), 10, 0x8000_0000, 0);
                }
                Some((-(v as i64)) as i32)
            },
            Err(_) => None,
        }
    } else {
        match parse_unsigned(s, 10, 0x7fff_ffff) {
            Ok(v) => {
                proof {
                    lemma_read_digits_bound(s@, 10, 0x7fff_ffff, 0);
                    lemma_read_digits_bound(s@.skip(1), 10, 0x7fff_ffff, 0);
                }
                Some(v as i32)
            },
            Err(_) => None,
        }
    }
}

/// A number that was read is within the bound.
pub proof fn lemma_read_digits_bound(s: Seq<char>, radix: nat, max: nat, acc: nat)
    requires
        acc <= max,
    ensures
        read_digits(s, radix, max, acc) matches Ok(v) ==> v <= max,
    decreases s.len(),
{
    if s.len() > 0 {
        match digit_value(s[0], radix) {
            None => {},
            Some(d) => {
                if acc * radix + d <= max {
                    lemma_read_digits_bound(s.skip(1), radix, max, acc * radix + d);
                }
            },
        }
    }
}

proof fn lemma_read_digits_push(s: Seq<char>, c: char, radix: nat, max: nat, acc: nat)
    ensures
        read_digits(s.push(c), radix, max, acc) == (match read_digits(s, radix, max, acc) {
            Ok(v) => read_digits(seq![c], radix, max, v),
            Err(e) => Err(e),
        }),
    decreases s.len(),
{
    if s.len() == 0 {
        assert(s.push(c) =~= seq![c]);
    } else {
        assert(s.push(c)[0] == s[0]);
        assert(s.push(c).skip(1) =~= s.skip(1).push(c));
        match digit_value(s[0], radix) {
            None => {},
            Some(d) => {
                if acc * radix + d <= max {
                    lemma_read_digits_push(s.skip(1), c, radix, max, acc * radix + d);
                }
            },
        }
    }
}

/// A numeral reads back as the number it was made from, in any type that holds
/// that number.
pub proof fn numeral_reads_back(n: nat, radix: nat, max: nat)
    requires
        2 <= radix <= 10,
        n <= max,
    ensures
        read_unsigned(numeral(n, radix), radix, max) == Ok::<nat, NumberError>(n),
{
    lemma_numeral_shape(n, radix);
    lemma_numeral_digits(n, radix, max);
}

proof fn lemma_numeral_shape(n: nat, radix: nat)
    requires
        2 <= radix <= 10,
    ensures
        numeral(n, radix).len() > 0,
        '0' as nat <= numeral(n, radix)[0] as nat <= '9' as nat,
    decreases n,
{
    if n >= radix {
        vstd::arithmetic::div_mod::lemma_div_decreases(n as int, radix as int);
        lemma_numeral_shape(n / radix, radix);
    }
}

proof fn lemma_numeral_digits(n: nat, radix: nat, max: nat)
    requires
        2 <= radix <= 10,
        n <= max,
    ensures
        read_digits(numeral(n, radix), radix, max, 0) == Ok::<nat, NumberError>(n),
    decreases n,
{
    reveal_with_fuel(read_digits, 2);
    if n < radix {
        assert(seq![digit_char(n)].skip(1).len() == 0);
    } else {
        let q = n / radix;
        let d = n % radix;
        vstd::arithmetic::div_mod::lemma_div_decreases(n as int, radix as int);
        vstd::arithmetic::div_mod::lemma_fundamental_div_mod(n as int, radix as int);
        assert(q * radix == radix * q) by (nonlinear_arith);
        assert(0 <= d < radix) by (nonlinear_arith)
            requires
                d == n % radix,
                radix >= 2,
        ;
        lemma_numeral_digits(q, radix, max);
        lemma_read_digits_push(numeral(q, radix), digit_char(d), radix, max, 0);
        assert(seq![digit_char(d)].skip(1).len() == 0);
        assert(digit_value(digit_char(d), radix) == Some(d));
    }
}

// ---------------------------------------------------------------------------
// Tokens
// ---------------------------------------------------------------------------

/// Unicode's `White_Space` characters.
pub open spec fn is_space(c: char) -> bool {
    let u = c as nat;
    9 <= u <= 13 || u == 0x20 || u == 0x85 || u == 0xa0 || u == 0x1680 || 0x2000 <= u <= 0x200a || u
        == 0x2028 || u == 0x2029 || u == 0x202f || u == 0x205f || u == 0x3000
}

/// Whether `c` separates tokens.
pub fn is_whitespace(c: char) -> (r: bool)
    ensures
        r == is_space(c),
{
    let u: u32 = c as u32;
    (9 <= u && u <= 13) || u == 0x20 || u == 0x85 || u == 0xa0 || u == 0x1680 || (0x2000 <= u && u
        <= 0x200a) || u == 0x2028 || u == 0x2029 || u == 0x202f || u == 0x205f || u == 0x3000
}

/// The length of the token that `s` starts with.
pub open spec fn token_len(s: Seq<char>) -> nat
    decreases s.len(),
{
    if s.len() == 0 || is_space(s[0]) {
        0
    } else {
        1 + token_len(s.skip(1))
    }
}

/// The whitespace-separated tokens of `s`.
pub open spec fn tokens(s: Seq<char>) -> Seq<Seq<char>>
    decreases s.len(),
{
    if s.len() == 0 {
        Seq::empty()
    } else if token_len(s) == 0 {
        tokens(s.skip(1))
    } else {
        proof {
            lemma_token_len_bound(s);
        }
        seq![s.take(token_len(s) as int)] + tokens(s.skip(token_len(s) as int))
    }
}

/// A token is no longer than the text it starts.
pub proof fn lemma_token_len_bound(s: Seq<char>)
    ensures
        token_len(s) <= s.len(),
    decreases s.len(),
{
    if s.len() > 0 {
        lemma_token_len_bound(s.skip(1));
    }
}

fn token_end(chars: &Vec<char>, from: usize) -> (r: usize)
    requires
        from <= chars@.len(),
    ensures
        from <= r <= chars@.len(),
        r - from == token_len(chars@.skip(from as int)),
{
    let mut i: usize = from;
    while i < chars.len() && !is_whitespace(chars[i])
        invariant
            from <= i <= chars@.len(),
            token_len(chars@.skip(from as int)) == (i - from) + token_len(chars@.skip(i as int)),
        decreases chars@.len() - i,
    {
        assert(chars@.skip(i as int).skip(1) =~= chars@.skip(i + 1));
        i = i + 1;
    }
    i
}

/// Splits `s` at whitespace.
pub fn split_tokens(s: &str) -> (r: Vec<String>)
    ensures
        texts(r@) == tokens(s@),
{
    let chars = chars_of(s);
    let mut out: Vec<String> = Vec::new();
    let mut i: usize = 0;
    assert(s@.skip(0) =~= s@);
    assert(texts(out@) + tokens(s@) =~= tokens(s@));
    while i < chars.len()
        invariant
            i <= chars@.len(),
            chars@ == s@,
            texts(out@) + tokens(s@.skip(i as int)) == tokens(s@),
        decreases chars@.len() - i,
    {
        let end = token_end(&chars, i);
        let ghost rest = s@.skip(i as int);
        if end == i {
            assert(rest.skip(1) =~= s@.skip(i + 1));
            i = i + 1;
        } else {
            let ghost before = out@;
            let token = string_of(&chars, i, end);
            assert(rest.take((end - i) as int) =~= s@.subrange(i as int, end as int));
            assert(rest.skip((end - i) as int) =~= s@.skip(end as int));
            out.push(token);
            assert(texts(out@) =~= texts(before).push(token@));
            assert(texts(before).push(token@) + tokens(s@.skip(end as int)) =~= texts(before) + (
            seq![token@] + tokens(s@.skip(end as int))));
            i = end;
        }
    }
    assert(tokens(s@.skip(i as int)) =~= Seq::<Seq<char>>::empty());
    assert(texts(out@) =~= texts(out@) + tokens(s@.skip(i as int)));
    out
}

} // verus!
