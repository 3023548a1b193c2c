//! What numerals, words, lines and paths are.

use vstd::prelude::*;
use vstd::arithmetic::div_mod::{lemma_div_decreases, lemma_fundamental_div_mod};
use crate::path::{
    absolute, extension, extension_dot, file_name, name_start, parent_path, replace_extension,
    same_file, trimmed,
};
use crate::text::{
    decimal, digit_char, digit_value, is_space, numeral, read_digits, read_i32, read_unsigned,
    token_len, tokens, NumberError,
};
use crate::thread_count::{
    line_len, line_with, threads_in, unknown_text, violation_text, StatusError,
};

verus! {

// ---------------------------------------------------------------------------
// Numerals
// ---------------------------------------------------------------------------

/// Whether a character is a digit in a radix of at most ten.
pub open spec fn is_digit(c: char, radix: nat) -> bool {
    '0' as nat <= c as nat && (c as nat) < ('0' as nat) + radix
}

/// Whether a text is made of digits only.
pub open spec fn all_digits(s: Seq<char>, radix: nat) -> bool {
    forall|i: int| 0 <= i < s.len() ==> is_digit(#[trigger] s[i], radix)
}

/// What digits are worth by their places, the last one being the ones.
pub open spec fn worth(s: Seq<char>, radix: nat) -> nat
    decreases s.len(),
{
    if s.len() == 0 {
        0
    } else {
        (worth(s.drop_last(), radix) * radix + (s.last() as nat - '0' as nat)) as nat
    }
}

/// A numeral is made of digits, which are worth the number by their places; and it
/// has no leading zero, unless it is the one of zero.
pub proof fn a_numeral_is_worth_its_number(n: nat, radix: nat)
    requires
        2 <= radix <= 10,
    ensures
        all_digits(numeral(n, radix), radix),
        worth(numeral(n, radix), radix) == n,
        numeral(n, radix).len() > 0,
        n > 0 ==> numeral(n, radix)[0] != '0',
        n == 0 ==> numeral(n, radix) == seq!['0'],
    decreases n,
{
    let s = numeral(n, radix);
    reveal_with_fuel(worth, 2);
    if n < radix {
        assert(s.drop_last().len() == 0);
        assert(digit_char(n) as nat == ('0' as nat) + n);
        if n == 0 {
            assert(s =~= seq!['0']);
        }
    } else {
        lemma_div_decreases(n as int, radix as int);
        lemma_fundamental_div_mod(n as int, radix as int);
        let q = n / radix;
        let d = n % radix;
        assert(q > 0) by (nonlinear_arith)
            requires
                n >= radix,
                radix >= 2,
                q == n / radix,
        ;
        assert(0 <= d < radix) by (nonlinear_arith)
            requires
                d == n % radix,
                radix >= 2,
        ;
        assert(q * radix == radix * q) by (nonlinear_arith);
        a_numeral_is_worth_its_number(q, radix);
        let head = numeral(q, radix);
        assert(s.drop_last() =~= head);
        assert(digit_char(d) as nat == ('0' as nat) + d);
        assert forall|i: int| 0 <= i < s.len() implies is_digit(#[trigger] s[i], radix) by {
            if i < head.len() {
                assert(s[i] == head[i]);
            }
        }
        assert(s[0] == head[0]);
    }
}

/// The decimal numeral of a number is that of its magnitude, behind a `-` where it is
/// negative.
pub proof fn a_negative_number_has_a_sign(n: int)
    ensures
        n >= 0 ==> decimal(n) == numeral(n as nat, 10),
        n < 0 ==> decimal(n) == seq!['-'] + numeral((-n) as nat, 10),
{
}

proof fn lemma_worth_push(s: Seq<char>, c: char, radix: nat)
    ensures
        is_digit(c, radix) ==> worth(s.push(c), radix) == worth(s, radix) * radix + (c as nat
            - '0' as nat),
{
    assert(s.push(c).drop_last() =~= s);
}

proof fn lemma_worth_grows(s: Seq<char>, i: int, radix: nat)
    requires
        all_digits(s, radix),
        0 <= i <= s.len(),
        radix >= 1,
    ensures
        worth(s.take(i), radix) <= worth(s, radix),
    decreases s.len() - i,
{
    if i == s.len() {
        assert(s.take(i) =~= s);
    } else {
        lemma_worth_grows(s, i + 1, radix);
        assert(s.take(i + 1) =~= s.take(i).push(s[i]));
        lemma_worth_push(s.take(i), s[i], radix);
        let w = worth(s.take(i), radix);
        assert(w <= w * radix) by (nonlinear_arith)
            requires
                radix >= 1,
        ;
    }
}

proof fn lemma_digit_value(c: char, radix: nat)
    requires
        radix <= 10,
    ensures
        digit_value(c, radix) is Some <==> is_digit(c, radix),
        digit_value(c, radix) matches Some(d) ==> d == c as nat - '0' as nat,
{
}

/// Reading digits after `done`, which were read before.
proof fn lemma_read_digits(s: Seq<char>, k: int, radix: nat, max: nat)
    requires
        2 <= radix <= 10,
        0 <= k <= s.len(),
        all_digits(s.take(k), radix),
        worth(s.take(k), radix) <= max,
    ensures
        match read_digits(s.skip(k), radix, max, worth(s.take(k), radix)) {
            Ok(v) => all_digits(s, radix) && v == worth(s, radix) && v <= max,
            Err(e) => !(all_digits(s, radix) && worth(s, radix) <= max),
        },
        forall|i: int|
            k <= i < s.len() && all_digits(#[trigger] s.take(i), radix) && !is_digit(s[i], radix)
                && worth(s.take(i), radix) <= max ==> read_digits(
                s.skip(k),
                radix,
                max,
                worth(s.take(k), radix),
            ) == Err::<nat, NumberError>(NumberError::InvalidDigit),
        forall|i: int|
            k < i <= s.len() && all_digits(#[trigger] s.take(i), radix) && worth(s.take(i), radix)
                > max ==> read_digits(s.skip(k), radix, max, worth(s.take(k), radix)) == Err::<
                nat,
                NumberError,
            >(NumberError::TooLarge),
    decreases s.len() - k,
{
    let done = s.take(k);
    let rest = s.skip(k);
    if k == s.len() {
        assert(done =~= s);
    } else {
        let c = s[k];
        assert(rest[0] == c);
        assert(rest.skip(1) =~= s.skip(k + 1));
        assert(s.take(k + 1) =~= done.push(c));
        lemma_digit_value(c, radix);
        if is_digit(c, radix) {
            lemma_worth_push(done, c, radix);
            assert forall|i: int| 0 <= i < s.take(k + 1).len() implies is_digit(
                #[trigger] s.take(k + 1)[i],
                radix,
            ) by {
                if i < k {
                    assert(s.take(k + 1)[i] == done[i]);
                }
            }
            if worth(s.take(k + 1), radix) <= max {
                lemma_read_digits(s, k + 1, radix, max);
                assert forall|i: int|
                    k <= i < s.len() && all_digits(#[trigger] s.take(i), radix) && !is_digit(
                        s[i],
                        radix,
                    ) && worth(s.take(i), radix) <= max implies read_digits(
                    rest,
                    radix,
                    max,
                    worth(done, radix),
                ) == Err::<nat, NumberError>(NumberError::InvalidDigit) by {
                    assert(i != k);
                }
            } else {
                if all_digits(s, radix) {
                    lemma_worth_grows(s, k + 1, radix);
                }
                assert forall|i: int|
                    k <= i < s.len() && all_digits(#[trigger] s.take(i), radix) && !is_digit(
                        s[i],
                        radix,
                    ) && worth(s.take(i), radix) <= max implies false by {
                    assert(i != k);
                    lemma_worth_grows(s.take(i), k + 1, radix);
                    assert(s.take(i).take(k + 1) =~= s.take(k + 1));
                }
            }
        } else {
            assert forall|i: int|
                k < i <= s.len() && all_digits(#[trigger] s.take(i), radix) implies false by {
                assert(s.take(i)[k] == c);
            }
        }
    }
}

/// The digits of a number: what follows a `+` sign, if there is one before something.
pub open spec fn digits_of(s: Seq<char>) -> Seq<char> {
    if s.len() > 1 && s[0] == '+' {
        s.skip(1)
    } else {
        s
    }
}

/// A text reads as a number exactly if it is made of digits, after an optional `+`,
/// which are worth that number, and the number is not too large. Otherwise the error
/// is that the text is empty, or else what comes first: a character that is no digit,
/// or a digit that makes the number too large.
pub proof fn a_number_reads_as_its_digits_are_worth(s: Seq<char>, radix: nat, max: nat, i: int)
    requires
        2 <= radix <= 10,
    ensures
        match read_unsigned(s, radix, max) {
            Ok(v) => s.len() > 0 && all_digits(digits_of(s), radix) && v == worth(
                digits_of(s),
                radix,
            ) && v <= max,
            Err(e) => s.len() == 0 || !all_digits(digits_of(s), radix) || worth(digits_of(s), radix)
                > max,
        },
        s.len() == 0 ==> read_unsigned(s, radix, max) == Err::<nat, NumberError>(NumberError::Empty),
        0 <= i < digits_of(s).len() && all_digits(digits_of(s).take(i), radix) && !is_digit(
            digits_of(s)[i],
            radix,
        ) && worth(digits_of(s).take(i), radix) <= max ==> read_unsigned(s, radix, max) == Err::<
            nat,
            NumberError,
        >(NumberError::InvalidDigit),
        0 < i <= digits_of(s).len() && all_digits(digits_of(s).take(i), radix) && worth(
            digits_of(s).take(i),
            radix,
        ) > max ==> read_unsigned(s, radix, max) == Err::<nat, NumberError>(NumberError::TooLarge),
{
    let d = digits_of(s);
    assert(d.take(0) =~= Seq::<char>::empty());
    assert(d.skip(0) =~= d);
    assert(worth(d.take(0), radix) == 0);
    lemma_read_digits(d, 0, radix, max);
    if s.len() == 1 && (s[0] == '+' || s[0] == '-') {
        assert(!is_digit(d[0], radix));
        if 0 < i <= d.len() {
            assert(d.take(i)[0] == d[0]);
        }
    }
}

/// A text reads as an `i32` exactly if it is made of digits, after an optional sign,
/// and what they are worth with that sign is in range.
pub proof fn a_signed_number_reads_as_its_digits_are_worth(s: Seq<char>)
    ensures
        s.len() > 1 && s[0] == '-' ==> (if all_digits(s.skip(1), 10) && worth(s.skip(1), 10)
            <= 0x8000_0000 {
            read_i32(s) == Some((-(worth(s.skip(1), 10) as int)) as i32)
        } else {
            read_i32(s) is None
        }),
        !(s.len() > 1 && s[0] == '-') ==> (if s.len() > 0 && all_digits(digits_of(s), 10) && worth(
            digits_of(s),
            10,
        ) <= 0x7fff_ffff {
            read_i32(s) == Some(worth(digits_of(s), 10) as i32)
        } else {
            read_i32(s) is None
        }),
{
    if s.len() > 1 && s[0] == '-' {
        let d = s.skip(1);
        assert(d.take(0) =~= Seq::<char>::empty());
        assert(d.skip(0) =~= d);
        lemma_read_digits(d, 0, 10, 0x8000_0000);
    } else {
        a_number_reads_as_its_digits_are_worth(s, 10, 0x7fff_ffff, 0);
    }
}

/// What is said of a text that is no number.
pub proof fn what_is_said_of_a_text_that_is_no_number()
    ensures
        NumberError::Empty.message() == "cannot parse integer from empty string"@,
        NumberError::InvalidDigit.message() == "invalid digit found in string"@,
        NumberError::TooLarge.message() == "number too large to fit in target type"@,
{
}

// ---------------------------------------------------------------------------
// Words and lines
// ---------------------------------------------------------------------------

/// Whether a text is made of whitespace only.
pub open spec fn all_space(s: Seq<char>) -> bool {
    forall|i: int| 0 <= i < s.len() ==> is_space(#[trigger] s[i])
}

/// Whether a text holds no whitespace.
pub open spec fn no_space(s: Seq<char>) -> bool {
    forall|i: int| 0 <= i < s.len() ==> !is_space(#[trigger] s[i])
}

/// The whitespace characters of Unicode.
pub proof fn what_is_whitespace(c: char)
    ensures
        is_space(c) <==> {
            let u = c as nat;
            ||| 0x09 <= u <= 0x0d
            ||| u == 0x20 || u == 0x85 || u == 0xa0 || u == 0x1680
            ||| 0x2000 <= u <= 0x200a
            ||| u == 0x2028 || u == 0x2029 || u == 0x202f || u == 0x205f || u == 0x3000
        },
{
}

proof fn lemma_token_len(word: Seq<char>, tail: Seq<char>)
    requires
        no_space(word),
        tail.len() == 0 || is_space(tail[0]),
    ensures
        token_len(word + tail) == word.len(),
    decreases word.len(),
{
    if word.len() == 0 {
        assert(word + tail =~= tail);
    } else {
        assert((word + tail)[0] == word[0]);
        assert((word + tail).skip(1) =~= word.skip(1) + tail);
        assert(!is_space(word[0]));
        assert forall|i: int| 0 <= i < word.skip(1).len() implies !is_space(
            #[trigger] word.skip(1)[i],
        ) by {
            assert(word.skip(1)[i] == word[i + 1]);
        }
        lemma_token_len(word.skip(1), tail);
    }
}

/// Words are what stands between whitespace: a text that starts with a word, after
/// any whitespace, has that word and then the words of what follows; and whitespace
/// alone has none.
pub proof fn words_stand_between_whitespace(gap: Seq<char>, word: Seq<char>, tail: Seq<char>)
    requires
        all_space(gap),
        no_space(word),
        word.len() > 0,
        tail.len() == 0 || is_space(tail[0]),
    ensures
        tokens(gap + word + tail) == seq![word] + tokens(tail),
        tokens(gap) == Seq::<Seq<char>>::empty(),
    decreases gap.len(),
{
    let s = gap + word + tail;
    if gap.len() == 0 {
        assert(s =~= word + tail);
        lemma_token_len(word, tail);
        assert(s.take(word.len() as int) =~= word);
        assert(s.skip(word.len() as int) =~= tail);
    } else {
        assert(s[0] == gap[0]);
        assert(is_space(gap[0]));
        assert(s.skip(1) =~= gap.skip(1) + word + tail);
        assert forall|i: int| 0 <= i < gap.skip(1).len() implies is_space(
            #[trigger] gap.skip(1)[i],
        ) by {
            assert(gap.skip(1)[i] == gap[i + 1]);
        }
        words_stand_between_whitespace(gap.skip(1), word, tail);
    }
}

/// Whether a line starts at `k`.
pub open spec fn line_starts(s: Seq<char>, k: int) -> bool {
    0 <= k <= s.len() && (k == 0 || s[k - 1] == '\n')
}

proof fn lemma_line_len(s: Seq<char>)
    ensures
        line_len(s) <= s.len(),
        !s.take(line_len(s) as int).contains('\n'),
        line_len(s) < s.len() ==> s[line_len(s) as int] == '\n',
    decreases s.len(),
{
    if s.len() > 0 && s[0] != '\n' {
        let rest = s.skip(1);
        lemma_line_len(rest);
        let line = s.take(line_len(s) as int);
        if line.contains('\n') {
            let i = choose|i: int| 0 <= i < line.len() && line[i] == '\n';
            assert(rest.take(line_len(rest) as int)[i - 1] == '\n');
        }
    }
}

/// A line goes up to the next line feed, or to the end.
pub proof fn a_line_ends_at_the_line_feed(line: Seq<char>, tail: Seq<char>)
    requires
        !line.contains('\n'),
        tail.len() == 0 || tail[0] == '\n',
    ensures
        (line + tail).take(line_len(line + tail) as int) == line,
{
    let s = line + tail;
    lemma_line_len(s);
    let n = line_len(s) as int;
    if n < line.len() {
        assert(s[n] == line[n]);
        assert(line.contains('\n'));
    } else if n > line.len() {
        assert(s.take(n)[line.len() as int] == tail[0]);
    }
    assert(s.take(n) =~= line);
}

proof fn lemma_prefix_of_line(s: Seq<char>, prefix: Seq<char>)
    requires
        !prefix.contains('\n'),
    ensures
        prefix.is_prefix_of(s.take(line_len(s) as int)) <==> prefix.is_prefix_of(s),
{
    lemma_line_len(s);
    let line = s.take(line_len(s) as int);
    if prefix.is_prefix_of(s) {
        if prefix.len() > line.len() {
            assert(s[line.len() as int] == '\n');
            assert(prefix[line.len() as int] == s[line.len() as int]);
            assert(prefix.contains('\n'));
        }
        assert(prefix =~= line.subrange(0, prefix.len() as int));
    }
    if prefix.is_prefix_of(line) {
        assert(prefix =~= s.subrange(0, prefix.len() as int));
    }
}

/// The line that is found is the first one that starts with the prefix.
pub proof fn the_first_such_line_is_found(s: Seq<char>, prefix: Seq<char>, k: int)
    requires
        !prefix.contains('\n'),
        prefix.len() > 0,
    ensures
        line_starts(s, k) && prefix.is_prefix_of(s.skip(k)) && (forall|j: int|
            0 <= j < k && #[trigger] line_starts(s, j) ==> !prefix.is_prefix_of(s.skip(j)))
            ==> line_with(s, prefix) == Some(s.skip(k).take(line_len(s.skip(k)) as int)),
        (forall|j: int| #[trigger] line_starts(s, j) ==> !prefix.is_prefix_of(s.skip(j)))
            ==> line_with(s, prefix) is None,
    decreases s.len(),
{
    let n = line_len(s) as int;
    lemma_line_len(s);
    lemma_prefix_of_line(s, prefix);
    assert(s.skip(0) =~= s);
    assert(line_starts(s, 0));
    if !prefix.is_prefix_of(s) && n < s.len() {
        let rest = s.skip(n + 1);
        assert forall|j: int| #[trigger] line_starts(rest, j) implies line_starts(s, j + n + 1)
            && rest.skip(j) == s.skip(j + n + 1) by {
            assert(rest.skip(j) =~= s.skip(j + n + 1));
        }
        assert forall|j: int| 0 < j <= n && #[trigger] line_starts(s, j) implies false by {
            assert(s.take(n)[j - 1] == '\n');
        }
        the_first_such_line_is_found(rest, prefix, k - n - 1);
        if line_starts(s, k) && prefix.is_prefix_of(s.skip(k)) {
            assert(k > n);
            assert(rest.skip(k - n - 1) =~= s.skip(k));
            assert(line_starts(rest, k - n - 1));
        }
    } else if !prefix.is_prefix_of(s) {
        assert forall|j: int| 0 < j <= n && #[trigger] line_starts(s, j) implies false by {
            assert(s.take(n)[j - 1] == '\n');
        }
    }
}

/// The number of threads is the second word of the first line that starts with
/// `Threads:`. Without such a line there is none, and a line without a second word,
/// or with one that is no number, is malformed.
pub proof fn the_number_of_threads_is_the_second_word(status: Seq<char>, line: Seq<char>)
    ensures
        line_with(status, "Threads:"@) is None ==> threads_in(status) == Err::<nat, StatusError>(
            StatusError::NoThreadsLine,
        ),
        line_with(status, "Threads:"@) == Some(line) && tokens(line).len() < 2 ==> threads_in(status)
            == Err::<nat, StatusError>(StatusError::MalformedThreadsLine),
        line_with(status, "Threads:"@) == Some(line) && tokens(line).len() >= 2 ==> (
        match read_unsigned(tokens(line)[1], 10, usize::MAX as nat) {
            Ok(n) => threads_in(status) == Ok::<nat, StatusError>(n),
            Err(_) => threads_in(status) == Err::<nat, StatusError>(
                StatusError::MalformedThreadsLine,
            ),
        }),
        StatusError::NoThreadsLine.message() == "no Threads: line"@,
        StatusError::MalformedThreadsLine.message() == "malformed Threads: line"@,
{
}

/// What is said of a process that does not have one thread.
pub proof fn what_is_said_of_several_threads(caller: Seq<char>, count: nat)
    ensures
        violation_text(caller, count) == caller + ": "@ + numeral(count, 10)
            + " threads running (expected 1). Call "@ + caller
            + " before spawning threads, async runtimes, or libraries with background threads."@,
        unknown_text(caller) == caller
            + ": cannot determine thread count to verify single-threadedness"@,
{
}

// ---------------------------------------------------------------------------
// Paths
// ---------------------------------------------------------------------------

/// A path is absolute exactly if its first byte is `/`.
pub proof fn an_absolute_path_starts_with_a_slash(p: Seq<u8>)
    ensures
        absolute(p) <==> p.len() > 0 && p[0] == 47u8,
{
}

/// Two paths lead to the same file exactly if their canonical forms are the same, or,
/// where one of them has none, if they are spelled alike.
pub proof fn same_files_have_the_same_canonical_path(
    a: Seq<u8>,
    a_canonical: Option<Seq<u8>>,
    b: Seq<u8>,
    b_canonical: Option<Seq<u8>>,
)
    ensures
        a_canonical is Some && b_canonical is Some ==> (same_file(a, a_canonical, b, b_canonical)
            <==> a_canonical == b_canonical),
        a_canonical is None || b_canonical is None ==> (same_file(a, a_canonical, b, b_canonical)
            <==> a == b),
        same_file(a, a_canonical, b, b_canonical) == same_file(b, b_canonical, a, a_canonical),
{
}

/// A slash at the end, or a `.` behind a slash, says nothing: a path without them is
/// left alone, and they are taken off any other one but the root.
pub proof fn trailing_slashes_and_dots_say_nothing(p: Seq<u8>)
    ensures
        p.len() > 0 ==> trimmed(p + seq![47u8]) == trimmed(p),
        p.len() > 0 ==> trimmed(p + seq![47u8, 46u8]) == trimmed(p),
        trimmed(seq![47u8]) == seq![47u8],
        trimmed(seq![47u8, 46u8]) == seq![47u8],
        p.len() == 0 || (p.last() != 47u8 && !(p.last() == 46u8 && p.len() > 1 && p[p.len() - 2]
            == 47u8)) ==> trimmed(p) == p,
{
    if p.len() > 0 {
        let a = p + seq![47u8];
        let b = p + seq![47u8, 46u8];
        assert(a.drop_last() =~= p);
        assert(b.drop_last() =~= a);
        assert(b[b.len() - 2] == 47u8);
        assert(trimmed(b) == trimmed(a));
    }
    let root = seq![47u8];
    let dot = seq![47u8, 46u8];
    assert(dot.drop_last() =~= root);
    assert(trimmed(dot) == trimmed(root));
}

proof fn lemma_name_start(dir: Seq<u8>, name: Seq<u8>)
    requires
        dir.len() == 0 || dir.last() == 47u8,
        !name.contains(47u8),
    ensures
        name_start(dir + name) == dir.len(),
    decreases name.len(),
{
    let p = dir + name;
    if name.len() == 0 {
        assert(p =~= dir);
    } else {
        assert(p.last() == name.last());
        assert(name.contains(name[name.len() - 1]));
        assert(p.drop_last() =~= dir + name.drop_last());
        assert(!name.drop_last().contains(47u8)) by {
            if name.drop_last().contains(47u8) {
                let i = choose|i: int| 0 <= i < name.drop_last().len() && name.drop_last()[i] == 47u8;
                assert(name[i] == 47u8);
            }
        }
        lemma_name_start(dir, name.drop_last());
    }
}

/// Whether bytes are a component of a path that leads somewhere: not empty, without a
/// slash, and not `.`.
pub open spec fn is_component(name: Seq<u8>) -> bool {
    name.len() > 0 && !name.contains(47u8) && name != seq![46u8]
}

proof fn lemma_component_end(dir: Seq<u8>, name: Seq<u8>)
    requires
        dir.len() == 0 || dir.last() == 47u8,
        is_component(name),
    ensures
        trimmed(dir + name) == dir + name,
{
    let p = dir + name;
    assert(p.last() == name.last());
    assert(name.contains(name[name.len() - 1]));
    if p.last() == 46u8 && p.len() > 1 && p[p.len() - 2] == 47u8 {
        if name.len() == 1 {
            assert(name =~= seq![46u8]);
        } else {
            assert(p[p.len() - 2] == name[name.len() - 2]);
            assert(name.contains(name[name.len() - 2]));
        }
    }
}

/// The parent of a path is what stands before its last component, without the slashes
/// in between; of a path with one component it is the root or nothing; the root and
/// the empty path have none; and slashes and dots at the end do not matter.
pub proof fn the_parent_stands_before_the_last_component(dir: Seq<u8>, name: Seq<u8>, p: Seq<u8>)
    requires
        is_component(name),
    ensures
        parent_path(dir + seq![47u8] + name) == Some(trimmed(dir + seq![47u8])),
        dir.len() > 0 ==> parent_path(dir + seq![47u8] + name) == Some(trimmed(dir)),
        parent_path(seq![47u8] + name) == Some(seq![47u8]),
        parent_path(name) == Some(Seq::<u8>::empty()),
        parent_path(seq![47u8]) is None,
        parent_path(Seq::<u8>::empty()) is None,
        p.len() > 0 ==> parent_path(p + seq![47u8]) == parent_path(p),
        p.len() > 0 ==> parent_path(p + seq![47u8, 46u8]) == parent_path(p),
{
    let slash = seq![47u8];
    let none = Seq::<u8>::empty();
    trailing_slashes_and_dots_say_nothing(dir);
    trailing_slashes_and_dots_say_nothing(p);
    assert forall|before: Seq<u8>| before.len() == 0 || before.last() == 47u8 implies #[trigger]
        parent_path(before + name) == Some(trimmed(before)) by {
        let all = before + name;
        lemma_component_end(before, name);
        lemma_name_start(before, name);
        assert(all.take(before.len() as int) =~= before);
        assert(all != slash) by {
            assert(all.last() == name.last());
            assert(name.contains(name[name.len() - 1]));
            assert(slash.last() == 47u8);
        }
    }
    assert(dir + slash + name =~= (dir + slash) + name);
    assert(parent_path((dir + slash) + name) == Some(trimmed(dir + slash)));
    assert(parent_path(slash + name) == Some(trimmed(slash)));
    assert(none + name =~= name);
    assert(parent_path(none + name) == Some(trimmed(none)));
    assert(trimmed(none) =~= none);
}

proof fn lemma_extension_dot_at(stem: Seq<u8>, ext: Seq<u8>)
    requires
        stem.len() > 0,
        !ext.contains(46u8),
    ensures
        extension_dot(stem + seq![46u8] + ext) == Some(stem.len()),
    decreases ext.len(),
{
    let name = stem + seq![46u8] + ext;
    if ext.len() == 0 {
        assert(name.last() == 46u8);
    } else {
        assert(name.last() == ext.last());
        assert(ext.contains(ext[ext.len() - 1]));
        assert(name.drop_last() =~= stem + seq![46u8] + ext.drop_last());
        assert(!ext.drop_last().contains(46u8)) by {
            if ext.drop_last().contains(46u8) {
                let i = choose|i: int| 0 <= i < ext.drop_last().len() && ext.drop_last()[i] == 46u8;
                assert(ext[i] == 46u8);
            }
        }
        lemma_extension_dot_at(stem, ext.drop_last());
    }
}

proof fn lemma_extension_dot_is(name: Seq<u8>)
    ensures
        extension_dot(name) matches Some(d) ==> 1 <= d < name.len() && name[d as int] == 46u8
            && !name.skip(d as int + 1).contains(46u8),
        extension_dot(name) is None ==> !name.skip(1).contains(46u8) || name.len() == 0,
    decreases name.len(),
{
    if name.len() > 1 {
        if name.last() == 46u8 {
            assert(name.skip(name.len() as int).len() == 0);
        } else {
            let rest = name.drop_last();
            lemma_extension_dot_is(rest);
            match extension_dot(rest) {
                Some(d) => {
                    let tail = name.skip(d as int + 1);
                    if tail.contains(46u8) {
                        let i = choose|i: int| 0 <= i < tail.len() && tail[i] == 46u8;
                        assert(i < tail.len() - 1);
                        assert(rest.skip(d as int + 1)[i] == 46u8);
                    }
                },
                None => {
                    let tail = name.skip(1);
                    if tail.contains(46u8) {
                        let i = choose|i: int| 0 <= i < tail.len() && tail[i] == 46u8;
                        assert(i < tail.len() - 1);
                        assert(rest.skip(1)[i] == 46u8);
                    }
                },
            }
        }
    } else if name.len() == 1 {
        assert(name.skip(1).len() == 0);
    }
}

/// The extension of a file is what stands behind the last dot of its name, unless the
/// name starts with that dot; and it is replaced alone.
pub proof fn the_extension_stands_behind_the_last_dot(
    dir: Seq<u8>,
    stem: Seq<u8>,
    ext: Seq<u8>,
    other: Seq<u8>,
)
    requires
        dir.len() == 0 || dir.last() == 47u8,
        stem.len() > 0,
        !stem.contains(47u8),
        !ext.contains(47u8),
        !ext.contains(46u8),
        ext.len() > 0,
    ensures
        extension(dir + stem + seq![46u8] + ext) == Some(ext),
        replace_extension(dir + stem + seq![46u8] + ext, other) == dir + stem + seq![46u8] + other,
{
    let name = stem + seq![46u8] + ext;
    let p = dir + name;
    assert(dir + stem + seq![46u8] + ext =~= p);
    assert(!name.contains(47u8)) by {
        if name.contains(47u8) {
            let i = choose|i: int| 0 <= i < name.len() && name[i] == 47u8;
            if i < stem.len() {
                assert(stem[i] == 47u8);
            } else if i > stem.len() {
                assert(ext[i - stem.len() - 1] == 47u8);
            }
        }
    }
    assert(name.len() >= 3);
    assert(name != seq![46u8] && name != seq![46u8, 46u8]) by {
        assert(seq![46u8].len() == 1 && seq![46u8, 46u8].len() == 2);
    }
    lemma_component_end(dir, name);
    lemma_name_start(dir, name);
    lemma_extension_dot_at(stem, ext);
    assert(p.skip(dir.len() as int) =~= name);
    assert(name.skip(stem.len() as int + 1) =~= ext);
    assert(p.take((dir.len() + stem.len()) as int) + seq![46u8] + other =~= dir + stem + seq![46u8]
        + other);
}

/// A file whose name has no dot, or only one at its start, has no extension; nor has a
/// path that ends in `..` or is the root.
pub proof fn a_name_without_a_dot_has_no_extension(dir: Seq<u8>, name: Seq<u8>)
    requires
        dir.len() == 0 || dir.last() == 47u8,
        is_component(name),
    ensures
        !name.skip(1).contains(46u8) ==> extension(dir + name) is None,
        name == seq![46u8, 46u8] ==> extension(dir + name) is None,
        extension(seq![47u8]) is None,
{
    let p = dir + name;
    lemma_component_end(dir, name);
    lemma_name_start(dir, name);
    assert(p.skip(dir.len() as int) =~= name);
    lemma_extension_dot_is(name);
    if let Some(d) = extension_dot(name) {
        assert(name.skip(1)[d as int - 1] == 46u8);
    }
    let root = seq![47u8];
    assert(root.skip(1).len() == 0);
    assert(name_start(root) == 1);
    assert(file_name(root) is None);
}

} // verus!
