//! Characters and character sequences: cutting a line into tokens, a token
//! into pieces, and reading a number, each with the definition it is proved
//! against.

use itertools::Itertools;
use vstd::prelude::*;
use vstd::slice::slice_subrange;

verus! {

/// Whether `c` separates tokens: the twenty-five code points that Unicode
/// counts as white space.
pub open spec fn is_space(c: char) -> bool {
    let n = c as u32;
    ||| 0x09 <= n <= 0x0d
    ||| n == 0x20
    ||| n == 0x85
    ||| n == 0xa0
    ||| n == 0x1680
    ||| 0x2000 <= n <= 0x200a
    ||| n == 0x2028
    ||| n == 0x2029
    ||| n == 0x202f
    ||| n == 0x205f
    ||| n == 0x3000
}

/// Whether `c` is one of the ten ASCII digits.
pub open spec fn is_digit(c: char) -> bool {
    '0' <= c <= '9'
}

/// The first position at or after `i` whose character satisfies `p`, or the
/// length of `s` where there is none.
pub open spec fn first_at(s: Seq<char>, p: spec_fn(char) -> bool, i: int) -> int
    decreases s.len() - i,
{
    if 0 <= i < s.len() && !p(s[i]) {
        first_at(s, p, i + 1)
    } else {
        i
    }
}

/// `first_at` lies between `i` and the length, nothing before it satisfies
/// `p`, and the character at it does.
pub proof fn lemma_first_at(s: Seq<char>, p: spec_fn(char) -> bool, i: int)
    requires
        0 <= i <= s.len(),
    ensures
        i <= first_at(s, p, i) <= s.len(),
        forall|k: int| i <= k < first_at(s, p, i) ==> !p(#[trigger] s[k]),
        first_at(s, p, i) < s.len() ==> p(s[first_at(s, p, i)]),
    decreases s.len() - i,
{
    if i < s.len() && !p(s[i]) {
        lemma_first_at(s, p, i + 1);
    }
}

/// The first position at or after `i` that holds no separator, or the length.
pub open spec fn skip_spaces(s: Seq<char>, i: int) -> int {
    first_at(s, |c: char| !is_space(c), i)
}

/// The first position at or after `i` that holds a separator, or the length.
pub open spec fn skip_word(s: Seq<char>, i: int) -> int {
    first_at(s, |c: char| is_space(c), i)
}

/// The tokens of `s` that begin at or after `i`: the maximal runs of
/// characters that are no separators, in order.
pub open spec fn tokens_from(s: Seq<char>, i: int) -> Seq<Seq<char>>
    decreases s.len() - i,
    when 0 <= i <= s.len()
    via tokens_from_decreases
{
    let a = skip_spaces(s, i);
    if a < s.len() {
        let b = skip_word(s, a);
        seq![s.subrange(a, b)] + tokens_from(s, b)
    } else {
        Seq::empty()
    }
}

#[via_fn]
proof fn tokens_from_decreases(s: Seq<char>, i: int) {
    lemma_first_at(s, |c: char| !is_space(c), i);
    let a = skip_spaces(s, i);
    if a < s.len() {
        lemma_first_at(s, |c: char| is_space(c), a);
    }
}

/// The tokens of a line: what is left when it is cut at runs of separators.
pub open spec fn tokens(s: Seq<char>) -> Seq<Seq<char>> {
    tokens_from(s, 0)
}

/// What `tokens_from` is at a position: empty where only separators follow,
/// else the next token followed by the tokens after it.
pub proof fn lemma_tokens_step(s: Seq<char>, i: int)
    requires
        0 <= i <= s.len(),
    ensures
        skip_spaces(s, i) >= s.len() ==> tokens_from(s, i) == Seq::<Seq<char>>::empty(),
        skip_spaces(s, i) < s.len() ==> {
            let a = skip_spaces(s, i);
            let b = skip_word(s, a);
            &&& i <= a < b <= s.len()
            &&& tokens_from(s, i) == seq![s.subrange(a, b)] + tokens_from(s, b)
        },
{
    lemma_first_at(s, |c: char| !is_space(c), i);
    let a = skip_spaces(s, i);
    if a < s.len() {
        lemma_first_at(s, |c: char| is_space(c), a);
    }
}

/// Every token holds a character, and none of its characters is a separator.
pub proof fn lemma_tokens_are_words(s: Seq<char>, i: int)
    requires
        0 <= i <= s.len(),
    ensures
        forall|k: int|
            0 <= k < tokens_from(s, i).len() ==> {
                let tok = #[trigger] tokens_from(s, i)[k];
                &&& tok.len() > 0
                &&& forall|j: int| 0 <= j < tok.len() ==> !is_space(#[trigger] tok[j])
            },
    decreases s.len() - i,
{
    lemma_tokens_step(s, i);
    let a = skip_spaces(s, i);
    if a < s.len() {
        let b = skip_word(s, a);
        lemma_first_at(s, |c: char| is_space(c), a);
        lemma_tokens_are_words(s, b);
    }
}

/// The first position at or after `i` that holds `sep`, or the length.
pub open spec fn find(s: Seq<char>, sep: char, i: int) -> int {
    first_at(s, |c: char| c == sep, i)
}

/// `find` lies between `i` and the length, nothing before it is `sep`, and
/// the character at it is.
pub proof fn lemma_find(s: Seq<char>, sep: char, i: int)
    requires
        0 <= i <= s.len(),
    ensures
        i <= find(s, sep, i) <= s.len(),
        forall|k: int| i <= k < find(s, sep, i) ==> #[trigger] s[k] != sep,
        find(s, sep, i) < s.len() ==> s[find(s, sep, i)] == sep,
    decreases s.len() - i,
{
    if i < s.len() && s[i] != sep {
        lemma_find(s, sep, i + 1);
    }
}

/// The pieces of `s` from position `i` on, cut at every `sep`: one more than
/// there are separators, empty pieces included.
pub open spec fn pieces_from(s: Seq<char>, sep: char, i: int) -> Seq<Seq<char>>
    decreases s.len() - i,
    when 0 <= i <= s.len()
    via pieces_from_decreases
{
    let j = find(s, sep, i);
    if j < s.len() {
        seq![s.subrange(i, j)] + pieces_from(s, sep, j + 1)
    } else {
        seq![s.subrange(i, s.len() as int)]
    }
}

#[via_fn]
proof fn pieces_from_decreases(s: Seq<char>, sep: char, i: int) {
    lemma_find(s, sep, i);
}

/// The pieces of a token cut at every `sep`.
pub open spec fn pieces(s: Seq<char>, sep: char) -> Seq<Seq<char>> {
    pieces_from(s, sep, 0)
}

/// There is at least one piece.
pub proof fn lemma_pieces_exist(s: Seq<char>, sep: char, i: int)
    requires
        0 <= i <= s.len(),
    ensures
        pieces_from(s, sep, i).len() >= 1,
{
    lemma_find(s, sep, i);
}

/// A token that is cut into two pieces is the first piece, the separator and
/// the second piece, and neither piece holds the separator.
pub proof fn lemma_two_pieces(s: Seq<char>, sep: char)
    requires
        pieces(s, sep).len() == 2,
    ensures
        s == pieces(s, sep)[0] + seq![sep] + pieces(s, sep)[1],
        !pieces(s, sep)[0].contains(sep),
        !pieces(s, sep)[1].contains(sep),
{
    lemma_find(s, sep, 0);
    let j = find(s, sep, 0);
    lemma_find(s, sep, j + 1);
    let k = find(s, sep, j + 1);
    if k < s.len() {
        lemma_pieces_exist(s, sep, k + 1);
        assert(pieces_from(s, sep, j + 1) == seq![s.subrange(j + 1, k)] + pieces_from(
            s,
            sep,
            k + 1,
        ));
    }
    assert(pieces_from(s, sep, j + 1) == seq![s.subrange(j + 1, s.len() as int)]);
}

/// The number that a character stands for as a decimal digit.
pub open spec fn digit_value(c: char) -> nat {
    if is_digit(c) {
        (c as u32 - '0' as u32) as nat
    } else {
        0
    }
}

/// The number that a sequence of digits writes in base ten.
pub open spec fn decimal(s: Seq<char>) -> nat
    decreases s.len(),
{
    if s.len() == 0 {
        0
    } else {
        decimal(s.drop_last()) * 10 + digit_value(s.last())
    }
}

/// Whether every character of `s` is a digit.
pub open spec fn all_digits(s: Seq<char>) -> bool {
    forall|i: int| 0 <= i < s.len() ==> is_digit(#[trigger] s[i])
}

/// The text of a number without the plus sign that may lead it.
pub open spec fn unsigned_part(s: Seq<char>) -> Seq<char> {
    if s.len() > 0 && s[0] == '+' {
        s.skip(1)
    } else {
        s
    }
}

/// The 32-bit number that `s` writes: an optional plus sign, then one or more
/// digits whose value fits. `None` for any other text.
pub open spec fn u32_of(s: Seq<char>) -> Option<u32> {
    let d = unsigned_part(s);
    if d.len() > 0 && all_digits(d) && decimal(d) <= u32::MAX {
        Some(decimal(d) as u32)
    } else {
        None
    }
}

/// The character that writes a digit.
pub open spec fn digit_char(d: nat) -> char {
    if d == 0 {
        '0'
    } else if d == 1 {
        '1'
    } else if d == 2 {
        '2'
    } else if d == 3 {
        '3'
    } else if d == 4 {
        '4'
    } else if d == 5 {
        '5'
    } else if d == 6 {
        '6'
    } else if d == 7 {
        '7'
    } else if d == 8 {
        '8'
    } else {
        '9'
    }
}

/// A number written in base ten, without leading zeros.
pub open spec fn decimal_text(n: nat) -> Seq<char>
    decreases n,
{
    if n < 10 {
        seq![digit_char(n)]
    } else {
        decimal_text(n / 10).push(digit_char(n % 10))
    }
}

/// What is written for a number reads back as that number.
pub proof fn lemma_decimal_text(n: nat)
    ensures
        decimal_text(n).len() >= 1,
        all_digits(decimal_text(n)),
        decimal(decimal_text(n)) == n,
    decreases n,
{
    if n < 10 {
        assert(decimal(decimal_text(n).drop_last()) == 0);
    } else {
        lemma_decimal_text(n / 10);
        assert(decimal_text(n).drop_last() =~= decimal_text(n / 10));
    }
}

/// A longer sequence writes no smaller number than its beginning.
pub proof fn lemma_decimal_grows(s: Seq<char>, k: int)
    requires
        0 <= k <= s.len(),
    ensures
        decimal(s.take(k)) <= decimal(s),
    decreases s.len(),
{
    if k == s.len() {
        assert(s.take(k) =~= s);
    } else {
        lemma_decimal_grows(s.drop_last(), k);
        assert(s.drop_last().take(k) =~= s.take(k));
    }
}

/// Copies the characters of `input` into `buf`, replacing what it held.
pub fn fill(buf: &mut Vec<char>, input: &str)
    ensures
        final(buf)@ == input@,
{
    buf.clear();
    for c in it: input.chars()
        invariant
            buf@ == it.seq().take(it.index() as int),
            it.seq() == input@,
    {
        buf.push(c);
    }
}

/// The code point of a character, which is at most 0x10ffff.
pub fn code_point(c: char) -> (r: u64)
    ensures
        r == c as u64,
        r <= 0x10_ffff,
{
    c as u64
}

/// Tests a character for being a separator.
pub fn is_whitespace(c: char) -> (r: bool)
    ensures
        r == is_space(c),
{
    let n: u32 = c as u32;
    (0x09 <= n && n <= 0x0d) || n == 0x20 || n == 0x85 || n == 0xa0 || n == 0x1680 || (0x2000 <= n
        && n <= 0x200a) || n == 0x2028 || n == 0x2029 || n == 0x202f || n == 0x205f || n == 0x3000
}

/// Finds the first token of `line` that begins at or after `from`, and the
/// position at which it ends.
pub fn next_token<'a>(line: &'a [char], from: usize) -> (r: Option<(&'a [char], usize)>)
    ensures
        match r {
            Some((tok, end)) => {
                let a = skip_spaces(line@, from as int);
                &&& from <= a < end <= line@.len()
                &&& end == skip_word(line@, a)
                &&& tok@ == line@.subrange(a, end as int)
            },
            None => skip_spaces(line@, from as int) >= line@.len(),
        },
{
    let n = line.len();
    if from >= n {
        return None;
    }
    let mut a: usize = from;
    while a < n && is_whitespace(line[a])
        invariant
            from <= a <= n,
            n == line@.len(),
            skip_spaces(line@, from as int) == skip_spaces(line@, a as int),
        decreases n - a,
    {
        a += 1;
    }
    if a >= n {
        return None;
    }
    let mut b: usize = a + 1;
    while b < n && !is_whitespace(line[b])
        invariant
            a < b <= n,
            n == line@.len(),
            skip_word(line@, a as int) == skip_word(line@, b as int),
        decreases n - b,
    {
        b += 1;
    }
    Some((slice_subrange(line, a, b), b))
}

/// `String::push` of std: the string afterwards is the string before with
/// `ch` added at its end.
pub assume_specification[ String::push ](s: &mut String, ch: char)
    ensures
        final(s)@ == old(s)@.push(ch),
;

/// Adds the characters of `chars` at the end of `s`.
pub fn push_all(s: &mut String, chars: &[char])
    ensures
        final(s)@ == old(s)@ + chars@,
{
    let n = chars.len();
    let mut i: usize = 0;
    while i < n
        invariant
            i <= n,
            n == chars@.len(),
            s@ == old(s)@ + chars@.take(i as int),
        decreases n - i,
    {
        s.push(chars[i]);
        i += 1;
    }
}

/// The character that writes the digit `d`.
fn digit(d: u8) -> (r: char)
    requires
        d < 10,
    ensures
        r == digit_char(d as nat),
{
    match d {
        0 => '0',
        1 => '1',
        2 => '2',
        3 => '3',
        4 => '4',
        5 => '5',
        6 => '6',
        7 => '7',
        8 => '8',
        _ => '9',
    }
}

/// Adds `n`, written in base ten, at the end of `s`.
pub fn push_decimal(s: &mut String, n: u64)
    ensures
        final(s)@ == old(s)@ + decimal_text(n as nat),
{
    let mut digits: Vec<char> = Vec::new();
    let mut rest: u64 = n;
    while rest >= 10
        invariant
            decimal_text(n as nat) == decimal_text(rest as nat) + digits@.reverse(),
        decreases rest,
    {
        let d = digit((rest % 10) as u8);
        assert(decimal_text((rest / 10) as nat).push(d) + digits@.reverse() =~= decimal_text(
            (rest / 10) as nat,
        ) + digits@.push(d).reverse());
        digits.push(d);
        rest = rest / 10;
    }
    s.push(digit(rest as u8));
    let ghost head = s@;
    let mut i: usize = digits.len();
    while i > 0
        invariant
            i <= digits@.len(),
            s@ == head + digits@.reverse().take(digits@.len() - i),
        decreases i,
    {
        i -= 1;
        s.push(digits[i]);
    }
}

/// The string made of the characters of `chars`.
pub fn string_of(chars: &[char]) -> (r: String)
    ensures
        r@ == chars@,
{
    let mut s = String::new();
    push_all(&mut s, chars);
    s
}

/// Cuts a token at every `sep`.
pub fn split<'a>(tok: &'a [char], sep: char) -> (r: Vec<&'a [char]>)
    ensures
        r@.len() == pieces(tok@, sep).len(),
        forall|k: int| 0 <= k < r@.len() ==> (#[trigger] r@[k])@ == pieces(tok@, sep)[k],
{
    let n = tok.len();
    let mut parts: Vec<&'a [char]> = Vec::new();
    let mut start: usize = 0;
    let mut i: usize = 0;
    let ghost done: Seq<Seq<char>> = Seq::empty();
    while i < n
        invariant
            start <= i <= n,
            n == tok@.len(),
            find(tok@, sep, start as int) == find(tok@, sep, i as int),
            pieces(tok@, sep) =~= done + pieces_from(tok@, sep, start as int),
            parts@.len() == done.len(),
            forall|k: int| 0 <= k < parts@.len() ==> (#[trigger] parts@[k])@ == done[k],
        decreases n - i,
    {
        if tok[i] == sep {
            let piece = slice_subrange(tok, start, i);
            parts.push(piece);
            proof {
                done = done.push(piece@);
            }
            start = i + 1;
        }
        i += 1;
    }
    let piece = slice_subrange(tok, start, n);
    parts.push(piece);
    parts
}

/// `Itertools::collect_tuple` of itertools, taken at pairs: the two items
/// where the iterator yields exactly two, and `None` where it yields fewer or
/// more.
#[verifier::external_body]
fn collect_pair<'a>(parts: Vec<&'a [char]>) -> (r: Option<(&'a [char], &'a [char])>)
    ensures
        parts@.len() == 2 ==> r == Some((parts@[0], parts@[1])),
        parts@.len() != 2 ==> r is None,
{
    parts.into_iter().collect_tuple()
}

/// Cuts a token into the two pieces around its only `sep`. `None` where the
/// token holds no `sep`, or more than one.
pub fn split_pair<'a>(tok: &'a [char], sep: char) -> (r: Option<(&'a [char], &'a [char])>)
    ensures
        match r {
            Some((a, b)) => {
                &&& pieces(tok@, sep).len() == 2
                &&& a@ == pieces(tok@, sep)[0]
                &&& b@ == pieces(tok@, sep)[1]
            },
            None => pieces(tok@, sep).len() != 2,
        },
{
    collect_pair(split(tok, sep))
}

/// Reads a 32-bit number from its decimal text.
pub fn parse_u32(tok: &[char]) -> (r: Option<u32>)
    ensures
        r == u32_of(tok@),
{
    let n = tok.len();
    let start: usize = if n > 0 && tok[0] == '+' {
        1
    } else {
        0
    };
    if start == n {
        return None;
    }
    let ghost d = unsigned_part(tok@);
    let mut acc: u32 = 0;
    let mut i: usize = start;
    while i < n
        invariant
            start <= i <= n,
            start < n,
            n == tok@.len(),
            d == unsigned_part(tok@),
            d == tok@.skip(start as int),
            all_digits(d.take(i - start)),
            acc == decimal(d.take(i - start)),
        decreases n - i,
    {
        let c = tok[i];
        if !('0' <= c && c <= '9') {
            assert(!is_digit(d[i - start]));
            return None;
        }
        let v: u32 = c as u32 - '0' as u32;
        proof {
            let next = d.take(i - start + 1);
            assert(next.drop_last() =~= d.take(i - start));
            lemma_decimal_grows(d, i - start + 1);
        }
        let wide: u64 = acc as u64 * 10 + v as u64;
        if wide > u32::MAX as u64 {
            return None;
        }
        acc = wide as u32;
        i += 1;
    }
    assert(d.take(n - start) =~= d);
    Some(acc)
}

} // verus!
