//! Text: character classes, column widths, truncation, decimal numbers and the
//! order of names.
//!
//! A string is modelled by the sequence of its characters.
use vstd::prelude::*;
use vstd::utf8::{encode_scalar, encode_utf8};

verus! {

/// `String::push` appends one character.
pub assume_specification [String::push] (s: &mut String, c: char)
    ensures
        final(s)@ == old(s)@.push(c),
;

/// `String::pop` takes the last character away and returns it; it returns `None`
/// for the empty string, which stays empty.
pub assume_specification [String::pop] (s: &mut String) -> (c: Option<char>)
    ensures
        old(s)@.len() == 0 ==> c is None && final(s)@ == old(s)@,
        old(s)@.len() > 0 ==> c == Some(old(s)@.last()) && final(s)@ == old(s)@.drop_last(),
;

/// The characters of `s`, one by one.
pub fn chars_of(s: &str) -> (chars: Vec<char>)
    ensures
        chars@ == s@,
{
    let mut chars: Vec<char> = Vec::new();
    for c in it: s.chars()
        invariant
            it.seq() == s@,
            chars@ == s@.take(it.index()),
    {
        chars.push(c);
        assert(chars@ =~= s@.take(it.index() + 1));
    }
    assert(s@.take(s@.len() as int) =~= s@);
    chars
}

/// Whether `c` has Unicode's `White_Space` property.
pub open spec fn whitespace(c: char) -> bool {
    let code = c as u32;
    ||| 0x09 <= code <= 0x0D
    ||| code == 0x20
    ||| code == 0x85
    ||| code == 0xA0
    ||| code == 0x1680
    ||| 0x2000 <= code <= 0x200A
    ||| code == 0x2028
    ||| code == 0x2029
    ||| code == 0x202F
    ||| code == 0x205F
    ||| code == 0x3000
}

/// Whether `c` is white space.
pub fn is_whitespace(c: char) -> (yes: bool)
    ensures
        yes == whitespace(c),
{
    let code: u32 = c as u32;
    (0x09 <= code && code <= 0x0D) || code == 0x20 || code == 0x85 || code == 0xA0 || code == 0x1680
        || (0x2000 <= code && code <= 0x200A) || code == 0x2028 || code == 0x2029 || code == 0x202F
        || code == 0x205F || code == 0x3000
}

/// Whether `c` is in Unicode's general category `Cc`.
pub open spec fn control(c: char) -> bool {
    let code = c as u32;
    code <= 0x1F || 0x7F <= code <= 0x9F
}

/// Whether `c` is a control character.
pub fn is_control(c: char) -> (yes: bool)
    ensures
        yes == control(c),
{
    let code: u32 = c as u32;
    code <= 0x1F || (0x7F <= code && code <= 0x9F)
}

/// `c` with an upper-case ASCII letter turned into its lower-case one.
pub open spec fn lower(c: char) -> char {
    if 'A' <= c <= 'Z' {
        (c as u32 + 32) as char
    } else {
        c
    }
}

/// A text with its upper-case ASCII letters turned into lower-case ones.
pub open spec fn lowered(s: Seq<char>) -> Seq<char> {
    s.map_values(|c: char| lower(c))
}

/// The lower-case form of an ASCII letter; every other character is its own.
pub fn ascii_lower(c: char) -> (low: char)
    ensures
        low == lower(c),
{
    if 'A' <= c && c <= 'Z' {
        let code: u8 = c as u8;
        (code + 32) as char
    } else {
        c
    }
}

/// The characters of `s` with ASCII letters in lower case.
pub fn lower_chars(s: &str) -> (chars: Vec<char>)
    ensures
        chars@ == lowered(s@),
{
    let mut chars: Vec<char> = Vec::new();
    for c in it: s.chars()
        invariant
            it.seq() == s@,
            chars@ == lowered(s@.take(it.index())),
    {
        chars.push(ascii_lower(c));
        assert(chars@ =~= lowered(s@.take(it.index() + 1)));
    }
    assert(s@.take(s@.len() as int) =~= s@);
    chars
}

/// The character `c`, `count` times.
pub open spec fn run(c: char, count: nat) -> Seq<char> {
    Seq::new(count, |i: int| c)
}

/// A text of `count` characters `c`.
pub fn repeat_char(c: char, count: usize) -> (text: String)
    ensures
        text@ == run(c, count as nat),
{
    let mut text = String::new();
    for i in 0..count
        invariant
            text@ == run(c, i as nat),
    {
        text.push(c);
        assert(text@ =~= run(c, (i + 1) as nat));
    }
    text
}

/// `a - b`, or 0 where `b` is the larger.
pub open spec fn floor_sub(a: nat, b: nat) -> nat {
    if a >= b {
        (a - b) as nat
    } else {
        0
    }
}

/// The number of terminal columns that `c` takes up: two for a code point from
/// U+1F000 on (pictographs), one for any other.
pub open spec fn char_width(c: char) -> nat {
    if c as u32 >= 0x1F000 {
        2
    } else {
        1
    }
}

/// The number of terminal columns that `s` takes up.
pub open spec fn width_of(s: Seq<char>) -> nat
    decreases s.len(),
{
    if s.len() == 0 {
        0
    } else {
        width_of(s.drop_last()) + char_width(s.last())
    }
}

/// Encoding a text extended by one character appends that character's bytes.
pub proof fn lemma_encode_push(s: Seq<char>, c: char)
    ensures
        encode_utf8(s.push(c)) == encode_utf8(s) + encode_scalar(c as u32),
    decreases s.len(),
{
    reveal_with_fuel(encode_utf8, 2);
    if s.len() == 0 {
        assert(s.push(c).drop_first() =~= s);
        assert(encode_utf8(s.push(c)) =~= encode_utf8(s) + encode_scalar(c as u32));
    } else {
        lemma_encode_push(s.drop_first(), c);
        assert(s.push(c).drop_first() =~= s.drop_first().push(c));
        assert(encode_utf8(s.push(c)) =~= encode_utf8(s) + encode_scalar(c as u32));
    }
}

/// A text takes up no more columns than its encoding has bytes.
pub proof fn lemma_width_at_most_bytes(s: Seq<char>)
    ensures
        width_of(s) <= encode_utf8(s).len(),
    decreases s.len(),
{
    if s.len() > 0 {
        lemma_width_at_most_bytes(s.drop_last());
        lemma_encode_push(s.drop_last(), s.last());
        assert(s.drop_last().push(s.last()) =~= s);
        vstd::utf8::char_is_scalar(s.last());
    }
}

/// Joining two texts adds up their widths.
pub proof fn lemma_width_concat(a: Seq<char>, b: Seq<char>)
    ensures
        width_of(a + b) == width_of(a) + width_of(b),
    decreases b.len(),
{
    if b.len() == 0 {
        assert(a + b =~= a);
    } else {
        lemma_width_concat(a, b.drop_last());
        assert((a + b).drop_last() =~= a + b.drop_last());
    }
}

/// A beginning of a text is no wider than the text.
pub proof fn lemma_width_take(s: Seq<char>, n: int)
    requires
        0 <= n <= s.len(),
    ensures
        width_of(s.take(n)) <= width_of(s),
{
    assert(s =~= s.take(n) + s.skip(n));
    lemma_width_concat(s.take(n), s.skip(n));
}

/// A run of narrow characters is as wide as it is long.
pub proof fn lemma_width_run(c: char, count: nat)
    requires
        char_width(c) == 1,
    ensures
        width_of(run(c, count)) == count,
    decreases count,
{
    if count > 0 {
        lemma_width_run(c, (count - 1) as nat);
        assert(run(c, count).drop_last() =~= run(c, (count - 1) as nat));
    }
}

/// The number of terminal columns that `s` takes up.
pub fn display_width(s: &str) -> (columns: usize)
    ensures
        columns == width_of(s@),
{
    let bytes: usize = s.as_bytes().len();
    let mut columns: usize = 0;
    proof {
        lemma_width_at_most_bytes(s@);
    }
    for c in it: s.chars()
        invariant
            it.seq() == s@,
            columns == width_of(s@.take(it.index())),
            width_of(s@) <= bytes,
    {
        proof {
            let next = s@.take(it.index() + 1);
            assert(next.drop_last() =~= s@.take(it.index()));
            lemma_width_take(s@, it.index() + 1);
        }
        let code: u32 = c as u32;
        if code >= 0x1F000 {
            columns = columns + 2;
        } else {
            columns = columns + 1;
        }
    }
    assert(s@.take(s@.len() as int) =~= s@);
    columns
}

/// `value` cut to `max_len` characters: where it is longer, `~` stands in place
/// of what was cut off, and nothing is left if there is no room for both.
pub open spec fn truncated(value: Seq<char>, max_len: nat) -> Seq<char> {
    if value.len() <= max_len {
        value
    } else if max_len <= 1 {
        Seq::empty()
    } else {
        value.take(max_len - 1).push('~')
    }
}

/// `value` cut to at most `max_len` characters, with a closing `~` where
/// something was cut off.
pub fn truncate(value: &str, max_len: usize) -> (cut: String)
    ensures
        cut@ == truncated(value@, max_len as nat),
{
    if value.unicode_len() <= max_len {
        return value.to_owned();
    }
    if max_len <= 1 {
        return String::new();
    }
    let kept: usize = max_len - 1;
    let mut cut = value.substring_char(0, kept).to_owned();
    cut.push('~');
    assert(value@.subrange(0, kept as int) =~= value@.take(max_len - 1));
    cut
}

/// A cut text has at most the characters that there is room for, and is the text itself if
/// and only if that has no more.
pub proof fn truncation_fits(value: Seq<char>, max_len: nat)
    ensures
        truncated(value, max_len).len() <= max_len,
        truncated(value, max_len) == value <==> value.len() <= max_len,
{
}

/// Cutting a text that was cut before gives what cutting the text itself gives, if it is
/// cut to no more characters than before; so cutting it twice alike changes nothing.
pub proof fn truncation_settles(value: Seq<char>, first_len: nat, second_len: nat)
    requires
        second_len <= first_len,
    ensures
        truncated(truncated(value, first_len), second_len) == truncated(value, second_len),
{
}

/// The character for the digit `d`.
pub open spec fn digit(d: nat) -> char {
    (48 + d) as char
}

/// `n` in decimal, without leading zeros.
pub open spec fn decimal(n: nat) -> Seq<char>
    decreases n,
{
    if n < 10 {
        seq![digit(n)]
    } else {
        decimal(n / 10).push(digit(n % 10))
    }
}

/// `n` in decimal, with a leading zero where it has one digit.
pub open spec fn two_digits(n: nat) -> Seq<char> {
    if n < 10 {
        seq!['0'] + decimal(n)
    } else {
        decimal(n)
    }
}

/// Different numbers are written differently.
pub proof fn decimal_is_injective(a: nat, b: nat)
    requires
        decimal(a) == decimal(b),
    ensures
        a == b,
    decreases a,
{
    lemma_decimal_len(a / 10);
    lemma_decimal_len(b / 10);
    assert(decimal(a).last() == digit(a % 10));
    assert(decimal(b).last() == digit(b % 10));
    assert(digit(a % 10) as u32 == 48 + a % 10);
    assert(digit(b % 10) as u32 == 48 + b % 10);
    if a >= 10 && b >= 10 {
        assert(decimal(a).drop_last() =~= decimal(a / 10));
        assert(decimal(b).drop_last() =~= decimal(b / 10));
        decimal_is_injective(a / 10, b / 10);
    }
}

/// A number has a digit.
proof fn lemma_decimal_len(n: nat)
    ensures
        decimal(n).len() >= 1,
{
}

/// Appends `n` in decimal to `text`.
pub fn push_decimal(text: &mut String, n: u64)
    ensures
        final(text)@ == old(text)@ + decimal(n as nat),
    decreases n,
{
    if n >= 10 {
        push_decimal(text, n / 10);
    }
    let d: u8 = (n % 10) as u8;
    text.push((48 + d) as char);
    assert(text@ =~= old(text)@ + decimal(n as nat));
}

/// Appends `n` in decimal to `text`, with a leading zero where it has one digit.
pub fn push_two_digits(text: &mut String, n: u64)
    ensures
        final(text)@ == old(text)@ + two_digits(n as nat),
{
    if n < 10 {
        text.push('0');
    }
    push_decimal(text, n);
    assert(text@ =~= old(text)@ + two_digits(n as nat));
}

/// Whether `a` comes before `b` in the order of strings: character by character,
/// a proper beginning before the longer text.
pub open spec fn lex_less(a: Seq<char>, b: Seq<char>) -> bool
    decreases a.len(),
{
    if b.len() == 0 {
        false
    } else if a.len() == 0 {
        true
    } else if a[0] == b[0] {
        lex_less(a.drop_first(), b.drop_first())
    } else {
        a[0] < b[0]
    }
}

/// No text comes before itself.
pub proof fn lemma_lex_irreflexive(a: Seq<char>)
    ensures
        !lex_less(a, a),
    decreases a.len(),
{
    if a.len() > 0 {
        lemma_lex_irreflexive(a.drop_first());
    }
}

/// The order of strings is transitive.
pub proof fn lemma_lex_transitive(a: Seq<char>, b: Seq<char>, c: Seq<char>)
    requires
        lex_less(a, b),
        lex_less(b, c),
    ensures
        lex_less(a, c),
    decreases a.len(),
{
    if a.len() > 0 && a[0] == b[0] && b[0] == c[0] {
        lemma_lex_transitive(a.drop_first(), b.drop_first(), c.drop_first());
    }
}

/// Of two different texts one comes before the other.
pub proof fn lemma_lex_total(a: Seq<char>, b: Seq<char>)
    ensures
        lex_less(a, b) || a == b || lex_less(b, a),
    decreases a.len(),
{
    if a.len() == 0 {
        if b.len() == 0 {
            assert(a =~= b);
        }
    } else if b.len() > 0 && a[0] == b[0] {
        lemma_lex_total(a.drop_first(), b.drop_first());
        if a.drop_first() == b.drop_first() {
            assert(a =~= seq![a[0]] + a.drop_first());
            assert(b =~= seq![b[0]] + b.drop_first());
        }
    }
}

/// Whether `a` comes before `b` in the order of strings.
pub fn comes_before(a: &[char], b: &[char]) -> (yes: bool)
    ensures
        yes == lex_less(a@, b@),
{
    let mut i: usize = 0;
    assert(a@.skip(0) =~= a@);
    assert(b@.skip(0) =~= b@);
    while i < a.len() && i < b.len() && a[i] == b[i]
        invariant
            i <= a@.len(),
            i <= b@.len(),
            lex_less(a@, b@) == lex_less(a@.skip(i as int), b@.skip(i as int)),
        decreases a@.len() - i,
    {
        proof {
            assert(a@.skip(i as int).drop_first() =~= a@.skip(i + 1));
            assert(b@.skip(i as int).drop_first() =~= b@.skip(i + 1));
        }
        i = i + 1;
    }
    if i >= b.len() {
        false
    } else if i >= a.len() {
        true
    } else {
        a[i] < b[i]
    }
}

/// Whether `a` comes before `b` in the order of byte strings: byte by byte, a proper
/// beginning before the longer string.
pub open spec fn bytes_less(a: Seq<u8>, b: Seq<u8>) -> bool
    decreases a.len(),
{
    if b.len() == 0 {
        false
    } else if a.len() == 0 {
        true
    } else if a[0] == b[0] {
        bytes_less(a.drop_first(), b.drop_first())
    } else {
        a[0] < b[0]
    }
}

/// No byte string comes before itself.
pub proof fn lemma_bytes_irreflexive(a: Seq<u8>)
    ensures
        !bytes_less(a, a),
    decreases a.len(),
{
    if a.len() > 0 {
        lemma_bytes_irreflexive(a.drop_first());
    }
}

/// The order of byte strings is transitive.
pub proof fn lemma_bytes_transitive(a: Seq<u8>, b: Seq<u8>, c: Seq<u8>)
    requires
        bytes_less(a, b),
        bytes_less(b, c),
    ensures
        bytes_less(a, c),
    decreases a.len(),
{
    if a.len() > 0 && a[0] == b[0] && b[0] == c[0] {
        lemma_bytes_transitive(a.drop_first(), b.drop_first(), c.drop_first());
    }
}

/// Of two different byte strings one comes before the other.
pub proof fn lemma_bytes_total(a: Seq<u8>, b: Seq<u8>)
    ensures
        bytes_less(a, b) || a == b || bytes_less(b, a),
    decreases a.len(),
{
    if a.len() == 0 {
        if b.len() == 0 {
            assert(a =~= b);
        }
    } else if b.len() > 0 && a[0] == b[0] {
        lemma_bytes_total(a.drop_first(), b.drop_first());
        if a.drop_first() == b.drop_first() {
            assert(a =~= seq![a[0]] + a.drop_first());
            assert(b =~= seq![b[0]] + b.drop_first());
        }
    }
}

/// Whether `a` comes before `b` in the order of byte strings.
pub fn bytes_before(a: &[u8], b: &[u8]) -> (yes: bool)
    ensures
        yes == bytes_less(a@, b@),
{
    let mut i: usize = 0;
    assert(a@.skip(0) =~= a@);
    assert(b@.skip(0) =~= b@);
    while i < a.len() && i < b.len() && a[i] == b[i]
        invariant
            i <= a@.len(),
            i <= b@.len(),
            bytes_less(a@, b@) == bytes_less(a@.skip(i as int), b@.skip(i as int)),
        decreases a@.len() - i,
    {
        proof {
            assert(a@.skip(i as int).drop_first() =~= a@.skip(i + 1));
            assert(b@.skip(i as int).drop_first() =~= b@.skip(i + 1));
        }
        i = i + 1;
    }
    if i >= b.len() {
        false
    } else if i >= a.len() {
        true
    } else {
        a[i] < b[i]
    }
}

/// Whether two texts are the same.
pub fn same_text(a: &[char], b: &[char]) -> (yes: bool)
    ensures
        yes == (a@ == b@),
{
    if a.len() != b.len() {
        return false;
    }
    for i in 0..a.len()
        invariant
            a@.len() == b@.len(),
            forall|j: int| 0 <= j < i ==> a@[j] == b@[j],
    {
        if a[i] != b[i] {
            return false;
        }
    }
    assert(a@ =~= b@);
    true
}

/// Lowering goes character by character: it keeps the length, and lowers each character by
/// itself.
pub proof fn lowering_is_by_character(s: Seq<char>, c: char)
    ensures
        lowered(Seq::empty()) == Seq::<char>::empty(),
        lowered(s.push(c)) == lowered(s).push(if 'A' <= c <= 'Z' {
            (c as u32 + 32) as char
        } else {
            c
        }),
        lowered(s).len() == s.len(),
        lowered(lowered(s)) == lowered(s),
{
    assert(lowered(Seq::empty()) =~= Seq::<char>::empty());
    assert(lowered(s.push(c)) =~= lowered(s).push(lower(c)));
    assert(lowered(lowered(s)) =~= lowered(s));
}

/// A run holds its character as often as was asked for, and nothing else.
pub proof fn run_repeats(c: char, count: nat)
    ensures
        run(c, count).len() == count,
        forall|i: int| 0 <= i < count ==> run(c, count)[i] == c,
{
}

/// What is taken away from a number, and what is left of it, make up the number, unless
/// more is taken away than there is.
pub proof fn floor_sub_leaves_the_rest(a: nat, b: nat)
    ensures
        b <= a ==> floor_sub(a, b) + b == a,
        a < b ==> floor_sub(a, b) == 0,
{
}

/// Widths add up, character by character: two columns for one from U+1F000 on, one for any
/// other.
pub proof fn widths_add_up(s: Seq<char>, c: char)
    ensures
        width_of(Seq::empty()) == 0,
        width_of(s.push(c)) == width_of(s) + (if c as u32 >= 0x1F000 {
            2nat
        } else {
            1
        }),
        s.len() <= width_of(s) <= 2 * s.len(),
    decreases s.len(),
{
    assert(s.push(c).drop_last() =~= s);
    if s.len() > 0 {
        widths_add_up(s.drop_last(), s.last());
        assert(s.drop_last().push(s.last()) =~= s);
    }
}

/// A text that is cut keeps its beginning: with room for two characters or more it fills
/// the room, the last of it with `~`; with less, nothing is left.
pub proof fn truncation_keeps_the_beginning(value: Seq<char>, max_len: nat)
    requires
        value.len() > max_len,
    ensures
        max_len >= 2 ==> truncated(value, max_len).len() == max_len && truncated(
            value,
            max_len,
        ).last() == '~' && forall|i: int|
            0 <= i < max_len - 1 ==> truncated(value, max_len)[i] == value[i],
        max_len < 2 ==> truncated(value, max_len).len() == 0,
{
}

/// The number that decimal digits stand for.
pub open spec fn value_of(digits: Seq<char>) -> nat
    decreases digits.len(),
{
    if digits.len() == 0 {
        0
    } else {
        value_of(digits.drop_last()) * 10 + (digits.last() as u32 - '0' as u32) as nat
    }
}

/// Whether a text is one of decimal digits.
pub open spec fn all_digits(text: Seq<char>) -> bool {
    forall|i: int| 0 <= i < text.len() ==> '0' <= #[trigger] text[i] <= '9'
}

/// A number that is written in decimal is read back: it is digits that stand for it, the
/// first of which is no zero unless it is the only one.
pub proof fn decimal_reads_back(n: nat)
    ensures
        value_of(decimal(n)) == n,
        all_digits(decimal(n)),
        decimal(n).len() >= 1,
        decimal(n).len() > 1 ==> decimal(n)[0] != '0',
        n > 0 ==> decimal(n)[0] != '0',
    decreases n,
{
    reveal_with_fuel(value_of, 2);
    assert(digit(n % 10) as u32 == 48 + n % 10);
    if n < 10 {
        assert(decimal(n) =~= seq![digit(n)]);
        assert(decimal(n).drop_last() =~= Seq::<char>::empty());
    } else {
        decimal_reads_back(n / 10);
        let rest = decimal(n / 10);
        assert(decimal(n).drop_last() =~= rest);
        assert(decimal(n)[0] == rest[0]);
        assert forall|i: int| 0 <= i < decimal(n).len() implies '0' <= #[trigger] decimal(n)[i]
            <= '9' by {
            if i < rest.len() {
                assert(decimal(n)[i] == rest[i]);
            }
        }
    }
}

/// A number that is written with two digits or more is read back, and has as few digits
/// as that lets it have.
pub proof fn two_digits_read_back(n: nat)
    ensures
        value_of(two_digits(n)) == n,
        all_digits(two_digits(n)),
        two_digits(n).len() >= 2,
        two_digits(n).len() > 2 ==> two_digits(n)[0] != '0',
        n < 100 ==> two_digits(n).len() == 2,
{
    decimal_reads_back(n);
    reveal_with_fuel(value_of, 3);
    reveal_with_fuel(decimal, 2);
    if n < 10 {
        let text = two_digits(n);
        assert(text =~= seq!['0', digit(n)]);
        assert(text.drop_last() =~= seq!['0']);
        assert(text.drop_last().drop_last() =~= Seq::<char>::empty());
        assert(digit(n) as u32 == 48 + n);
    }
}

/// Whether two texts are the same up to position `k`, and the first ends there or has the
/// smaller character there.
pub open spec fn smaller_from(a: Seq<char>, b: Seq<char>, k: int) -> bool {
    &&& 0 <= k <= a.len()
    &&& k < b.len()
    &&& forall|i: int| 0 <= i < k ==> a[i] == b[i]
    &&& k == a.len() || a[k] < b[k]
}

/// The order of strings is decided where they first differ.
pub proof fn first_difference_decides(a: Seq<char>, b: Seq<char>)
    ensures
        lex_less(a, b) <==> exists|k: int| #[trigger] smaller_from(a, b, k),
    decreases a.len(),
{
    if b.len() > 0 && a.len() > 0 && a[0] == b[0] {
        let (x, y) = (a.drop_first(), b.drop_first());
        first_difference_decides(x, y);
        if lex_less(a, b) {
            let k = choose|k: int| #[trigger] smaller_from(x, y, k);
            assert forall|i: int| 0 <= i < k + 1 implies a[i] == b[i] by {
                if i > 0 {
                    assert(x[i - 1] == y[i - 1]);
                }
            }
            assert(smaller_from(a, b, k + 1));
        }
        if exists|k: int| #[trigger] smaller_from(a, b, k) {
            let k = choose|k: int| #[trigger] smaller_from(a, b, k);
            assert(k > 0);
            assert(smaller_from(x, y, k - 1));
        }
    } else if b.len() > 0 {
        if lex_less(a, b) {
            assert(smaller_from(a, b, 0));
        }
    }
}

/// Whether two byte strings are the same up to position `k`, and the first ends there or
/// has the smaller byte there.
pub open spec fn bytes_smaller_from(a: Seq<u8>, b: Seq<u8>, k: int) -> bool {
    &&& 0 <= k <= a.len()
    &&& k < b.len()
    &&& forall|i: int| 0 <= i < k ==> a[i] == b[i]
    &&& k == a.len() || a[k] < b[k]
}

/// The order of byte strings is decided where they first differ.
pub proof fn first_byte_decides(a: Seq<u8>, b: Seq<u8>)
    ensures
        bytes_less(a, b) <==> exists|k: int| #[trigger] bytes_smaller_from(a, b, k),
    decreases a.len(),
{
    if b.len() > 0 && a.len() > 0 && a[0] == b[0] {
        let (x, y) = (a.drop_first(), b.drop_first());
        first_byte_decides(x, y);
        if bytes_less(a, b) {
            let k = choose|k: int| #[trigger] bytes_smaller_from(x, y, k);
            assert forall|i: int| 0 <= i < k + 1 implies a[i] == b[i] by {
                if i > 0 {
                    assert(x[i - 1] == y[i - 1]);
                }
            }
            assert(bytes_smaller_from(a, b, k + 1));
        }
        if exists|k: int| #[trigger] bytes_smaller_from(a, b, k) {
            let k = choose|k: int| #[trigger] bytes_smaller_from(a, b, k);
            assert(k > 0);
            assert(bytes_smaller_from(x, y, k - 1));
        }
    } else if b.len() > 0 {
        if bytes_less(a, b) {
            assert(bytes_smaller_from(a, b, 0));
        }
    }
}

} // verus!
