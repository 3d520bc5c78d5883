//! Text helpers: equality, words, joining, and the decimal and hexadecimal
//! notation of numbers.

use vstd::prelude::*;
use vstd::string::StringSliceAdditionalSpecFns;
use vstd::utf8::*;

verus! {

/// `String::push` appends one character at the end.
pub assume_specification[ String::push ](s: &mut String, c: char)
    ensures
        final(s)@ == old(s)@.push(c),
;

/// The texts held by a list of strings.
pub open spec fn texts(strings: Seq<String>) -> Seq<Seq<char>> {
    Seq::new(strings.len(), |i: int| strings[i]@)
}

/// Whether two texts are equal.
pub fn same_text(a: &str, b: &str) -> (same: bool)
    ensures
        same == (a@ == b@),
{
    let left = a.as_bytes();
    let right = b.as_bytes();
    proof {
        encode_utf8_decode_utf8(a@);
        encode_utf8_decode_utf8(b@);
    }
    if left.len() != right.len() {
        return false;
    }
    let mut i: usize = 0;
    while i < left.len()
        invariant
            left@ == a.spec_bytes(),
            right@ == b.spec_bytes(),
            left.len() == right.len(),
            i <= left.len(),
            left@.take(i as int) == right@.take(i as int),
        decreases left.len() - i,
    {
        if left[i] != right[i] {
            return false;
        }
        proof {
            assert(left@.take(i as int + 1) =~= left@.take(i as int).push(left@[i as int]));
            assert(right@.take(i as int + 1) =~= right@.take(i as int).push(right@[i as int]));
        }
        i += 1;
    }
    proof {
        assert(left@.take(i as int) =~= left@);
        assert(right@.take(i as int) =~= right@);
    }
    true
}

/// The characters of a text, one by one.
pub fn chars_of(s: &str) -> (chars: Vec<char>)
    ensures
        chars@ == s@,
{
    let mut chars: Vec<char> = Vec::new();
    for c in it: s.chars()
        invariant
            chars@ == s@.take(it.index()),
            it.seq() == s@,
    {
        chars.push(c);
        proof {
            assert(s@.take(it.index() + 1) =~= s@.take(it.index()).push(c));
        }
    }
    proof {
        assert(s@.take(s@.len() as int) =~= s@);
    }
    chars
}

/// Whether a text is empty.
pub fn is_empty(s: &str) -> (empty: bool)
    ensures
        empty == (s@.len() == 0),
{
    let chars = chars_of(s);
    chars.len() == 0
}

/// The characters that Unicode calls white space.
pub open spec fn white_space(c: char) -> bool {
    let u = c as u32;
    ||| 0x9 <= u <= 0xd
    ||| u == 0x20
    ||| u == 0x85
    ||| u == 0xa0
    ||| u == 0x1680
    ||| 0x2000 <= u <= 0x200a
    ||| u == 0x2028
    ||| u == 0x2029
    ||| u == 0x202f
    ||| u == 0x205f
    ||| u == 0x3000
}

/// Whether a character is white space.
pub fn is_white_space(c: char) -> (white: bool)
    ensures
        white == white_space(c),
{
    let u: u32 = c as u32;
    (0x9 <= u && u <= 0xd) || u == 0x20 || u == 0x85 || u == 0xa0 || u == 0x1680 || (0x2000 <= u
        && u <= 0x200a) || u == 0x2028 || u == 0x2029 || u == 0x202f || u == 0x205f || u == 0x3000
}

/// Where the run of characters that starts at `from` and is all white space
/// (or, for `white == false`, has none) ends.
pub open spec fn run_end(s: Seq<char>, from: int, white: bool) -> int
    decreases s.len() - from,
{
    if 0 <= from < s.len() && white_space(s[from]) == white {
        run_end(s, from + 1, white)
    } else {
        from
    }
}

/// A run ends at or after its start, inside the text, at a character that does
/// not belong to it.
pub proof fn run_end_is_beyond(s: Seq<char>, from: int, white: bool)
    ensures
        run_end(s, from, white) >= from,
        from <= s.len() ==> run_end(s, from, white) <= s.len(),
        0 <= run_end(s, from, white) < s.len() ==> white_space(s[run_end(s, from, white)]) != white,
    decreases s.len() - from,
{
    if 0 <= from < s.len() && white_space(s[from]) == white {
        run_end_is_beyond(s, from + 1, white);
    }
}

/// The words of `s` from position `from` on: its maximal runs of characters
/// that are not white space, in order.
pub open spec fn words_from(s: Seq<char>, from: int) -> Seq<Seq<char>>
    decreases s.len() - from,
{
    let start = run_end(s, from, true);
    if from < 0 || start >= s.len() {
        Seq::empty()
    } else {
        let end = run_end(s, start, false);
        proof {
            run_end_is_beyond(s, from, true);
            run_end_is_beyond(s, start + 1, false);
        }
        seq![s.subrange(start, end)] + words_from(s, end)
    }
}

/// The words of a text.
pub open spec fn words(s: Seq<char>) -> Seq<Seq<char>> {
    words_from(s, 0)
}

/// Splits a text at white space.
pub fn split_words(s: &str) -> (out: Vec<String>)
    ensures
        texts(out@) == words(s@),
{
    let chars = chars_of(s);
    let n: usize = chars.len();
    let mut out: Vec<String> = Vec::new();
    let mut i: usize = 0;
    proof {
        assert(texts(out@) + words_from(s@, 0) =~= words(s@));
    }
    while i < n
        invariant
            n == chars.len(),
            chars@ == s@,
            i <= n,
            texts(out@) + words_from(s@, i as int) == words(s@),
        decreases n - i,
    {
        let ghost before = i as int;
        while i < n && is_white_space(chars[i])
            invariant
                n == chars.len(),
                chars@ == s@,
                before <= i <= n,
                run_end(s@, i as int, true) == run_end(s@, before, true),
            decreases n - i,
        {
            i += 1;
        }
        let start: usize = i;
        let mut word = String::new();
        proof {
            assert(s@.subrange(start as int, start as int) =~= Seq::<char>::empty());
        }
        while i < n && !is_white_space(chars[i])
            invariant
                n == chars.len(),
                chars@ == s@,
                start <= i <= n,
                run_end(s@, i as int, false) == run_end(s@, start as int, false),
                word@ == s@.subrange(start as int, i as int),
            decreases n - i,
        {
            word.push(chars[i]);
            proof {
                assert(s@.subrange(start as int, i as int + 1) =~= s@.subrange(start as int, i as int).push(
                    s@[i as int],
                ));
            }
            i += 1;
        }
        if start < n {
            let ghost shorter = out@;
            out.push(word);
            proof {
                assert(words_from(s@, before) == seq![word@] + words_from(s@, i as int));
                assert(texts(out@) =~= texts(shorter).push(word@));
                assert(texts(out@) + words_from(s@, i as int) =~= texts(shorter) + words_from(s@, before));
            }
        } else {
            proof {
                assert(words_from(s@, before) =~= Seq::<Seq<char>>::empty());
                assert(words_from(s@, i as int) =~= Seq::<Seq<char>>::empty());
            }
        }
    }
    proof {
        assert(words_from(s@, i as int) =~= Seq::<Seq<char>>::empty());
        assert(texts(out@) + words_from(s@, i as int) =~= texts(out@));
    }
    out
}

/// Whether a text is a single word: not empty, and without white space.
pub open spec fn is_word(s: Seq<char>) -> bool {
    &&& s.len() > 0
    &&& forall|i: int| 0 <= i < s.len() ==> !white_space(#[trigger] s[i])
}

/// All that stands between the start of a run and its end belongs to it.
proof fn run_is_uniform(s: Seq<char>, from: int, white: bool, i: int)
    requires
        0 <= from <= i < run_end(s, from, white),
    ensures
        i < s.len(),
        white_space(s[i]) == white,
    decreases s.len() - from,
{
    if from < s.len() && white_space(s[from]) == white && i > from {
        run_is_uniform(s, from + 1, white, i);
    }
}

/// A run is not shorter than the characters of its kind that it starts with.
proof fn run_reaches(s: Seq<char>, from: int, white: bool, end: int)
    requires
        0 <= from <= end <= s.len(),
        forall|i: int| from <= i < end ==> white_space(#[trigger] s[i]) == white,
    ensures
        run_end(s, from, white) == run_end(s, end, white),
    decreases end - from,
{
    if from < end {
        run_reaches(s, from + 1, white, end);
    }
}

/// A run does not depend on what follows the character that ends it.
proof fn run_in_a_longer_text(s: Seq<char>, longer: Seq<char>, from: int, white: bool)
    requires
        0 <= from <= s.len() < longer.len(),
        longer.take(s.len() as int) == s,
        white_space(longer[s.len() as int]),
    ensures
        run_end(longer, from, white) == if run_end(s, from, white) < s.len() || !white {
            run_end(s, from, white)
        } else {
            run_end(longer, s.len() as int, true)
        },
    decreases s.len() - from,
{
    if from < s.len() {
        assert(longer[from] == longer.take(s.len() as int)[from]);
        if white_space(s[from]) == white {
            run_in_a_longer_text(s, longer, from + 1, white);
        }
    }
}

/// The words of a text that is followed by white space, and the words after it.
proof fn words_before_white_space(s: Seq<char>, longer: Seq<char>, from: int)
    requires
        0 <= from <= s.len() < longer.len(),
        longer.take(s.len() as int) == s,
        white_space(longer[s.len() as int]),
    ensures
        words_from(longer, from) == words_from(s, from) + words_from(longer, s.len() as int),
    decreases s.len() - from,
{
    let start = run_end(s, from, true);
    run_end_is_beyond(s, from, true);
    run_in_a_longer_text(s, longer, from, true);
    if start >= s.len() {
        assert(words_from(longer, from) == words_from(longer, s.len() as int)) by {
            run_end_is_beyond(longer, s.len() as int, true);
        }
        assert(words_from(s, from) + words_from(longer, s.len() as int) =~= words_from(
            longer,
            s.len() as int,
        ));
    } else {
        let end = run_end(s, start, false);
        run_end_is_beyond(s, start, false);
        run_end_is_beyond(s, start + 1, false);
        run_in_a_longer_text(s, longer, start, false);
        words_before_white_space(s, longer, end);
        assert(longer.subrange(start, end) =~= s.subrange(start, end)) by {
            assert forall|i: int| start <= i < end implies longer[i] == s[i] by {
                assert(longer.take(s.len() as int)[i] == longer[i]);
            }
        }
        assert(words_from(longer, from) =~= seq![s.subrange(start, end)] + words_from(
            longer,
            end,
        ));
        assert(words_from(s, from) =~= seq![s.subrange(start, end)] + words_from(s, end));
        assert(words_from(longer, from) =~= words_from(s, from) + words_from(
            longer,
            s.len() as int,
        ));
    }
}

/// A run in the rest of a text.
proof fn run_in_the_rest(s: Seq<char>, skipped: int, from: int, white: bool)
    requires
        0 <= skipped <= s.len(),
        0 <= from,
    ensures
        run_end(s, skipped + from, white) == skipped + run_end(s.skip(skipped), from, white),
    decreases s.len() - skipped - from,
{
    if skipped + from < s.len() {
        assert(s.skip(skipped)[from] == s[skipped + from]);
        if white_space(s[skipped + from]) == white {
            run_in_the_rest(s, skipped, from + 1, white);
        }
    }
}

/// The words of the rest of a text.
proof fn words_of_the_rest(s: Seq<char>, skipped: int, from: int)
    requires
        0 <= skipped <= s.len(),
        0 <= from <= s.len() - skipped,
    ensures
        words_from(s, skipped + from) == words_from(s.skip(skipped), from),
    decreases s.len() - skipped - from,
{
    let rest = s.skip(skipped);
    let start = run_end(rest, from, true);
    run_in_the_rest(s, skipped, from, true);
    run_end_is_beyond(rest, from, true);
    if start < rest.len() {
        let end = run_end(rest, start, false);
        run_in_the_rest(s, skipped, start, false);
        run_end_is_beyond(rest, start, false);
        run_end_is_beyond(rest, start + 1, false);
        words_of_the_rest(s, skipped, end);
        assert(s.subrange(skipped + start, skipped + end) =~= rest.subrange(start, end));
    }
}

/// White space parts a text: its words are those before it, and then those after
/// it.
pub proof fn words_of_two_parts(a: Seq<char>, separator: char, b: Seq<char>)
    requires
        white_space(separator),
    ensures
        words(a.push(separator) + b) == words(a) + words(b),
{
    let s = a.push(separator) + b;
    let n = a.len() as int;
    assert(s.take(n) =~= a);
    words_before_white_space(a, s, 0);
    assert(words_from(s, n) == words_from(s, n + 1)) by {
        assert(run_end(s, n, true) == run_end(s, n + 1, true));
    }
    words_of_the_rest(s, n + 1, 0);
    assert(s.skip(n + 1) =~= b);
}

/// Every word is one, and a text has no word exactly if it is all white space.
pub proof fn words_are_words(s: Seq<char>)
    ensures
        forall|i: int| 0 <= i < words(s).len() ==> is_word(#[trigger] words(s)[i]),
        words(s).len() == 0 <==> forall|i: int| 0 <= i < s.len() ==> white_space(#[trigger] s[i]),
{
    words_from_are_words(s, 0);
    run_end_is_beyond(s, 0, true);
    if words(s).len() == 0 {
        assert forall|i: int| 0 <= i < s.len() implies white_space(#[trigger] s[i]) by {
            run_is_uniform(s, 0, true, i);
        }
    } else if forall|i: int| 0 <= i < s.len() ==> white_space(#[trigger] s[i]) {
        run_reaches(s, 0, true, s.len() as int);
    }
}

proof fn words_from_are_words(s: Seq<char>, from: int)
    requires
        0 <= from <= s.len(),
    ensures
        forall|i: int|
            0 <= i < words_from(s, from).len() ==> is_word(#[trigger] words_from(s, from)[i]),
    decreases s.len() - from,
{
    let start = run_end(s, from, true);
    run_end_is_beyond(s, from, true);
    if start < s.len() {
        let end = run_end(s, start, false);
        run_end_is_beyond(s, start, false);
        run_end_is_beyond(s, start + 1, false);
        words_from_are_words(s, end);
        let word = s.subrange(start, end);
        assert forall|i: int| 0 <= i < word.len() implies !white_space(#[trigger] word[i]) by {
            run_is_uniform(s, start, false, start + i);
        }
        assert(is_word(word));
        let all = words_from(s, from);
        assert forall|i: int| 0 <= i < all.len() implies is_word(#[trigger] all[i]) by {
            if i > 0 {
                assert(all[i] == words_from(s, end)[i - 1]);
            }
        }
    }
}

/// Words that are joined with spaces are the words of the text that results.
pub proof fn splitting_undoes_joining(parts: Seq<Seq<char>>)
    requires
        forall|i: int| 0 <= i < parts.len() ==> is_word(#[trigger] parts[i]),
    ensures
        words(joined(parts, " "@)) == parts,
    decreases parts.len(),
{
    reveal_strlit(" ");
    if parts.len() == 0 {
        assert(words(joined(parts, " "@)) =~= parts);
    } else {
        let last = parts[parts.len() - 1];
        assert(is_word(last));
        run_reaches(last, 0, false, last.len() as int);
        assert(run_end(last, 0, true) == 0);
        assert(words_from(last, last.len() as int) =~= Seq::empty());
        assert(last.subrange(0, last.len() as int) =~= last);
        assert(words(last) =~= seq![last]);
        if parts.len() == 1 {
            assert(words(joined(parts, " "@)) =~= parts);
        } else {
            let fewer = parts.drop_last();
            assert forall|i: int| 0 <= i < fewer.len() implies is_word(#[trigger] fewer[i]) by {
                assert(fewer[i] == parts[i]);
            }
            splitting_undoes_joining(fewer);
            words_of_two_parts(joined(fewer, " "@), ' ', last);
            assert(joined(parts, " "@) =~= joined(fewer, " "@).push(' ') + last);
            assert(fewer + seq![last] =~= parts);
        }
    }
}

/// The given texts, one after the other, with `separator` between neighbours.
pub open spec fn joined(parts: Seq<Seq<char>>, separator: Seq<char>) -> Seq<char>
    decreases parts.len(),
{
    if parts.len() == 0 {
        Seq::empty()
    } else if parts.len() == 1 {
        parts[0]
    } else {
        joined(parts.drop_last(), separator) + separator + parts.last()
    }
}

/// Joins strings with a separator between neighbours.
pub fn join(parts: &Vec<String>, separator: &str) -> (out: String)
    ensures
        out@ == joined(texts(parts@), separator@),
{
    let mut out = String::new();
    let mut i: usize = 0;
    while i < parts.len()
        invariant
            i <= parts.len(),
            out@ == joined(texts(parts@).take(i as int), separator@),
        decreases parts.len() - i,
    {
        proof {
            assert(texts(parts@).take(i as int + 1).drop_last() =~= texts(parts@).take(i as int));
        }
        if i > 0 {
            out.append(separator);
        }
        out.append(parts[i].as_str());
        proof {
            if i == 0 {
                assert(Seq::<char>::empty() + parts[0]@ =~= parts[0]@);
            }
        }
        i += 1;
    }
    proof {
        assert(texts(parts@).take(parts.len() as int) =~= texts(parts@));
    }
    out
}

/// The character of a decimal digit.
pub open spec fn digit_char(d: int) -> char {
    (48 + d) as char
}

/// The decimal notation of a number, without leading zeros.
pub open spec fn decimal(n: nat) -> Seq<char>
    decreases n,
{
    if n < 10 {
        seq![digit_char(n as int)]
    } else {
        decimal(n / 10).push(digit_char((n % 10) as int))
    }
}

/// Appends the decimal notation of a number.
pub fn push_decimal(out: &mut String, n: u64)
    ensures
        final(out)@ == old(out)@ + decimal(n as nat),
    decreases n,
{
    if n >= 10 {
        push_decimal(out, n / 10);
    }
    let digit: u8 = 48 + (n % 10) as u8;
    out.push(digit as char);
    proof {
        if n >= 10 {
            assert(old(out)@ + decimal(n as nat) =~= (old(out)@ + decimal((n / 10) as nat)).push(
                digit_char((n % 10) as int),
            ));
        } else {
            assert(old(out)@ + decimal(n as nat) =~= old(out)@.push(digit_char((n % 10) as int)));
        }
    }
}

/// The character of a hexadecimal digit, in lower case.
pub open spec fn hex_char(d: int) -> char {
    if d < 10 {
        (48 + d) as char
    } else {
        (87 + d) as char
    }
}

/// The last `width` digits of the hexadecimal notation of a number, padded
/// with zeros.
pub open spec fn hexadecimal(n: nat, width: nat) -> Seq<char>
    decreases width,
{
    if width == 0 {
        Seq::empty()
    } else {
        hexadecimal(n / 16, (width - 1) as nat).push(hex_char((n % 16) as int))
    }
}

/// Appends the last `width` hexadecimal digits of a number.
pub fn push_hexadecimal(out: &mut String, n: u64, width: u8)
    ensures
        final(out)@ == old(out)@ + hexadecimal(n as nat, width as nat),
    decreases width,
{
    if width > 0 {
        push_hexadecimal(out, n / 16, width - 1);
        let d: u8 = (n % 16) as u8;
        let code: u8 = if d < 10 {
            48 + d
        } else {
            87 + d
        };
        out.push(code as char);
        proof {
            assert(old(out)@ + hexadecimal(n as nat, width as nat) =~= (old(out)@ + hexadecimal(
                (n / 16) as nat,
                (width - 1) as nat,
            )).push(hex_char((n % 16) as int)));
        }
    } else {
        proof {
            assert(old(out)@ + hexadecimal(n as nat, 0) =~= old(out)@);
        }
    }
}

/// The text that an optional string holds.
pub open spec fn text_of(s: Option<String>) -> Option<Seq<char>> {
    match s {
        Some(text) => Some(text@),
        None => None,
    }
}

/// The text that an optional slice holds.
pub open spec fn str_of(s: Option<&str>) -> Option<Seq<char>> {
    match s {
        Some(text) => Some(text@),
        None => None,
    }
}

/// Whether a list holds a text.
pub fn holds_text(list: &Vec<String>, s: &str) -> (found: bool)
    ensures
        found == texts(list@).contains(s@),
{
    let mut i: usize = 0;
    while i < list.len()
        invariant
            i <= list.len(),
            forall|j: int| 0 <= j < i ==> #[trigger] texts(list@)[j] != s@,
        decreases list.len() - i,
    {
        if same_text(list[i].as_str(), s) {
            proof {
                assert(texts(list@)[i as int] == s@);
            }
            return true;
        }
        i += 1;
    }
    false
}

/// Whether a character is a decimal digit.
pub open spec fn is_digit(c: char) -> bool {
    48 <= c as u32 <= 57
}

/// The number that a row of decimal digits denotes.
pub open spec fn digits_value(s: Seq<char>) -> nat
    decreases s.len(),
{
    if s.len() == 0 {
        0
    } else {
        digits_value(s.drop_last()) * 10 + (s.last() as u32 - 48) as nat
    }
}

/// Whether a text is a number without a sign: digits, at least one.
pub open spec fn is_number(s: Seq<char>) -> bool {
    s.len() > 0 && forall|i: int| 0 <= i < s.len() ==> is_digit(#[trigger] s[i])
}

/// The number that a text denotes, if it is a number of at most `max`.
pub open spec fn number_up_to(s: Seq<char>, max: nat) -> Option<nat> {
    if is_number(s) && digits_value(s) <= max {
        Some(digits_value(s))
    } else {
        None
    }
}

/// The unsigned number of at most `max` that a text denotes, which may begin
/// with a plus sign.
pub open spec fn unsigned_up_to(s: Seq<char>, max: nat) -> Option<nat> {
    if s.len() > 0 && s[0] == '+' {
        number_up_to(s.skip(1), max)
    } else {
        number_up_to(s, max)
    }
}

/// The number of 32 bits that a text denotes, which may begin with a sign.
pub open spec fn signed_32(s: Seq<char>) -> Option<int> {
    if s.len() > 0 && s[0] == '-' {
        match number_up_to(s.skip(1), 0x8000_0000) {
            Some(n) => Some(-(n as int)),
            None => None,
        }
    } else {
        match unsigned_up_to(s, 0x7fff_ffff) {
            Some(n) => Some(n as int),
            None => None,
        }
    }
}

/// A row of digits denotes at least what any beginning of it denotes.
proof fn prefix_is_at_most(s: Seq<char>, n: int)
    requires
        0 <= n <= s.len(),
    ensures
        digits_value(s.take(n)) <= digits_value(s),
    decreases s.len(),
{
    if n == s.len() {
        assert(s.take(n) =~= s);
    } else {
        assert(s.drop_last().take(n) =~= s.take(n));
        prefix_is_at_most(s.drop_last(), n);
    }
}

/// Reads digits from position `from` on to the end.
fn read_number(chars: &Vec<char>, from: usize, max: u64) -> (n: Option<u64>)
    requires
        from <= chars.len(),
    ensures
        number_up_to(chars@.skip(from as int), max as nat) == (match n {
            Some(n) => Some(n as nat),
            None => None::<nat>,
        }),
{
    let ghost row = chars@.skip(from as int);
    if from == chars.len() {
        return None;
    }
    let mut value: u64 = 0;
    let mut i: usize = from;
    while i < chars.len()
        invariant
            from <= i <= chars.len(),
            row == chars@.skip(from as int),
            value == digits_value(row.take(i - from)),
            value <= max,
            forall|j: int| 0 <= j < i - from ==> is_digit(#[trigger] row[j]),
        decreases chars.len() - i,
    {
        let code: u32 = chars[i] as u32;
        proof {
            assert(row[i - from] == chars@[i as int]);
            assert(row.take(i - from + 1).drop_last() =~= row.take(i - from));
            assert(row.take(i - from + 1).last() == chars@[i as int]);
        }
        if code < 48 || code > 57 {
            proof {
                assert(!is_digit(row[i - from]));
            }
            return None;
        }
        let next: u128 = value as u128 * 10 + (code - 48) as u128;
        if next > max as u128 {
            proof {
                prefix_is_at_most(row, i - from + 1);
            }
            return None;
        }
        value = next as u64;
        i += 1;
    }
    proof {
        assert(row.take(row.len() as int) =~= row);
    }
    Some(value)
}

/// Reads an unsigned number of at most `max`.
pub fn parse_unsigned(s: &str, max: u64) -> (n: Option<u64>)
    ensures
        unsigned_up_to(s@, max as nat) == (match n {
            Some(n) => Some(n as nat),
            None => None::<nat>,
        }),
{
    let chars = chars_of(s);
    if chars.len() > 0 && chars[0] == '+' {
        read_number(&chars, 1, max)
    } else {
        proof {
            assert(chars@.skip(0) =~= chars@);
        }
        read_number(&chars, 0, max)
    }
}

/// Reads a number of 32 bits.
pub fn parse_signed_32(s: &str) -> (n: Option<i32>)
    ensures
        signed_32(s@) == (match n {
            Some(n) => Some(n as int),
            None => None::<int>,
        }),
{
    let chars = chars_of(s);
    if chars.len() > 0 && chars[0] == '-' {
        match read_number(&chars, 1, 0x8000_0000) {
            Some(n) => Some((-(n as i64)) as i32),
            None => None,
        }
    } else {
        match parse_unsigned(s, 0x7fff_ffff) {
            Some(n) => Some(n as i32),
            None => None,
        }
    }
}

/// Where the white space at the end of `s` begins, `s` being looked at up to
/// position `to`.
pub open spec fn trailing_start(s: Seq<char>, to: int) -> int
    decreases to,
{
    if 0 < to <= s.len() && white_space(s[to - 1]) {
        trailing_start(s, to - 1)
    } else {
        to
    }
}

/// A text without the white space at its two ends.
pub open spec fn trimmed(s: Seq<char>) -> Seq<char> {
    let start = run_end(s, 0, true);
    let end = trailing_start(s, s.len() as int);
    if start < end {
        s.subrange(start, end)
    } else {
        Seq::empty()
    }
}

/// Removes the white space at the two ends of a text.
pub fn trim(s: &str) -> (out: String)
    ensures
        out@ == trimmed(s@),
{
    let chars = chars_of(s);
    let mut start: usize = 0;
    while start < chars.len() && is_white_space(chars[start])
        invariant
            chars@ == s@,
            start <= chars.len(),
            run_end(s@, start as int, true) == run_end(s@, 0, true),
        decreases chars.len() - start,
    {
        start += 1;
    }
    let mut end: usize = chars.len();
    while end > 0 && is_white_space(chars[end - 1])
        invariant
            chars@ == s@,
            end <= chars.len(),
            trailing_start(s@, end as int) == trailing_start(s@, s@.len() as int),
        decreases end,
    {
        end -= 1;
    }
    let mut out = String::new();
    let mut i: usize = start;
    if start < end {
        proof {
            assert(s@.subrange(start as int, start as int) =~= Seq::<char>::empty());
        }
        while i < end
            invariant
                chars@ == s@,
                start <= i <= end <= chars.len(),
                out@ == s@.subrange(start as int, i as int),
            decreases end - i,
        {
            out.push(chars[i]);
            proof {
                assert(s@.subrange(start as int, i as int + 1) =~= s@.subrange(start as int, i as int).push(
                    s@[i as int],
                ));
            }
            i += 1;
        }
    }
    out
}

/// Two texts, one after the other.
pub fn concat(a: &str, b: &str) -> (out: String)
    ensures
        out@ == a@ + b@,
{
    let mut out = a.to_string();
    out.append(b);
    out
}

/// A number in decimal notation.
pub fn decimal_text(n: u64) -> (out: String)
    ensures
        out@ == decimal(n as nat),
{
    let mut out = String::new();
    push_decimal(&mut out, n);
    proof {
        assert(Seq::<char>::empty() + decimal(n as nat) =~= decimal(n as nat));
    }
    out
}

/// What reading makes of a number that was written in decimal notation is that
/// number.
pub proof fn reading_undoes_writing(n: nat)
    ensures
        is_number(decimal(n)),
        digits_value(decimal(n)) == n,
    decreases n,
{
    if n >= 10 {
        reading_undoes_writing(n / 10);
        let row = decimal(n / 10).push(digit_char((n % 10) as int));
        assert(row.drop_last() =~= decimal(n / 10));
        assert forall|i: int| 0 <= i < row.len() implies is_digit(#[trigger] row[i]) by {
            if i < row.len() - 1 {
                assert(row[i] == decimal(n / 10)[i]);
            }
        }
    } else {
        let row = seq![digit_char(n as int)];
        assert(row.drop_last() =~= Seq::<char>::empty());
        assert(digits_value(Seq::<char>::empty()) == 0);
        assert(row.last() == digit_char(n as int));
    }
}

/// The text that `{:?}` makes of a string: quoted, with escapes.
pub uninterp spec fn debug_quoted(s: Seq<char>) -> Seq<char>;

/// `format!` with `{:?}`: quotes a text and escapes what it holds.
#[verifier::external_body]
pub(crate) fn quoted(s: &str) -> (out: String)
    ensures
        out@ == debug_quoted(s@),
{
    format!("{:?}", s)
}

/// The text that `String::from_utf8_lossy` makes of some bytes.
pub uninterp spec fn utf8_lossy(bytes: Seq<u8>) -> Seq<char>;

/// `String::from_utf8_lossy`: decodes UTF-8, and puts a replacement character
/// where the bytes are none. Bytes that are UTF-8 throughout give their text.
#[verifier::external_body]
pub(crate) fn decode_lossy(bytes: &Vec<u8>) -> (decoded: String)
    ensures
        decoded@ == utf8_lossy(bytes@),
        vstd::utf8::valid_utf8(bytes@) ==> decoded@ == vstd::utf8::decode_utf8(bytes@),
{
    String::from_utf8_lossy(bytes).into_owned()
}

/// Joined texts stand one after the other, in their order, with the separator between two
/// neighbours and nowhere else.
pub proof fn joining_puts_the_separator_between(
    parts: Seq<Seq<char>>,
    part: Seq<char>,
    separator: Seq<char>,
)
    ensures
        joined(Seq::<Seq<char>>::empty(), separator) == Seq::<char>::empty(),
        joined(seq![part], separator) == part,
        parts.len() > 0 ==> joined(parts.push(part), separator) == joined(parts, separator)
            + separator + part,
{
    assert(parts.push(part).drop_last() =~= parts);
}

/// Blanks, tabs and ends of lines part words, and nothing that can be seen does: a text of
/// such characters alone is one word.
pub proof fn blanks_part_words(a: Seq<char>, b: Seq<char>, visible: Seq<char>)
    requires
        visible.len() > 0,
        forall|i: int|
            0 <= i < visible.len() ==> '!' as u32 <= (#[trigger] visible[i]) as u32 <= '~' as u32,
    ensures
        words(a.push(' ') + b) == words(a) + words(b),
        words(a.push('\t') + b) == words(a) + words(b),
        words(a.push('\n') + b) == words(a) + words(b),
        words(a.push('\r') + b) == words(a) + words(b),
        words(visible) == seq![visible],
        words(Seq::<char>::empty()).len() == 0,
{
    words_of_two_parts(a, ' ', b);
    words_of_two_parts(a, '\t', b);
    words_of_two_parts(a, '\n', b);
    words_of_two_parts(a, '\r', b);
    assert forall|i: int| 0 <= i < visible.len() implies !white_space(#[trigger] visible[i]) by {
        assert('!' as u32 <= visible[i] as u32 <= '~' as u32);
    }
    assert(is_word(visible));
    assert(joined(seq![visible], " "@) == visible);
    splitting_undoes_joining(seq![visible]);
}

/// Trimming takes all the white space off both ends, and nothing else.
pub proof fn trimming_takes_the_ends_off(before: Seq<char>, s: Seq<char>, behind: Seq<char>)
    requires
        forall|i: int|
            0 <= i < before.len() ==> #[trigger] before[i] == ' ' || before[i] == '\t' || before[i]
                == '\n' || before[i] == '\r',
        forall|i: int|
            0 <= i < behind.len() ==> #[trigger] behind[i] == ' ' || behind[i] == '\t' || behind[i]
                == '\n' || behind[i] == '\r',
        s.len() > 0,
        '!' as u32 <= s[0] as u32 <= '~' as u32,
        '!' as u32 <= s.last() as u32 <= '~' as u32,
    ensures
        trimmed(before + s + behind) == s,
        trimmed(before).len() == 0,
{
    let whole = before + s + behind;
    assert forall|i: int| 0 <= i < before.len() implies white_space(#[trigger] whole[i]) by {
        assert(whole[i] == before[i]);
    }
    assert(whole[before.len() as int] == s[0]);
    run_reaches(whole, 0, true, before.len() as int);
    let end = (before.len() + s.len()) as int;
    assert forall|i: int| end <= i < whole.len() implies white_space(#[trigger] whole[i]) by {
        assert(whole[i] == behind[i - end]);
    }
    assert(whole[end - 1] == s.last());
    trail_reaches(whole, whole.len() as int, end);
    assert(whole.subrange(before.len() as int, end) =~= s);
    assert forall|i: int| 0 <= i < before.len() implies white_space(#[trigger] before[i]) by {}
    run_reaches(before, 0, true, before.len() as int);
    trail_reaches(before, before.len() as int, 0);
}

proof fn trail_reaches(s: Seq<char>, to: int, start: int)
    requires
        0 <= start <= to <= s.len(),
        forall|i: int| start <= i < to ==> white_space(#[trigger] s[i]),
        start > 0 ==> !white_space(s[start - 1]),
    ensures
        trailing_start(s, to) == start,
    decreases to - start,
{
    if start < to {
        assert(white_space(s[to - 1]));
        trail_reaches(s, to - 1, start);
    }
}

/// Decimal notation: a digit is written as such, a further one stands behind the number
/// that it is added to ten times, and no number but zero begins with a zero.
pub proof fn decimals_are_written_digit_by_digit(n: nat, digit: nat)
    requires
        digit < 10,
    ensures
        decimal(digit).len() == 1,
        decimal(digit)[0] as u32 == '0' as u32 + digit,
        n > 0 ==> decimal((10 * n + digit) as nat) == decimal(n) + decimal(digit),
        n > 0 ==> decimal(n)[0] != '0',
        decimal(n).len() > 0,
    decreases n,
{
    if n > 0 {
        assert((10 * n + digit) as nat / 10 == n);
        assert((10 * n + digit) as nat % 10 == digit);
        assert(decimal((10 * n + digit) as nat) =~= decimal(n) + decimal(digit));
        if n >= 10 {
            decimals_are_written_digit_by_digit(n / 10, n % 10);
            assert(decimal(n)[0] == decimal(n / 10)[0]);
        }
    }
}

/// Hexadecimal notation of a width: a further digit stands behind the number that it is
/// added to sixteen times; digits above nine are small letters.
pub proof fn hexadecimals_are_written_digit_by_digit(n: nat, digit: nat, width: nat)
    requires
        digit < 16,
    ensures
        ({
            let longer = hexadecimal((16 * n + digit) as nat, width + 1);
            &&& hexadecimal(n, 0).len() == 0
            &&& longer.len() == width + 1
            &&& longer.drop_last() == hexadecimal(n, width)
            &&& digit < 10 ==> longer.last() as u32 == '0' as u32 + digit
            &&& digit >= 10 ==> longer.last() as u32 == 'a' as u32 + (digit - 10)
        }),
    decreases width,
{
    let longer = hexadecimal((16 * n + digit) as nat, width + 1);
    assert((16 * n + digit) as nat / 16 == n);
    assert((16 * n + digit) as nat % 16 == digit);
    assert(longer.drop_last() =~= hexadecimal(n, width));
    if width > 0 {
        hexadecimals_are_written_digit_by_digit(n / 16, n % 16, (width - 1) as nat);
        assert(16 * (n / 16) + n % 16 == n);
    }
}

/// Reading a number that was written gives it back, with or without a plus sign, if it is
/// not too large; and negative ones with a minus sign. What holds anything but digits is
/// no number.
pub proof fn reading_a_number_gives_it_back(n: nat, max: nat, s: Seq<char>, place: int)
    requires
        1 <= place < s.len(),
        (s[place] as u32) < ('0' as u32) || s[place] as u32 > '9' as u32,
    ensures
        unsigned_up_to(decimal(n), max) == (if n <= max {
            Some(n)
        } else {
            None
        }),
        unsigned_up_to(seq!['+'] + decimal(n), max) == unsigned_up_to(decimal(n), max),
        unsigned_up_to(seq!['-'] + decimal(n), max) is None,
        unsigned_up_to(Seq::<char>::empty(), max) is None,
        signed_32(decimal(n)) == (if n <= 2_147_483_647 {
            Some(n as int)
        } else {
            None
        }),
        signed_32(seq!['-'] + decimal(n)) == (if n <= 2_147_483_648 {
            Some(-(n as int))
        } else {
            None
        }),
        unsigned_up_to(s, max) is None,
        signed_32(s) is None,
{
    reading_undoes_writing(n);
    assert(is_digit(decimal(n)[0]));
    assert((seq!['+'] + decimal(n)).skip(1) =~= decimal(n));
    assert((seq!['-'] + decimal(n)).skip(1) =~= decimal(n));
    assert((seq!['-'] + decimal(n))[0] == '-');
    assert((seq!['+'] + decimal(n))[0] == '+');
    assert(!is_number(seq!['-'] + decimal(n))) by {
        assert(!is_digit((seq!['-'] + decimal(n))[0]));
    }
    assert(!is_digit(s[place]));
    assert(!is_number(s));
    assert(!is_number(s.skip(1))) by {
        assert(s.skip(1)[place - 1] == s[place]);
    }
}

/// What is computed of texts is what is said of them.
pub proof fn texts_are_handled_as_said(
    a: &str,
    b: &str,
    same: bool,
    words_of_a: Vec<String>,
    trimmed_a: String,
    joined_words: String,
    number: Option<u64>,
    max: u64,
    n: u64,
    shown: String,
    list: &Vec<String>,
    found: bool,
)
    requires
        call_ensures(same_text, (a, b), same),
        call_ensures(split_words, (a,), words_of_a),
        call_ensures(trim, (a,), trimmed_a),
        call_ensures(join, (&words_of_a, " "), joined_words),
        call_ensures(parse_unsigned, (a, max), number),
        call_ensures(decimal_text, (n,), shown),
        call_ensures(holds_text, (list, a), found),
    ensures
        same <==> a@ == b@,
        texts(words_of_a@) == words(a@),
        trimmed_a@ == trimmed(a@),
        joined_words@ == joined(words(a@), " "@),
        a@ == decimal(n as nat) && n <= max ==> number == Some(n),
        a@ == decimal(n as nat) && n > max ==> number is None,
        shown@ == decimal(n as nat),
        found <==> texts(list@).contains(a@),
{
    reading_a_number_gives_it_back(n as nat, max as nat, seq!['x', 'x'], 1);
}

/// Words are parted at the white space of Unicode and nowhere else: at each of its
/// twenty-five characters, while every other character alone is a word.
pub proof fn the_white_space_of_unicode_parts_words(a: Seq<char>, b: Seq<char>, c: char)
    ensures
        ({
            let blanks = seq![
                0x9u32, 0xa, 0xb, 0xc, 0xd, 0x20, 0x85, 0xa0, 0x1680, 0x2000, 0x2001, 0x2002, 0x2003,
                0x2004, 0x2005, 0x2006, 0x2007, 0x2008, 0x2009, 0x200a, 0x2028, 0x2029, 0x202f,
                0x205f, 0x3000,
            ];
            &&& blanks.contains(c as u32) ==> words(a.push(c) + b) == words(a) + words(b)
            &&& !blanks.contains(c as u32) ==> words(seq![c]) == seq![seq![c]]
        }),
{
    let blanks = seq![
        0x9u32, 0xa, 0xb, 0xc, 0xd, 0x20, 0x85, 0xa0, 0x1680, 0x2000, 0x2001, 0x2002, 0x2003,
        0x2004, 0x2005, 0x2006, 0x2007, 0x2008, 0x2009, 0x200a, 0x2028, 0x2029, 0x202f, 0x205f,
        0x3000,
    ];
    assert(blanks[0] == 0x9 && blanks[1] == 0xa && blanks[2] == 0xb && blanks[3] == 0xc
        && blanks[4] == 0xd && blanks[5] == 0x20 && blanks[6] == 0x85 && blanks[7] == 0xa0
        && blanks[8] == 0x1680 && blanks[9] == 0x2000 && blanks[10] == 0x2001 && blanks[11]
        == 0x2002 && blanks[12] == 0x2003 && blanks[13] == 0x2004 && blanks[14] == 0x2005
        && blanks[15] == 0x2006 && blanks[16] == 0x2007 && blanks[17] == 0x2008 && blanks[18]
        == 0x2009 && blanks[19] == 0x200a && blanks[20] == 0x2028 && blanks[21] == 0x2029
        && blanks[22] == 0x202f && blanks[23] == 0x205f && blanks[24] == 0x3000);
    if blanks.contains(c as u32) {
        let i = choose|i: int| 0 <= i < blanks.len() && blanks[i] == c as u32;
        assert(0 <= i < 25);
        assert(white_space(c));
        words_of_two_parts(a, c, b);
    } else {
        assert(!white_space(c)) by {
            if white_space(c) {
                assert(blanks.contains(c as u32));
            }
        }
        assert(is_word(seq![c]));
        assert(joined(seq![seq![c]], " "@) == seq![c]);
        splitting_undoes_joining(seq![seq![c]]);
    }
}

/// Zeros in front of a number do not change it.
pub proof fn leading_zeros_do_not_count(s: Seq<char>, max: nat)
    requires
        s.len() > 0,
        forall|i: int| 0 <= i < s.len() ==> '0' as u32 <= (#[trigger] s[i]) as u32 <= '9' as u32,
    ensures
        unsigned_up_to(seq!['0'] + s, max) == unsigned_up_to(s, max),
{
    let longer = seq!['0'] + s;
    zeros_add_nothing(s);
    assert(is_number(longer)) by {
        assert forall|i: int| 0 <= i < longer.len() implies is_digit(#[trigger] longer[i]) by {
            if i > 0 {
                assert(longer[i] == s[i - 1]);
            }
        }
    }
    assert(is_number(s));
    assert(longer[0] == '0');
    assert('0' as u32 <= s[0] as u32 <= '9' as u32);
}

proof fn zeros_add_nothing(s: Seq<char>)
    ensures
        digits_value(seq!['0'] + s) == digits_value(s),
    decreases s.len(),
{
    let longer = seq!['0'] + s;
    if s.len() > 0 {
        assert(longer.drop_last() =~= seq!['0'] + s.drop_last());
        assert(longer.last() == s.last());
        zeros_add_nothing(s.drop_last());
    } else {
        assert(longer.drop_last() =~= Seq::<char>::empty());
        assert(longer.last() == '0');
        assert(digits_value(Seq::<char>::empty()) == 0);
        assert(digits_value(longer) == digits_value(longer.drop_last()) * 10 + 0);
        assert(s =~= Seq::<char>::empty());
    }
}

} // verus!
