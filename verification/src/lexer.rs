//! The lexical layer of the concrete syntax: blanks, words and numbers.
//!
//! The source text is ASCII. The grammar is stated over its characters;
//! the code reads its bytes.

use vstd::prelude::*;

verus! {

/// A blank: space, tab, line feed or carriage return.
pub open spec fn is_space(c: char) -> bool {
    c == ' ' || c == '\t' || c == '\n' || c == '\r'
}

/// A decimal digit.
pub open spec fn is_digit(c: char) -> bool {
    '0' <= c && c <= '9'
}

/// A character that may begin a word: a letter or an underscore.
pub open spec fn is_word_start(c: char) -> bool {
    ('a' <= c && c <= 'z') || ('A' <= c && c <= 'Z') || c == '_'
}

/// A character that may continue a word: a letter, an underscore or a digit.
pub open spec fn is_word_char(c: char) -> bool {
    is_word_start(c) || is_digit(c)
}

/// The first position at or after `pos` that holds no blank.
pub open spec fn skip_space(s: Seq<char>, pos: int) -> int
    decreases s.len() - pos,
{
    if 0 <= pos < s.len() && is_space(s[pos]) {
        skip_space(s, pos + 1)
    } else {
        pos
    }
}

/// The first position at or after `pos` that holds no word character.
pub open spec fn word_end(s: Seq<char>, pos: int) -> int
    decreases s.len() - pos,
{
    if 0 <= pos < s.len() && is_word_char(s[pos]) {
        word_end(s, pos + 1)
    } else {
        pos
    }
}

/// The first position at or after `pos` that holds no digit.
pub open spec fn digits_end(s: Seq<char>, pos: int) -> int
    decreases s.len() - pos,
{
    if 0 <= pos < s.len() && is_digit(s[pos]) {
        digits_end(s, pos + 1)
    } else {
        pos
    }
}

/// The character `c` stands at `pos`.
pub open spec fn at(s: Seq<char>, pos: int, c: char) -> bool {
    0 <= pos < s.len() && s[pos] == c
}

/// The number that a run of decimal digits denotes.
pub open spec fn number(d: Seq<char>) -> int
    decreases d.len(),
{
    if d.len() == 0 {
        0
    } else {
        number(d.drop_last()) * 10 + (d.last() as int - '0' as int)
    }
}

/// What a word is: one of the five keywords, or a name.
#[derive(Clone, Copy, Debug, PartialEq, Eq, Structural)]
pub enum Word {
    If,
    Else,
    Fn,
    True,
    False,
    Name,
}

/// The kind of the word `w`.
pub open spec fn classify(w: Seq<char>) -> Word {
    if w == seq!['i', 'f'] {
        Word::If
    } else if w == seq!['e', 'l', 's', 'e'] {
        Word::Else
    } else if w == seq!['f', 'n'] {
        Word::Fn
    } else if w == seq!['t', 'r', 'u', 'e'] {
        Word::True
    } else if w == seq!['f', 'a', 'l', 's', 'e'] {
        Word::False
    } else {
        Word::Name
    }
}

/// The bytes are those of the ASCII text `s`, and its offsets fit in 32 bits.
pub open spec fn encodes(bytes: Seq<u8>, s: Seq<char>) -> bool {
    &&& bytes.len() == s.len()
    &&& bytes.len() <= u32::MAX
    &&& forall|i: int| 0 <= i < bytes.len() ==> (#[trigger] bytes[i]) as char == s[i]
}

/// `skip_space` stays within the text.
pub proof fn lemma_skip_space(s: Seq<char>, pos: int)
    requires
        0 <= pos <= s.len(),
    ensures
        pos <= skip_space(s, pos) <= s.len(),
    decreases s.len() - pos,
{
    if pos < s.len() && is_space(s[pos]) {
        lemma_skip_space(s, pos + 1);
    }
}

/// `word_end` stays within the text, and passes a character that begins a word.
pub proof fn lemma_word_end(s: Seq<char>, pos: int)
    requires
        0 <= pos <= s.len(),
    ensures
        pos <= word_end(s, pos) <= s.len(),
        pos < s.len() && is_word_char(s[pos]) ==> pos < word_end(s, pos),
    decreases s.len() - pos,
{
    if pos < s.len() && is_word_char(s[pos]) {
        lemma_word_end(s, pos + 1);
    }
}

/// `digits_end` stays within the text, and passes a digit.
pub proof fn lemma_digits_end(s: Seq<char>, pos: int)
    requires
        0 <= pos <= s.len(),
    ensures
        pos <= digits_end(s, pos) <= s.len(),
        pos < s.len() && is_digit(s[pos]) ==> pos < digits_end(s, pos),
    decreases s.len() - pos,
{
    if pos < s.len() && is_digit(s[pos]) {
        lemma_digits_end(s, pos + 1);
    }
}

/// The position after the blanks that begin at `pos`.
pub(crate) fn skip_blanks(bytes: &[u8], pos: usize, Ghost(s): Ghost<Seq<char>>) -> (res: usize)
    requires
        encodes(bytes@, s),
        pos <= bytes.len(),
    ensures
        res == skip_space(s, pos as int),
        pos <= res <= bytes.len(),
{
    let mut i = pos;
    while i < bytes.len() && (bytes[i] == 32 || bytes[i] == 9 || bytes[i] == 10 || bytes[i] == 13)
        invariant
            encodes(bytes@, s),
            pos <= i <= bytes.len(),
            skip_space(s, pos as int) == skip_space(s, i as int),
        decreases bytes.len() - i,
    {
        i = i + 1;
    }
    i
}

/// The position after the word characters that begin at `pos`.
pub(crate) fn scan_word(bytes: &[u8], pos: usize, Ghost(s): Ghost<Seq<char>>) -> (res: usize)
    requires
        encodes(bytes@, s),
        pos <= bytes.len(),
    ensures
        res == word_end(s, pos as int),
        pos <= res <= bytes.len(),
{
    let mut i = pos;
    while i < bytes.len() && word_byte(bytes[i])
        invariant
            encodes(bytes@, s),
            pos <= i <= bytes.len(),
            word_end(s, pos as int) == word_end(s, i as int),
        decreases bytes.len() - i,
    {
        i = i + 1;
    }
    i
}

/// The position after the digits that begin at `pos`.
pub(crate) fn scan_digits(bytes: &[u8], pos: usize, Ghost(s): Ghost<Seq<char>>) -> (res: usize)
    requires
        encodes(bytes@, s),
        pos <= bytes.len(),
    ensures
        res == digits_end(s, pos as int),
        pos <= res <= bytes.len(),
{
    let mut i = pos;
    while i < bytes.len() && digit_byte(bytes[i])
        invariant
            encodes(bytes@, s),
            pos <= i <= bytes.len(),
            digits_end(s, pos as int) == digits_end(s, i as int),
        decreases bytes.len() - i,
    {
        i = i + 1;
    }
    i
}

/// Whether the byte is a decimal digit.
pub(crate) fn digit_byte(b: u8) -> (res: bool)
    ensures
        res == is_digit(b as char),
{
    48 <= b && b <= 57
}

/// Whether the byte may begin a word.
pub(crate) fn word_start_byte(b: u8) -> (res: bool)
    ensures
        res == is_word_start(b as char),
{
    (97 <= b && b <= 122) || (65 <= b && b <= 90) || b == 95
}

/// Whether the byte may continue a word.
pub(crate) fn word_byte(b: u8) -> (res: bool)
    ensures
        res == is_word_char(b as char),
{
    word_start_byte(b) || digit_byte(b)
}

/// The kind of the word that the bytes from `from` to `to` spell.
pub(crate) fn classify_word(bytes: &[u8], from: usize, to: usize, Ghost(s): Ghost<Seq<char>>) -> (res:
    Word)
    requires
        encodes(bytes@, s),
        from <= to <= bytes.len(),
    ensures
        res == classify(s.subrange(from as int, to as int)),
{
    let ghost w = s.subrange(from as int, to as int);
    let n = to - from;
    proof {
        lemma_keywords();
    }
    if n == 2 && bytes[from] == 105 && bytes[from + 1] == 102 {
        proof {
            assert(w =~= seq!['i', 'f']);
        }
        Word::If
    } else if n == 2 && bytes[from] == 102 && bytes[from + 1] == 110 {
        proof {
            assert(w =~= seq!['f', 'n']);
        }
        Word::Fn
    } else if n == 4 && bytes[from] == 101 && bytes[from + 1] == 108 && bytes[from + 2] == 115
        && bytes[from + 3] == 101 {
        proof {
            assert(w =~= seq!['e', 'l', 's', 'e']);
        }
        Word::Else
    } else if n == 4 && bytes[from] == 116 && bytes[from + 1] == 114 && bytes[from + 2] == 117
        && bytes[from + 3] == 101 {
        proof {
            assert(w =~= seq!['t', 'r', 'u', 'e']);
        }
        Word::True
    } else if n == 5 && bytes[from] == 102 && bytes[from + 1] == 97 && bytes[from + 2] == 108
        && bytes[from + 3] == 115 && bytes[from + 4] == 101 {
        proof {
            assert(w =~= seq!['f', 'a', 'l', 's', 'e']);
        }
        Word::False
    } else {
        proof {
            if n == 2 {
                assert(w[0] == s[from as int] && w[1] == s[from + 1]);
            }
            if n == 4 {
                assert(w[0] == s[from as int] && w[1] == s[from + 1] && w[2] == s[from + 2]
                    && w[3] == s[from + 3]);
            }
            if n == 5 {
                assert(w[0] == s[from as int] && w[1] == s[from + 1] && w[2] == s[from + 2]
                    && w[3] == s[from + 3] && w[4] == s[from + 4]);
            }
        }
        Word::Name
    }
}

/// The keywords, letter by letter.
pub proof fn lemma_keywords()
    ensures
        seq!['i', 'f'].len() == 2,
        seq!['i', 'f'][0] == 'i',
        seq!['i', 'f'][1] == 'f',
        seq!['f', 'n'].len() == 2,
        seq!['f', 'n'][0] == 'f',
        seq!['f', 'n'][1] == 'n',
        seq!['e', 'l', 's', 'e'].len() == 4,
        seq!['e', 'l', 's', 'e'][0] == 'e',
        seq!['e', 'l', 's', 'e'][1] == 'l',
        seq!['e', 'l', 's', 'e'][2] == 's',
        seq!['e', 'l', 's', 'e'][3] == 'e',
        seq!['t', 'r', 'u', 'e'].len() == 4,
        seq!['t', 'r', 'u', 'e'][0] == 't',
        seq!['t', 'r', 'u', 'e'][1] == 'r',
        seq!['t', 'r', 'u', 'e'][2] == 'u',
        seq!['t', 'r', 'u', 'e'][3] == 'e',
        seq!['f', 'a', 'l', 's', 'e'].len() == 5,
        seq!['f', 'a', 'l', 's', 'e'][0] == 'f',
        seq!['f', 'a', 'l', 's', 'e'][1] == 'a',
        seq!['f', 'a', 'l', 's', 'e'][2] == 'l',
        seq!['f', 'a', 'l', 's', 'e'][3] == 's',
        seq!['f', 'a', 'l', 's', 'e'][4] == 'e',
{
}

/// A longer run of digits denotes no smaller a number.
pub proof fn lemma_number_grows(d: Seq<char>, k: int)
    requires
        0 <= k <= d.len(),
        forall|i: int| 0 <= i < d.len() ==> is_digit(#[trigger] d[i]),
    ensures
        0 <= number(d.subrange(0, k)) <= number(d),
    decreases d.len() - k,
{
    if k == d.len() {
        assert(d.subrange(0, k) =~= d);
        lemma_number_nonnegative(d);
    } else {
        let longer = d.subrange(0, k + 1);
        assert(longer.drop_last() =~= d.subrange(0, k));
        lemma_number_grows(d, k + 1);
        lemma_number_nonnegative(d.subrange(0, k));
        assert(is_digit(d[k]));
        assert(longer.last() == d[k]);
    }
}

/// A run of digits denotes no negative number.
pub proof fn lemma_number_nonnegative(d: Seq<char>)
    requires
        forall|i: int| 0 <= i < d.len() ==> is_digit(#[trigger] d[i]),
    ensures
        0 <= number(d),
    decreases d.len(),
{
    if d.len() > 0 {
        lemma_number_nonnegative(d.drop_last());
        assert(is_digit(d[d.len() - 1]));
    }
}

/// Up to `digits_end`, every character is a digit.
pub proof fn lemma_digits_run(s: Seq<char>, pos: int, i: int)
    requires
        0 <= pos <= i < digits_end(s, pos),
        pos <= s.len(),
    ensures
        i < s.len(),
        is_digit(s[i]),
    decreases s.len() - pos,
{
    if pos < s.len() && is_digit(s[pos]) {
        if i > pos {
            lemma_digits_run(s, pos + 1, i);
        }
    }
}

/// The number that the digits from `from` to `to` denote, if it fits.
pub(crate) fn parse_int(bytes: &[u8], from: usize, to: usize, Ghost(s): Ghost<Seq<char>>) -> (res:
    Option<i64>)
    requires
        encodes(bytes@, s),
        from <= to <= bytes.len(),
        forall|i: int| from <= i < to ==> is_digit(#[trigger] s[i]),
    ensures
        match res {
            Some(n) => number(s.subrange(from as int, to as int)) == n,
            None => number(s.subrange(from as int, to as int)) > i64::MAX,
        },
{
    let ghost d = s.subrange(from as int, to as int);
    let mut n: i64 = 0;
    let mut i = from;
    proof {
        assert(d.subrange(0, 0).len() == 0);
    }
    while i < to
        invariant
            encodes(bytes@, s),
            from <= i <= to <= bytes.len(),
            d == s.subrange(from as int, to as int),
            forall|k: int| 0 <= k < d.len() ==> is_digit(#[trigger] d[k]),
            0 <= n,
            n == number(d.subrange(0, i - from)),
        decreases to - i,
    {
        proof {
            assert(is_digit(d[i - from]));
            assert(d[i - from] == s[i as int]);
            assert(bytes[i as int] as char == s[i as int]);
        }
        let digit: i64 = (bytes[i] - 48) as i64;
        proof {
            let longer = d.subrange(0, i - from + 1);
            assert(longer.drop_last() =~= d.subrange(0, i - from));
            assert(longer.last() == d[i - from]);
            assert(is_digit(d[i - from]));
            assert(d[i - from] == s[i as int]);
            lemma_number_grows(d, i - from + 1);
        }
        if n > (i64::MAX - digit) / 10 {
            return None;
        }
        n = n * 10 + digit;
        i = i + 1;
    }
    proof {
        assert(d.subrange(0, to - from) =~= d);
    }
    Some(n)
}

/// The value of a boolean literal.
pub(crate) fn parse_bool(word: Word) -> (res: bool)
    requires
        word == Word::True || word == Word::False,
    ensures
        res == (word == Word::True),
{
    match word {
        Word::True => true,
        _ => false,
    }
}

} // verus!
