//! Text scanning: lines, words, comments and integers.

use vstd::prelude::*;

verus! {

/// The characters of a text.
pub fn to_chars(text: &str) -> (chars: Vec<char>)
    ensures
        chars@ == text@,
{
    let mut out: Vec<char> = Vec::new();
    for c in it: text.chars()
        invariant
            it.seq() == text@,
            out@ == text@.take(it.index() as int),
    {
        out.push(c);
        assert(out@ =~= text@.take(it.index() as int + 1));
    }
    assert(out@ =~= text@);
    out
}

/// The texts that a list of character lists holds.
pub open spec fn texts(list: Seq<Vec<char>>) -> Seq<Seq<char>> {
    Seq::new(list.len(), |i: int| list[i]@)
}

fn slice_chars(s: &Vec<char>, start: usize, end: usize) -> (r: Vec<char>)
    requires
        start <= end <= s@.len(),
    ensures
        r@ == s@.subrange(start as int, end as int),
{
    let mut r: Vec<char> = Vec::new();
    for i in start..end
        invariant
            start <= i <= end <= s@.len(),
            r@ == s@.subrange(start as int, i as int),
    {
        r.push(s[i]);
        assert(r@ =~= s@.subrange(start as int, i + 1));
    }
    r
}

/// A string of the characters.
pub fn to_string(s: &Vec<char>) -> (r: String)
    ensures
        r@ == s@,
{
    let mut r: String = String::new();
    push_chars(&mut r, s);
    assert(r@ =~= s@);
    r
}

/// Appends the characters.
pub fn push_chars(out: &mut String, s: &Vec<char>)
    ensures
        final(out)@ == old(out)@ + s@,
{
    let ghost before = out@;
    for i in 0..s.len()
        invariant
            out@ == before + s@.take(i as int),
    {
        out.push(s[i]);
        assert(out@ =~= before + s@.take(i + 1));
    }
    assert(s@.take(s@.len() as int) =~= s@);
}

/// The text equals a literal.
pub fn is_text(s: &Vec<char>, literal: &str) -> (same: bool)
    ensures
        same == (s@ == literal@),
{
    let other: Vec<char> = to_chars(literal);
    if s.len() != other.len() {
        return false;
    }
    for i in 0..s.len()
        invariant
            other@ == literal@,
            s@.len() == other@.len(),
            forall|k: int| 0 <= k < i ==> s@[k] == other@[k],
    {
        if s[i] != other[i] {
            assert(s@[i as int] != literal@[i as int]);
            return false;
        }
    }
    assert(s@ =~= literal@);
    true
}

/// White space as Unicode has it.
pub open spec fn white(c: char) -> bool {
    let n = c as u32;
    ||| 0x9 <= n <= 0xd
    ||| n == 0x20
    ||| n == 0x85
    ||| n == 0xa0
    ||| n == 0x1680
    ||| 0x2000 <= n <= 0x200a
    ||| n == 0x2028
    ||| n == 0x2029
    ||| n == 0x202f
    ||| n == 0x205f
    ||| n == 0x3000
}

pub fn is_white(c: char) -> (b: bool)
    ensures
        b == white(c),
{
    let n: u32 = c as u32;
    (0x9 <= n && n <= 0xd) || n == 0x20 || n == 0x85 || n == 0xa0 || n == 0x1680 || (0x2000 <= n && n
        <= 0x200a) || n == 0x2028 || n == 0x2029 || n == 0x202f || n == 0x205f || n == 0x3000
}

pub open spec fn without_return(s: Seq<char>) -> Seq<char> {
    if s.len() > 0 && s.last() == '\r' {
        s.drop_last()
    } else {
        s
    }
}

/// The lines that end within the first `i` characters, and the line that is
/// then open.
pub open spec fn lines_upto(s: Seq<char>, i: nat) -> (Seq<Seq<char>>, Seq<char>)
    decreases i,
{
    if i == 0 {
        (Seq::empty(), Seq::empty())
    } else {
        let (done, open) = lines_upto(s, (i - 1) as nat);
        if s[i - 1] == '\n' {
            (done.push(without_return(open)), Seq::empty())
        } else {
            (done, open.push(s[i - 1]))
        }
    }
}

/// Lines of a text. A line ends with a line feed, or a carriage return and a
/// line feed, which are no part of it; the last line need not end so.
pub open spec fn lines_of(s: Seq<char>) -> Seq<Seq<char>> {
    let (done, open) = lines_upto(s, s.len());
    if open.len() == 0 {
        done
    } else {
        done.push(open)
    }
}

/// Splits a text into its lines.
pub fn split_lines(s: &Vec<char>) -> (lines: Vec<Vec<char>>)
    ensures
        texts(lines@) == lines_of(s@),
{
    let mut done: Vec<Vec<char>> = Vec::new();
    let mut open: Vec<char> = Vec::new();
    assert(texts(done@) =~= Seq::empty());
    for i in 0..s.len()
        invariant
            (texts(done@), open@) == lines_upto(s@, i as nat),
    {
        let ghost before = done@;
        if s[i] == '\n' {
            if open.len() > 0 && open[open.len() - 1] == '\r' {
                open.pop();
            }
            done.push(open);
            assert(texts(done@) =~= texts(before).push(done@.last()@));
            open = Vec::new();
        } else {
            open.push(s[i]);
        }
    }
    if open.len() > 0 {
        let ghost before = done@;
        done.push(open);
        assert(texts(done@) =~= texts(before).push(done@.last()@));
    }
    done
}

/// The words that end within the first `i` characters, and the word that is
/// then open.
pub open spec fn words_upto(s: Seq<char>, i: nat) -> (Seq<Seq<char>>, Seq<char>)
    decreases i,
{
    if i == 0 {
        (Seq::empty(), Seq::empty())
    } else {
        let (done, open) = words_upto(s, (i - 1) as nat);
        if !white(s[i - 1]) {
            (done, open.push(s[i - 1]))
        } else if open.len() == 0 {
            (done, open)
        } else {
            (done.push(open), Seq::empty())
        }
    }
}

/// The words of a text: its longest runs of characters that are not white.
pub open spec fn words_of(s: Seq<char>) -> Seq<Seq<char>> {
    let (done, open) = words_upto(s, s.len());
    if open.len() == 0 {
        done
    } else {
        done.push(open)
    }
}

/// Splits a text into its words.
pub fn split_words(s: &Vec<char>) -> (words: Vec<Vec<char>>)
    ensures
        texts(words@) == words_of(s@),
{
    let mut done: Vec<Vec<char>> = Vec::new();
    let mut open: Vec<char> = Vec::new();
    assert(texts(done@) =~= Seq::empty());
    for i in 0..s.len()
        invariant
            (texts(done@), open@) == words_upto(s@, i as nat),
    {
        let ghost before = done@;
        if !is_white(s[i]) {
            open.push(s[i]);
        } else if open.len() > 0 {
            done.push(open);
            assert(texts(done@) =~= texts(before).push(done@.last()@));
            open = Vec::new();
        }
    }
    if open.len() > 0 {
        let ghost before = done@;
        done.push(open);
        assert(texts(done@) =~= texts(before).push(done@.last()@));
    }
    done
}

pub open spec fn trim_start(s: Seq<char>) -> Seq<char>
    decreases s.len(),
{
    if s.len() > 0 && white(s[0]) {
        trim_start(s.skip(1))
    } else {
        s
    }
}

pub open spec fn trim_end(s: Seq<char>) -> Seq<char>
    decreases s.len(),
{
    if s.len() > 0 && white(s.last()) {
        trim_end(s.drop_last())
    } else {
        s
    }
}

/// The text without the white space at its ends.
pub open spec fn trimmed(s: Seq<char>) -> Seq<char> {
    trim_end(trim_start(s))
}

pub fn trim(s: &Vec<char>) -> (r: Vec<char>)
    ensures
        r@ == trimmed(s@),
{
    let n: usize = s.len();
    let mut i: usize = 0;
    assert(s@.skip(0) =~= s@);
    while i < n && is_white(s[i])
        invariant
            i <= n == s@.len(),
            trim_start(s@) == trim_start(s@.skip(i as int)),
        decreases n - i,
    {
        assert(s@.skip(i as int).skip(1) =~= s@.skip(i + 1));
        i = i + 1;
    }
    let ghost rest = s@.skip(i as int);
    assert(trim_start(s@) == rest);
    let mut j: usize = n;
    assert(s@.subrange(i as int, j as int) =~= rest);
    while j > i && is_white(s[j - 1])
        invariant
            i <= j <= n == s@.len(),
            trim_end(rest) == trim_end(s@.subrange(i as int, j as int)),
        decreases j,
    {
        assert(s@.subrange(i as int, j as int).drop_last() =~= s@.subrange(i as int, j - 1));
        j = j - 1;
    }
    slice_chars(s, i, j)
}

/// Position of the first `#` from `i` on, or the length.
pub open spec fn hash_from(s: Seq<char>, i: nat) -> nat
    decreases s.len() - i,
{
    if i >= s.len() {
        s.len()
    } else if s[i as int] == '#' {
        i
    } else {
        hash_from(s, i + 1)
    }
}

/// The trimmed text before a comment.
pub open spec fn token_of(line: Seq<char>) -> Seq<char> {
    let s = trimmed(line);
    trimmed(s.take(hash_from(s, 0) as int))
}

pub fn token(line: &Vec<char>) -> (r: Vec<char>)
    ensures
        r@ == token_of(line@),
{
    let s: Vec<char> = trim(line);
    let mut i: usize = 0;
    while i < s.len() && s[i] != '#'
        invariant
            i <= s@.len(),
            hash_from(s@, 0) == hash_from(s@, i as nat),
        decreases s@.len() - i,
    {
        i = i + 1;
    }
    assert(hash_from(s@, 0) == i);
    let head: Vec<char> = slice_chars(&s, 0, i);
    assert(head@ =~= s@.take(i as int));
    trim(&head)
}

/// The text after its first character.
pub fn tail(s: &Vec<char>) -> (r: Vec<char>)
    requires
        s@.len() > 0,
    ensures
        r@ == s@.skip(1),
{
    let r: Vec<char> = slice_chars(s, 1, s.len());
    assert(r@ =~= s@.skip(1));
    r
}

/// Why a text is no integer.
#[derive(Debug, Clone, Copy, PartialEq, Eq, Structural)]
pub enum IntFault {
    Empty,
    Digit,
    TooLarge,
}

/// What a fault is called in messages.
pub open spec fn fault_text(fault: IntFault) -> Seq<char> {
    match fault {
        IntFault::Empty => "cannot parse integer from empty string"@,
        IntFault::Digit => "invalid digit found in string"@,
        IntFault::TooLarge => "number too large to fit in target type"@,
    }
}

pub fn push_fault(out: &mut String, fault: IntFault)
    ensures
        final(out)@ == old(out)@ + fault_text(fault),
{
    match fault {
        IntFault::Empty => out.append("cannot parse integer from empty string"),
        IntFault::Digit => out.append("invalid digit found in string"),
        IntFault::TooLarge => out.append("number too large to fit in target type"),
    }
}

pub open spec fn is_digit(c: char) -> bool {
    '0' <= c <= '9'
}

/// Value of the first `i` characters as decimal digits; the first character
/// that is no digit, or takes the value beyond `max`, is the fault.
pub open spec fn digits_value(s: Seq<char>, i: nat, max: nat) -> Result<nat, IntFault>
    decreases i,
{
    if i == 0 {
        Ok(0)
    } else {
        match digits_value(s, (i - 1) as nat, max) {
            Err(f) => Err(f),
            Ok(v) => {
                let c = s[i - 1];
                if !is_digit(c) {
                    Err(IntFault::Digit)
                } else if v * 10 + (c as nat - 48) > max {
                    Err(IntFault::TooLarge)
                } else {
                    Ok((v * 10 + (c as nat - 48)) as nat)
                }
            },
        }
    }
}

/// A text as a natural number up to `max`: digits, with or without a plus
/// sign.
pub open spec fn natural_of(s: Seq<char>, max: nat) -> Result<nat, IntFault> {
    if s.len() == 0 {
        Err(IntFault::Empty)
    } else if s.len() == 1 && (s[0] == '+' || s[0] == '-') {
        Err(IntFault::Digit)
    } else if s[0] == '+' {
        digits_value(s.skip(1), (s.len() - 1) as nat, max)
    } else {
        digits_value(s, s.len(), max)
    }
}

fn digits(s: &Vec<char>, max: u64) -> (r: Result<u64, IntFault>)
    requires
        max >= 9,
    ensures
        match r {
            Ok(v) => digits_value(s@, s@.len(), max as nat) == Ok::<nat, IntFault>(v as nat),
            Err(f) => digits_value(s@, s@.len(), max as nat) == Err::<nat, IntFault>(f),
        },
{
    let mut r: Result<u64, IntFault> = Ok(0);
    for i in 0..s.len()
        invariant
            max >= 9,
            match r {
                Ok(v) => digits_value(s@, i as nat, max as nat) == Ok::<nat, IntFault>(v as nat),
                Err(f) => digits_value(s@, i as nat, max as nat) == Err::<nat, IntFault>(f),
            },
    {
        match r {
            Err(f) => {
                r = Err(f);
            },
            Ok(v) => {
                let c: char = s[i];
                if !('0' <= c && c <= '9') {
                    r = Err(IntFault::Digit);
                } else {
                    let d: u64 = c as u64 - 48;
                    if v > (max - d) / 10 {
                        r = Err(IntFault::TooLarge);
                    } else {
                        r = Ok(v * 10 + d);
                    }
                }
            },
        }
    }
    r
}

/// Reads a natural number up to `max`.
pub fn parse_natural(s: &Vec<char>, max: u64) -> (r: Result<u64, IntFault>)
    requires
        max >= 9,
    ensures
        match r {
            Ok(v) => natural_of(s@, max as nat) == Ok::<nat, IntFault>(v as nat),
            Err(f) => natural_of(s@, max as nat) == Err::<nat, IntFault>(f),
        },
{
    if s.len() == 0 {
        return Err(IntFault::Empty);
    }
    if s.len() == 1 && (s[0] == '+' || s[0] == '-') {
        return Err(IntFault::Digit);
    }
    if s[0] == '+' {
        digits(&tail(s), max)
    } else {
        digits(s, max)
    }
}

/// A text as a count.
pub open spec fn count_of(s: Seq<char>) -> Result<usize, IntFault> {
    match natural_of(s, usize::MAX as nat) {
        Ok(v) => Ok(v as usize),
        Err(f) => Err(f),
    }
}

proof fn lemma_digits_bound(s: Seq<char>, i: nat, max: nat)
    ensures
        digits_value(s, i, max) matches Ok(v) ==> v <= max,
    decreases i,
{
    if i > 0 {
        lemma_digits_bound(s, (i - 1) as nat, max);
    }
}

/// Reads a count.
pub fn parse_count(s: &Vec<char>) -> (r: Result<usize, IntFault>)
    ensures
        r == count_of(s@),
{
    proof {
        if s@.len() > 0 {
            lemma_digits_bound(s@, s@.len(), usize::MAX as nat);
            lemma_digits_bound(s@.skip(1), (s@.len() - 1) as nat, usize::MAX as nat);
        }
    }
    match parse_natural(s, usize::MAX as u64) {
        Ok(v) => Ok(v as usize),
        Err(f) => Err(f),
    }
}

/// A text as a count, or a default where it is none.
pub open spec fn count_or(s: Seq<char>, default: usize) -> usize {
    match count_of(s) {
        Ok(v) => v,
        Err(_) => default,
    }
}

pub fn parse_count_or(s: &Vec<char>, default: usize) -> (r: usize)
    ensures
        r == count_or(s@, default),
{
    match parse_count(s) {
        Ok(v) => v,
        Err(_) => default,
    }
}

/// A text as a signed integer of 64 bits, or zero where it is none.
pub open spec fn signed_or_zero(s: Seq<char>) -> int {
    if s.len() > 1 && s[0] == '-' {
        match digits_value(s.skip(1), (s.len() - 1) as nat, 0x8000_0000_0000_0000) {
            Ok(v) => -v,
            Err(_) => 0,
        }
    } else {
        match natural_of(s, 0x7fff_ffff_ffff_ffff) {
            Ok(v) => v as int,
            Err(_) => 0,
        }
    }
}

pub fn parse_signed_or_zero(s: &Vec<char>) -> (r: i64)
    ensures
        r == signed_or_zero(s@),
{
    proof {
        if s@.len() > 0 {
            lemma_digits_bound(s@, s@.len(), 0x7fff_ffff_ffff_ffff);
            lemma_digits_bound(s@.skip(1), (s@.len() - 1) as nat, 0x7fff_ffff_ffff_ffff);
            lemma_digits_bound(s@.skip(1), (s@.len() - 1) as nat, 0x8000_0000_0000_0000);
        }
    }
    if s.len() > 1 && s[0] == '-' {
        match digits(&tail(s), 0x8000_0000_0000_0000) {
            Ok(v) => {
                if v == 0x8000_0000_0000_0000 {
                    -0x7fff_ffff_ffff_ffffi64 - 1
                } else {
                    -(v as i64)
                }
            },
            Err(_) => 0,
        }
    } else {
        match parse_natural(s, 0x7fff_ffff_ffff_ffff) {
            Ok(v) => v as i64,
            Err(_) => 0,
        }
    }
}

/// Reading of number literals, as a function from the text to the bit pattern
/// of the number that it writes.
pub struct Numbers<P> {
    pub p: P,
}

impl<P: Fn(&Vec<char>) -> Option<u64>> Numbers<P> {
    /// Every text is accepted, and equal texts have one result.
    pub open spec fn sound(&self) -> bool {
        &&& forall|w: &Vec<char>| call_requires(self.p, (w,))
        &&& forall|w: &Vec<char>, v: &Vec<char>, r: Option<u64>, s: Option<u64>|
            #![trigger call_ensures(self.p, (w,), r), call_ensures(self.p, (v,), s)]
            w@ == v@ && call_ensures(self.p, (w,), r) && call_ensures(self.p, (v,), s) ==> r == s
    }

    pub open spec fn reads(&self, text: Seq<char>, r: Option<u64>) -> bool {
        exists|w: &Vec<char>| w@ == text && #[trigger] call_ensures(self.p, (w,), r)
    }

    /// The number that a text writes, if any.
    pub open spec fn value(&self, text: Seq<char>) -> Option<u64> {
        choose|r: Option<u64>| self.reads(text, r)
    }

    pub open spec fn value_or(&self, text: Seq<char>, default: u64) -> u64 {
        match self.value(text) {
            Some(v) => v,
            None => default,
        }
    }

    /// The number at word `i`, or a default where there is none.
    pub open spec fn word_or(&self, words: Seq<Seq<char>>, i: int, default: u64) -> u64 {
        if 0 <= i < words.len() {
            self.value_or(words[i], default)
        } else {
            default
        }
    }

    pub fn parse(&self, text: &Vec<char>) -> (r: Option<u64>)
        requires
            self.sound(),
        ensures
            r == self.value(text@),
    {
        let r: Option<u64> = (self.p)(text);
        proof {
            assert(self.reads(text@, r));
            assert(self.reads(text@, self.value(text@)));
        }
        r
    }

    pub fn parse_or(&self, text: &Vec<char>, default: u64) -> (r: u64)
        requires
            self.sound(),
        ensures
            r == self.value_or(text@, default),
    {
        match self.parse(text) {
            Some(v) => v,
            None => default,
        }
    }

    pub fn parse_word_or(&self, words: &Vec<Vec<char>>, i: usize, default: u64) -> (r: u64)
        requires
            self.sound(),
        ensures
            r == self.word_or(texts(words@), i as int, default),
    {
        if i < words.len() {
            self.parse_or(&words[i], default)
        } else {
            default
        }
    }
}

/// The count at word `i`, or a default where there is none.
pub open spec fn word_count_or(words: Seq<Seq<char>>, i: int, default: usize) -> usize {
    if 0 <= i < words.len() {
        count_or(words[i], default)
    } else {
        default
    }
}

pub fn parse_word_count_or(words: &Vec<Vec<char>>, i: usize, default: usize) -> (r: usize)
    ensures
        r == word_count_or(texts(words@), i as int, default),
{
    if i < words.len() {
        parse_count_or(&words[i], default)
    } else {
        default
    }
}

/// Word `i`, or the empty text where there is none.
pub open spec fn word_or_empty(words: Seq<Seq<char>>, i: int) -> Seq<char> {
    if 0 <= i < words.len() {
        words[i]
    } else {
        Seq::empty()
    }
}

pub fn word_string(words: &Vec<Vec<char>>, i: usize) -> (r: String)
    ensures
        r@ == word_or_empty(texts(words@), i as int),
{
    if i < words.len() {
        to_string(&words[i])
    } else {
        let r: String = String::new();
        assert(r@ =~= Seq::empty());
        r
    }
}

} // verus!
