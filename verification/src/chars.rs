//! Character classes of the format and the conversion of text to characters.
use vstd::prelude::*;

verus! {

/// White space: the characters that Unicode marks as `White_Space`.
pub open spec fn space(c: char) -> bool {
    let n = c as u32;
    ||| 0x09 <= n <= 0x0D
    ||| n == 0x20
    ||| n == 0x85
    ||| n == 0xA0
    ||| n == 0x1680
    ||| 0x2000 <= n <= 0x200A
    ||| n == 0x2028
    ||| n == 0x2029
    ||| n == 0x202F
    ||| n == 0x205F
    ||| n == 0x3000
}

/// A decimal digit, `0` to `9`.
pub open spec fn digit(c: char) -> bool {
    '0' <= c <= '9'
}

/// A character that may start an identifier: an ASCII letter or `_`.
pub open spec fn ident_start(c: char) -> bool {
    ||| 'A' <= c <= 'Z'
    ||| 'a' <= c <= 'z'
    ||| c == '_'
}

/// A character that may continue an identifier: an ASCII letter, a digit or `_`.
pub open spec fn ident_char(c: char) -> bool {
    ident_start(c) || digit(c)
}

/// Tells whether `c` is white space.
pub fn is_space(c: char) -> (r: bool)
    ensures
        r == space(c),
{
    let n: u32 = c as u32;
    (0x09 <= n && n <= 0x0D) || n == 0x20 || n == 0x85 || n == 0xA0 || n == 0x1680 || (0x2000 <= n
        && n <= 0x200A) || n == 0x2028 || n == 0x2029 || n == 0x202F || n == 0x205F || n == 0x3000
}

/// Tells whether `c` is a decimal digit.
pub fn is_digit(c: char) -> (r: bool)
    ensures
        r == digit(c),
{
    '0' <= c && c <= '9'
}

/// Tells whether `c` may start an identifier.
pub fn is_ident_start(c: char) -> (r: bool)
    ensures
        r == ident_start(c),
{
    ('A' <= c && c <= 'Z') || ('a' <= c && c <= 'z') || c == '_'
}

/// Tells whether `c` may continue an identifier.
pub fn is_ident_char(c: char) -> (r: bool)
    ensures
        r == ident_char(c),
{
    is_ident_start(c) || is_digit(c)
}

/// The classes of characters that the scanner reads in runs.
#[derive(Clone, Copy, Debug, PartialEq, Eq, Structural)]
pub enum CharClass {
    /// White space.
    Space,
    /// Characters that continue an identifier.
    Ident,
    /// Decimal digits.
    Digit,
    /// Everything but the terminator `;`.
    Value,
}

impl CharClass {
    /// Whether `c` belongs to the class.
    pub open spec fn holds(self, c: char) -> bool {
        match self {
            CharClass::Space => space(c),
            CharClass::Ident => ident_char(c),
            CharClass::Digit => digit(c),
            CharClass::Value => c != ';',
        }
    }

    /// Tells whether `c` belongs to the class.
    pub fn contains(self, c: char) -> (r: bool)
        ensures
            r == self.holds(c),
    {
        match self {
            CharClass::Space => is_space(c),
            CharClass::Ident => is_ident_char(c),
            CharClass::Digit => is_digit(c),
            CharClass::Value => c != ';',
        }
    }
}

/// Where the longest run of characters of `class` that starts at `from` ends:
/// the first position at or after `from` that holds no character of the class.
pub open spec fn span_end(s: Seq<char>, from: int, class: CharClass) -> int
    decreases s.len() - from,
{
    if 0 <= from < s.len() && class.holds(s[from]) {
        span_end(s, from + 1, class)
    } else {
        from
    }
}

/// `span_end` lies between `from` and the end of the text, every character
/// before it belongs to the class, and the character at it, if any, does not.
pub proof fn lemma_span_end(s: Seq<char>, from: int, class: CharClass)
    requires
        0 <= from <= s.len(),
    ensures
        from <= span_end(s, from, class) <= s.len(),
        forall|i: int| from <= i < span_end(s, from, class) ==> class.holds(#[trigger] s[i]),
        span_end(s, from, class) < s.len() ==> !class.holds(s[span_end(s, from, class)]),
    decreases s.len() - from,
{
    if from < s.len() && class.holds(s[from]) {
        lemma_span_end(s, from + 1, class);
    }
}

/// A run ends at one position only: a position `to` that is reached through
/// characters of the class only, and that holds none, is `span_end`.
pub proof fn lemma_span_end_unique(s: Seq<char>, from: int, to: int, class: CharClass)
    requires
        0 <= from <= to <= s.len(),
        forall|i: int| from <= i < to ==> class.holds(#[trigger] s[i]),
        to < s.len() ==> !class.holds(s[to]),
    ensures
        span_end(s, from, class) == to,
    decreases to - from,
{
    if from < to {
        lemma_span_end_unique(s, from + 1, to, class);
    }
}

/// Reads the longest run of characters of `class` that starts at `from`, and
/// gives the position at which it ends.
pub fn scan_span(chars: &[char], from: usize, class: CharClass) -> (to: usize)
    ensures
        to == span_end(chars@, from as int, class),
        from <= to,
        from <= chars@.len() ==> to <= chars@.len(),
{
    let mut to: usize = from;
    while to < chars.len() && class.contains(chars[to])
        invariant
            from <= to,
            to <= chars@.len() || to == from,
            forall|i: int| from <= i < to ==> class.holds(#[trigger] chars@[i]),
        decreases chars@.len() - to,
    {
        to += 1;
    }
    proof {
        if from <= chars@.len() {
            lemma_span_end_unique(chars@, from as int, to as int, class);
        }
    }
    to
}

/// `s` without the white space at its start.
pub open spec fn trim_start(s: Seq<char>) -> Seq<char>
    decreases s.len(),
{
    if s.len() > 0 && space(s.first()) {
        trim_start(s.drop_first())
    } else {
        s
    }
}

/// `s` without the white space at its end.
pub open spec fn trim_end(s: Seq<char>) -> Seq<char>
    decreases s.len(),
{
    if s.len() > 0 && space(s.last()) {
        trim_end(s.drop_last())
    } else {
        s
    }
}

/// `s` without the white space at either end.
pub open spec fn trimmed(s: Seq<char>) -> Seq<char> {
    trim_end(trim_start(s))
}

/// What `trim_start` leaves is the end of `s`, and does not start with white
/// space.
pub proof fn lemma_trim_start(s: Seq<char>)
    ensures
        trim_start(s).len() <= s.len(),
        trim_start(s) == s.subrange(s.len() - trim_start(s).len(), s.len() as int),
        trim_start(s).len() > 0 ==> !space(trim_start(s).first()),
    decreases s.len(),
{
    if s.len() > 0 && space(s.first()) {
        let rest = s.drop_first();
        lemma_trim_start(rest);
        assert(rest.subrange(rest.len() - trim_start(rest).len(), rest.len() as int)
            =~= s.subrange(s.len() - trim_start(s).len(), s.len() as int));
    } else {
        assert(s.subrange(0, s.len() as int) =~= s);
    }
}

/// What `trim_end` leaves is the start of `s`, and does not end with white
/// space.
pub proof fn lemma_trim_end(s: Seq<char>)
    ensures
        trim_end(s).len() <= s.len(),
        trim_end(s) == s.subrange(0, trim_end(s).len() as int),
        trim_end(s).len() > 0 ==> !space(trim_end(s).last()),
    decreases s.len(),
{
    if s.len() > 0 && space(s.last()) {
        let rest = s.drop_last();
        lemma_trim_end(rest);
        assert(rest.subrange(0, trim_end(rest).len() as int) =~= s.subrange(
            0,
            trim_end(s).len() as int,
        ));
    } else {
        assert(s.subrange(0, s.len() as int) =~= s);
    }
}

/// Trimmed text is a part of the text it was taken from, and has no white
/// space at either end.
pub proof fn lemma_trimmed(s: Seq<char>)
    ensures
        exists|from: int, to: int| 0 <= from <= to <= s.len() && trimmed(s) == s.subrange(from, to),
        trimmed(s).len() > 0 ==> !space(trimmed(s).first()) && !space(trimmed(s).last()),
{
    let inner = trim_start(s);
    lemma_trim_start(s);
    lemma_trim_end(inner);
    let from = s.len() - inner.len();
    let to = from + trimmed(s).len();
    assert(inner.subrange(0, trimmed(s).len() as int) =~= s.subrange(from, to));
    if trimmed(s).len() > 0 {
        assert(trimmed(s).first() == inner.first());
    }
}

/// Trimming text that was trimmed changes nothing.
pub proof fn lemma_trimmed_twice(s: Seq<char>)
    ensures
        trimmed(trimmed(s)) == trimmed(s),
{
    lemma_trimmed(s);
}

/// The bounds of `chars` without the white space at either end.
pub fn trim_bounds(chars: &[char]) -> (r: (usize, usize))
    ensures
        r.0 <= r.1 <= chars@.len(),
        chars@.subrange(r.0 as int, r.1 as int) == trimmed(chars@),
{
    let n: usize = chars.len();
    let mut a: usize = 0;
    assert(chars@.subrange(0, n as int) =~= chars@);
    while a < n && is_space(chars[a])
        invariant
            a <= n == chars@.len(),
            trim_start(chars@) == trim_start(chars@.subrange(a as int, n as int)),
        decreases n - a,
    {
        assert(chars@.subrange(a as int, n as int).drop_first() =~= chars@.subrange(
            a + 1,
            n as int,
        ));
        a += 1;
    }
    let mut b: usize = n;
    while b > a && is_space(chars[b - 1])
        invariant
            a <= b <= n == chars@.len(),
            trimmed(chars@) == trim_end(chars@.subrange(a as int, b as int)),
        decreases b - a,
    {
        assert(chars@.subrange(a as int, b as int).drop_last() =~= chars@.subrange(
            a as int,
            b - 1,
        ));
        b -= 1;
    }
    (a, b)
}

/// The characters of `text`, in order.
pub fn to_chars(text: &str) -> (r: Vec<char>)
    ensures
        r@ == text@,
{
    let mut r: Vec<char> = Vec::new();
    for c in it: text.chars()
        invariant
            it.seq() == text@,
            r@ == text@.take(it.index() as int),
    {
        r.push(c);
    }
    r
}

/// The text `s` holds `word` at position `pos`.
pub open spec fn has_word_at(s: Seq<char>, pos: int, word: Seq<char>) -> bool {
    &&& 0 <= pos
    &&& pos + word.len() <= s.len()
    &&& s.subrange(pos, pos + word.len()) == word
}

/// Looks for `word` at position `pos` of `chars`, and gives the position
/// behind it where it stands there.
pub fn word_at(chars: &[char], pos: usize, word: &str) -> (r: Option<usize>)
    ensures
        has_word_at(chars@, pos as int, word@) ==> r == Some((pos + word@.len()) as usize),
        !has_word_at(chars@, pos as int, word@) ==> r is None,
{
    let n: usize = chars.len();
    if pos > n {
        return None;
    }
    let mut same: bool = true;
    let mut i: usize = pos;
    for c in it: word.chars()
        invariant
            it.seq() == word@,
            pos <= i <= n == chars@.len(),
            same ==> i == pos + it.index(),
            same ==> forall|j: int| 0 <= j < i - pos ==> chars@[pos + j] == #[trigger] word@[j],
            !same ==> !has_word_at(chars@, pos as int, word@),
    {
        if same {
            if i < n && chars[i] == c {
                i += 1;
            } else {
                same = false;
                proof {
                    if i < n && pos + word@.len() <= n {
                        assert(chars@.subrange(pos as int, pos + word@.len())[i - pos]
                            != word@[i - pos]);
                    }
                }
            }
        }
    }
    if same {
        assert(chars@.subrange(pos as int, pos + word@.len()) =~= word@);
        Some(i)
    } else {
        None
    }
}

/// Tells whether `text` is `word`.
pub fn is_word(text: &[char], word: &str) -> (r: bool)
    ensures
        r == (text@ == word@),
{
    match word_at(text, 0, word) {
        Some(end) => {
            proof {
                if end == text@.len() {
                    assert(text@.subrange(0, text@.len() as int) =~= text@);
                }
            }
            end == text.len()
        },
        None => {
            proof {
                if text@ == word@ {
                    assert(text@.subrange(0, word@.len() as int) =~= text@);
                }
            }
            false
        },
    }
}

} // verus!
