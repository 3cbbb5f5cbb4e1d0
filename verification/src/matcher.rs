//! Recognition of declarations in a line of text.
//!
//! A declaration reads, from left to right: optional white space, a name,
//! optional white space, `:`, optional white space, one of the nine type
//! keywords, optional white space, optionally `=` and the value text, and the
//! terminator `;`. The value text runs to the first `;` behind the `=`.
use crate::chars::{
    has_word_at, ident_char, ident_start, is_ident_start, lemma_span_end, lemma_span_end_unique,
    lemma_trimmed, lemma_trimmed_twice, scan_span, space, span_end, to_chars, trim_bounds, trimmed, word_at, CharClass,
};
use crate::value::TypeTag;
use vstd::prelude::*;
use vstd::slice::slice_subrange;
use vstd::string::{StrSliceExecFns, StringExecFns};

verus! {

/// One declaration: a name, a type tag, and the raw value text if one was given.
#[derive(Debug, PartialEq, Eq)]
pub struct Declaration {
    /// The declared name.
    pub name: String,
    /// The declared type.
    pub type_tag: TypeTag,
    /// The text between `=` and `;` without the white space round it; `None`
    /// where the declaration has no `=`.
    pub raw_value: Option<String>,
}

/// A `Declaration` as a mathematical value.
pub struct DeclarationView {
    /// The declared name.
    pub name: Seq<char>,
    /// The declared type.
    pub type_tag: TypeTag,
    /// The raw value text, if one was given.
    pub raw_value: Option<Seq<char>>,
}

impl View for Declaration {
    type V = DeclarationView;

    open spec fn view(&self) -> DeclarationView {
        DeclarationView {
            name: self.name@,
            type_tag: self.type_tag,
            raw_value: match self.raw_value {
                Some(raw) => Some(raw@),
                None => None,
            },
        }
    }
}

/// The declarations `found` as mathematical values, in order.
pub open spec fn views(found: Seq<Declaration>) -> Seq<DeclarationView> {
    found.map_values(|d: Declaration| d@)
}

/// What follows the name in a declaration.
pub struct Tail {
    /// The declared type.
    pub type_tag: TypeTag,
    /// The raw value text, if one was given.
    pub raw_value: Option<Seq<char>>,
    /// The position behind the `;` that ends the declaration.
    pub end: int,
}

/// A declaration together with the position behind its terminator.
pub struct Found {
    /// The declaration.
    pub declaration: DeclarationView,
    /// The position behind the `;` that ends it.
    pub end: int,
}

/// The type keyword that stands at position `pos`, if any.
pub open spec fn tag_at(s: Seq<char>, pos: int) -> Option<TypeTag> {
    if has_word_at(s, pos, TypeTag::String.keyword()) {
        Some(TypeTag::String)
    } else if has_word_at(s, pos, TypeTag::I32.keyword()) {
        Some(TypeTag::I32)
    } else if has_word_at(s, pos, TypeTag::I64.keyword()) {
        Some(TypeTag::I64)
    } else if has_word_at(s, pos, TypeTag::U32.keyword()) {
        Some(TypeTag::U32)
    } else if has_word_at(s, pos, TypeTag::U64.keyword()) {
        Some(TypeTag::U64)
    } else if has_word_at(s, pos, TypeTag::F32.keyword()) {
        Some(TypeTag::F32)
    } else if has_word_at(s, pos, TypeTag::F64.keyword()) {
        Some(TypeTag::F64)
    } else if has_word_at(s, pos, TypeTag::Bool.keyword()) {
        Some(TypeTag::Bool)
    } else if has_word_at(s, pos, TypeTag::Char.keyword()) {
        Some(TypeTag::Char)
    } else {
        None
    }
}

/// Where `word` stands at position `pos`, the characters from `pos` on are
/// those of `word`.
pub proof fn lemma_word_chars(s: Seq<char>, pos: int, word: Seq<char>)
    requires
        has_word_at(s, pos, word),
    ensures
        forall|i: int| 0 <= i < word.len() ==> s[pos + i] == #[trigger] word[i],
{
    assert forall|i: int| 0 <= i < word.len() implies s[pos + i] == #[trigger] word[i] by {
        assert(s.subrange(pos, pos + word.len())[i] == s[pos + i]);
    }
}

/// None of the nine keywords starts with another, so at most one of them
/// stands at a position, and `tag_at` finds the one that does.
pub proof fn lemma_tag_at_finds_the_keyword(s: Seq<char>, pos: int, tag: TypeTag)
    requires
        has_word_at(s, pos, tag.keyword()),
    ensures
        tag_at(s, pos) == Some(tag),
{
    reveal_strlit("string");
    reveal_strlit("int32");
    reveal_strlit("int64");
    reveal_strlit("uint32");
    reveal_strlit("uint64");
    reveal_strlit("float32");
    reveal_strlit("float64");
    reveal_strlit("bool");
    reveal_strlit("char");
    lemma_word_chars(s, pos, tag.keyword());
    let word = tag.keyword();
    assert(s[pos] == word[0]);
    assert(word.len() > 3 && s[pos + 3] == word[3]);
    if has_word_at(s, pos, TypeTag::String.keyword()) {
        lemma_word_chars(s, pos, TypeTag::String.keyword());
        assert(s[pos] == TypeTag::String.keyword()[0]);
    }
    if has_word_at(s, pos, TypeTag::I32.keyword()) {
        lemma_word_chars(s, pos, TypeTag::I32.keyword());
        assert(s[pos] == TypeTag::I32.keyword()[0]);
        assert(s[pos + 3] == TypeTag::I32.keyword()[3]);
    }
    if has_word_at(s, pos, TypeTag::I64.keyword()) {
        lemma_word_chars(s, pos, TypeTag::I64.keyword());
        assert(s[pos] == TypeTag::I64.keyword()[0]);
        assert(s[pos + 3] == TypeTag::I64.keyword()[3]);
    }
    if has_word_at(s, pos, TypeTag::U32.keyword()) {
        lemma_word_chars(s, pos, TypeTag::U32.keyword());
        assert(s[pos] == TypeTag::U32.keyword()[0]);
        assert(s[pos + 4] == TypeTag::U32.keyword()[4]);
    }
    if has_word_at(s, pos, TypeTag::U64.keyword()) {
        lemma_word_chars(s, pos, TypeTag::U64.keyword());
        assert(s[pos] == TypeTag::U64.keyword()[0]);
        assert(s[pos + 4] == TypeTag::U64.keyword()[4]);
    }
    if has_word_at(s, pos, TypeTag::F32.keyword()) {
        lemma_word_chars(s, pos, TypeTag::F32.keyword());
        assert(s[pos] == TypeTag::F32.keyword()[0]);
        assert(s[pos + 5] == TypeTag::F32.keyword()[5]);
    }
    if has_word_at(s, pos, TypeTag::F64.keyword()) {
        lemma_word_chars(s, pos, TypeTag::F64.keyword());
        assert(s[pos] == TypeTag::F64.keyword()[0]);
        assert(s[pos + 5] == TypeTag::F64.keyword()[5]);
    }
    if has_word_at(s, pos, TypeTag::Bool.keyword()) {
        lemma_word_chars(s, pos, TypeTag::Bool.keyword());
        assert(s[pos] == TypeTag::Bool.keyword()[0]);
    }
    if has_word_at(s, pos, TypeTag::Char.keyword()) {
        lemma_word_chars(s, pos, TypeTag::Char.keyword());
        assert(s[pos] == TypeTag::Char.keyword()[0]);
    }
}

/// What follows a name that ends at position `pos`, if the text from there on
/// completes a declaration: the `:`, the type keyword, and then either the
/// terminator, or `=` and the value text up to the first terminator.
pub open spec fn tail_at(s: Seq<char>, pos: int) -> Option<Tail> {
    let colon = span_end(s, pos, CharClass::Space);
    let tag_start = span_end(s, colon + 1, CharClass::Space);
    if colon < s.len() && s[colon] == ':' {
        match tag_at(s, tag_start) {
            Some(tag) => {
                let mark = span_end(s, tag_start + tag.keyword().len(), CharClass::Space);
                let terminator = span_end(s, mark + 1, CharClass::Value);
                if mark < s.len() && s[mark] == ';' {
                    Some(Tail { type_tag: tag, raw_value: None, end: mark + 1 })
                } else if mark < s.len() && s[mark] == '=' && terminator < s.len() {
                    Some(
                        Tail {
                            type_tag: tag,
                            raw_value: Some(trimmed(s.subrange(mark + 1, terminator))),
                            end: terminator + 1,
                        },
                    )
                } else {
                    None
                }
            },
            None => None,
        }
    } else {
        None
    }
}

/// The declaration that starts at position `start`, if the text from there on
/// has the form of one: white space, if any, then a name and what follows it.
pub open spec fn declaration_at(s: Seq<char>, start: int) -> Option<Found> {
    let name_start = span_end(s, start, CharClass::Space);
    let name_end = span_end(s, name_start, CharClass::Ident);
    if name_start < s.len() && ident_start(s[name_start]) {
        match tail_at(s, name_end) {
            Some(tail) => Some(
                Found {
                    declaration: DeclarationView {
                        name: s.subrange(name_start, name_end),
                        type_tag: tail.type_tag,
                        raw_value: tail.raw_value,
                    },
                    end: tail.end,
                },
            ),
            None => None,
        }
    } else {
        None
    }
}

/// What follows a name lies within the text and holds a `:` and, as its last
/// character, the terminator `;`.
pub proof fn lemma_tail_at(s: Seq<char>, pos: int)
    requires
        0 <= pos <= s.len(),
        tail_at(s, pos) is Some,
    ensures
        pos < tail_at(s, pos)->Some_0.end <= s.len(),
        s[tail_at(s, pos)->Some_0.end - 1] == ';',
        exists|i: int| pos <= i < tail_at(s, pos)->Some_0.end && s[i] == ':',
{
    let colon = span_end(s, pos, CharClass::Space);
    let tag_start = span_end(s, colon + 1, CharClass::Space);
    lemma_span_end(s, pos, CharClass::Space);
    lemma_span_end(s, colon + 1, CharClass::Space);
    let tag = tag_at(s, tag_start)->Some_0;
    let mark = span_end(s, tag_start + tag.keyword().len(), CharClass::Space);
    lemma_span_end(s, tag_start + tag.keyword().len(), CharClass::Space);
    if s[mark] == '=' {
        lemma_span_end(s, mark + 1, CharClass::Value);
    }
    assert(pos <= colon < tail_at(s, pos)->Some_0.end && s[colon] == ':');
}

/// A declaration lies within the text, is not empty, and holds a `:` and, as
/// its last character, the terminator `;`.
pub proof fn lemma_declaration_at(s: Seq<char>, start: int)
    requires
        0 <= start <= s.len(),
        declaration_at(s, start) is Some,
    ensures
        start < declaration_at(s, start)->Some_0.end <= s.len(),
        s[declaration_at(s, start)->Some_0.end - 1] == ';',
        exists|i: int| start <= i < declaration_at(s, start)->Some_0.end && s[i] == ':',
{
    let name_start = span_end(s, start, CharClass::Space);
    let name_end = span_end(s, name_start, CharClass::Ident);
    lemma_span_end(s, start, CharClass::Space);
    lemma_span_end(s, name_start, CharClass::Ident);
    lemma_tail_at(s, name_end);
    let i = choose|i: int| name_end <= i < tail_at(s, name_end)->Some_0.end && s[i] == ':';
    assert(start <= i < declaration_at(s, start)->Some_0.end && s[i] == ':');
}

/// The declarations of `s` from position `pos` on, from left to right: at
/// each position the declaration that starts there is taken, and the search
/// goes on behind it; where none starts, the search moves on by one character.
pub open spec fn declarations_from(s: Seq<char>, pos: int) -> Seq<DeclarationView>
    decreases s.len() - pos,
{
    if 0 <= pos < s.len() {
        match declaration_at(s, pos) {
            Some(found) => {
                proof {
                    lemma_declaration_at(s, pos);
                }
                seq![found.declaration] + declarations_from(s, found.end)
            },
            None => declarations_from(s, pos + 1),
        }
    } else {
        Seq::empty()
    }
}

/// The declarations of the line `s`, from left to right.
pub open spec fn declarations(s: Seq<char>) -> Seq<DeclarationView> {
    declarations_from(s, 0)
}

/// A name: a letter or `_`, then letters, digits and `_`.
pub open spec fn identifier(name: Seq<char>) -> bool {
    &&& name.len() > 0
    &&& ident_start(name.first())
    &&& forall|i: int| 0 <= i < name.len() ==> ident_char(#[trigger] name[i])
}

/// The form of a declaration that the matcher hands out: its name is an
/// identifier, and its raw value, if it has one, holds no terminator and no
/// white space at either end.
pub open spec fn well_formed(declaration: DeclarationView) -> bool {
    &&& identifier(declaration.name)
    &&& match declaration.raw_value {
        Some(raw) => trimmed(raw) == raw && forall|i: int|
            0 <= i < raw.len() ==> #[trigger] raw[i] != ';',
        None => true,
    }
}

/// The declaration that starts at a position is well formed.
pub proof fn lemma_found_is_well_formed(s: Seq<char>, start: int)
    requires
        0 <= start <= s.len(),
        declaration_at(s, start) is Some,
    ensures
        well_formed(declaration_at(s, start)->Some_0.declaration),
{
    let name_start = span_end(s, start, CharClass::Space);
    let name_end = span_end(s, name_start, CharClass::Ident);
    lemma_span_end(s, start, CharClass::Space);
    lemma_span_end(s, name_start, CharClass::Ident);
    let name = s.subrange(name_start, name_end);
    assert(name.first() == s[name_start]);
    assert forall|i: int| 0 <= i < name.len() implies ident_char(#[trigger] name[i]) by {
        assert(name[i] == s[name_start + i]);
    }
    let colon = span_end(s, name_end, CharClass::Space);
    let tag_start = span_end(s, colon + 1, CharClass::Space);
    lemma_span_end(s, name_end, CharClass::Space);
    lemma_span_end(s, colon + 1, CharClass::Space);
    let tag = tag_at(s, tag_start)->Some_0;
    let mark = span_end(s, tag_start + tag.keyword().len(), CharClass::Space);
    lemma_span_end(s, tag_start + tag.keyword().len(), CharClass::Space);
    if s[mark] == '=' {
        let terminator = span_end(s, mark + 1, CharClass::Value);
        lemma_span_end(s, mark + 1, CharClass::Value);
        let between = s.subrange(mark + 1, terminator);
        let raw = trimmed(between);
        lemma_trimmed(between);
        let (from, to): (int, int) = choose|from: int, to: int|
            0 <= from <= to <= between.len() && trimmed(between) == between.subrange(from, to);
        assert forall|i: int| 0 <= i < raw.len() implies #[trigger] raw[i] != ';' by {
            assert(raw[i] == s[mark + 1 + from + i]);
        }
        lemma_trimmed_twice(between);
    }
}

/// Every declaration of a line is well formed.
pub proof fn lemma_declarations_are_well_formed(s: Seq<char>, pos: int)
    requires
        0 <= pos,
    ensures
        forall|k: int|
            0 <= k < declarations_from(s, pos).len() ==> well_formed(
                #[trigger] declarations_from(s, pos)[k],
            ),
    decreases s.len() - pos,
{
    if pos < s.len() {
        match declaration_at(s, pos) {
            Some(found) => {
                lemma_declaration_at(s, pos);
                lemma_found_is_well_formed(s, pos);
                lemma_declarations_are_well_formed(s, found.end);
                let rest = declarations_from(s, found.end);
                assert forall|k: int| 0 <= k < declarations_from(s, pos).len() implies well_formed(
                    #[trigger] declarations_from(s, pos)[k],
                ) by {
                    if k > 0 {
                        assert(declarations_from(s, pos)[k] == rest[k - 1]);
                    }
                }
            },
            None => {
                lemma_declarations_are_well_formed(s, pos + 1);
                assert(declarations_from(s, pos) == declarations_from(s, pos + 1));
            },
        }
    } else {
        assert(declarations_from(s, pos).len() == 0);
    }
}

/// Where no declaration starts from `pos` up to `to`, the search from `pos`
/// finds what the search from `to` finds.
pub proof fn lemma_search_moves_on(s: Seq<char>, pos: int, to: int)
    requires
        0 <= pos <= to <= s.len(),
        forall|i: int| pos <= i < to ==> declaration_at(s, i) is None,
    ensures
        declarations_from(s, pos) == declarations_from(s, to),
    decreases to - pos,
{
    if pos < to {
        lemma_search_moves_on(s, pos + 1, to);
    }
}

/// A line in which no declaration starts at or after `pos` holds none from
/// there on.
pub proof fn lemma_no_declaration(s: Seq<char>, pos: int)
    requires
        forall|i: int| pos <= i < s.len() ==> declaration_at(s, i) is None,
    ensures
        declarations_from(s, pos) == Seq::<DeclarationView>::empty(),
    decreases s.len() - pos,
{
    if 0 <= pos < s.len() {
        lemma_no_declaration(s, pos + 1);
    }
}

/// Text without a `:` from `pos` on holds no declaration from there on.
pub proof fn lemma_no_colon_from(s: Seq<char>, pos: int)
    requires
        0 <= pos,
        forall|i: int| pos <= i < s.len() ==> s[i] != ':',
    ensures
        declarations_from(s, pos) == Seq::<DeclarationView>::empty(),
{
    assert forall|i: int| pos <= i < s.len() implies declaration_at(s, i) is None by {
        if declaration_at(s, i) is Some {
            lemma_declaration_at(s, i);
        }
    }
    lemma_no_declaration(s, pos);
}

/// Text without the terminator `;` from `pos` on holds no declaration from
/// there on.
pub proof fn lemma_no_terminator_from(s: Seq<char>, pos: int)
    requires
        0 <= pos,
        forall|i: int| pos <= i < s.len() ==> s[i] != ';',
    ensures
        declarations_from(s, pos) == Seq::<DeclarationView>::empty(),
{
    assert forall|i: int| pos <= i < s.len() implies declaration_at(s, i) is None by {
        if declaration_at(s, i) is Some {
            lemma_declaration_at(s, i);
        }
    }
    lemma_no_declaration(s, pos);
}

/// A line without a `:` holds no declaration.
pub proof fn lemma_no_colon(s: Seq<char>)
    requires
        forall|i: int| 0 <= i < s.len() ==> s[i] != ':',
    ensures
        declarations(s) == Seq::<DeclarationView>::empty(),
{
    lemma_no_colon_from(s, 0);
}

/// A line without the terminator `;` holds no declaration.
pub proof fn lemma_no_terminator(s: Seq<char>)
    requires
        forall|i: int| 0 <= i < s.len() ==> s[i] != ';',
    ensures
        declarations(s) == Seq::<DeclarationView>::empty(),
{
    lemma_no_terminator_from(s, 0);
}

/// Where the white space from `pos` on is followed by no name, no
/// declaration starts from `pos` up to and including the end of that white
/// space.
proof fn lemma_no_name(s: Seq<char>, pos: int)
    requires
        0 <= pos <= s.len(),
        span_end(s, pos, CharClass::Space) == s.len() || !ident_start(
            s[span_end(s, pos, CharClass::Space)],
        ),
    ensures
        forall|i: int|
            pos <= i <= span_end(s, pos, CharClass::Space) ==> declaration_at(s, i) is None,
{
    let name_start = span_end(s, pos, CharClass::Space);
    lemma_span_end(s, pos, CharClass::Space);
    assert forall|i: int| pos <= i <= name_start implies declaration_at(s, i) is None by {
        lemma_span_end_unique(s, i, name_start, CharClass::Space);
    }
}

/// Where a name is followed by nothing that completes a declaration, no
/// declaration starts before the end of the name: neither in the white space
/// before it nor inside it.
proof fn lemma_no_tail(s: Seq<char>, pos: int)
    requires
        0 <= pos <= s.len(),
        span_end(s, pos, CharClass::Space) < s.len(),
        tail_at(s, span_end(s, span_end(s, pos, CharClass::Space), CharClass::Ident)) is None,
    ensures
        forall|i: int|
            pos <= i < span_end(s, span_end(s, pos, CharClass::Space), CharClass::Ident)
                ==> declaration_at(s, i) is None,
{
    let name_start = span_end(s, pos, CharClass::Space);
    let name_end = span_end(s, name_start, CharClass::Ident);
    lemma_span_end(s, pos, CharClass::Space);
    lemma_span_end(s, name_start, CharClass::Ident);
    assert forall|i: int| pos <= i < name_end implies declaration_at(s, i) is None by {
        if i <= name_start {
            lemma_span_end_unique(s, i, name_start, CharClass::Space);
        } else {
            assert(ident_char(s[i]) && !space(s[i]));
            lemma_span_end_unique(s, i, i, CharClass::Space);
            lemma_span_end_unique(s, i, name_end, CharClass::Ident);
        }
    }
}

/// Looks for a type keyword at position `pos`, and gives the tag and the
/// position behind the keyword.
pub fn match_tag(chars: &[char], pos: usize) -> (r: Option<(TypeTag, usize)>)
    ensures
        match tag_at(chars@, pos as int) {
            Some(tag) => r == Some((tag, (pos + tag.keyword().len()) as usize)),
            None => r is None,
        },
{
    if let Some(end) = word_at(chars, pos, TypeTag::String.as_str()) {
        Some((TypeTag::String, end))
    } else if let Some(end) = word_at(chars, pos, TypeTag::I32.as_str()) {
        Some((TypeTag::I32, end))
    } else if let Some(end) = word_at(chars, pos, TypeTag::I64.as_str()) {
        Some((TypeTag::I64, end))
    } else if let Some(end) = word_at(chars, pos, TypeTag::U32.as_str()) {
        Some((TypeTag::U32, end))
    } else if let Some(end) = word_at(chars, pos, TypeTag::U64.as_str()) {
        Some((TypeTag::U64, end))
    } else if let Some(end) = word_at(chars, pos, TypeTag::F32.as_str()) {
        Some((TypeTag::F32, end))
    } else if let Some(end) = word_at(chars, pos, TypeTag::F64.as_str()) {
        Some((TypeTag::F64, end))
    } else if let Some(end) = word_at(chars, pos, TypeTag::Bool.as_str()) {
        Some((TypeTag::Bool, end))
    } else if let Some(end) = word_at(chars, pos, TypeTag::Char.as_str()) {
        Some((TypeTag::Char, end))
    } else {
        None
    }
}

/// What the scanner found behind a name.
enum Behind {
    /// The rest of a declaration: its type, its raw value, and the position
    /// behind its terminator.
    Rest(TypeTag, Option<String>, usize),
    /// Nothing that completes a declaration.
    Nothing,
    /// Nothing that completes a declaration, and no terminator from the given
    /// position on.
    Open(usize),
}

/// Reads what follows a name that ends at position `pos` of `line`, whose
/// characters are `chars`.
fn match_tail(line: &str, chars: &[char], pos: usize) -> (r: Behind)
    requires
        chars@ == line@,
        pos <= chars@.len(),
    ensures
        match r {
            Behind::Rest(type_tag, raw_value, end) => tail_at(line@, pos as int) == Some(
                Tail {
                    type_tag,
                    raw_value: match raw_value {
                        Some(raw) => Some(raw@),
                        None => None,
                    },
                    end: end as int,
                },
            ),
            Behind::Nothing => tail_at(line@, pos as int) is None,
            Behind::Open(from) => tail_at(line@, pos as int) is None && from <= line@.len()
                && forall|i: int| from <= i < line@.len() ==> line@[i] != ';',
        },
{
    let n: usize = chars.len();
    let colon: usize = scan_span(chars, pos, CharClass::Space);
    if colon >= n || chars[colon] != ':' {
        return Behind::Nothing;
    }
    let tag_start: usize = scan_span(chars, colon + 1, CharClass::Space);
    let (tag, tag_end) = match match_tag(chars, tag_start) {
        Some(tagged) => tagged,
        None => {
            return Behind::Nothing;
        },
    };
    let mark: usize = scan_span(chars, tag_end, CharClass::Space);
    if mark >= n {
        return Behind::Nothing;
    }
    if chars[mark] == ';' {
        return Behind::Rest(tag, None, mark + 1);
    }
    if chars[mark] != '=' {
        return Behind::Nothing;
    }
    let terminator: usize = scan_span(chars, mark + 1, CharClass::Value);
    if terminator >= n {
        proof {
            lemma_span_end(chars@, mark + 1, CharClass::Value);
        }
        return Behind::Open(mark + 1);
    }
    let (from, to) = trim_bounds(slice_subrange(chars, mark + 1, terminator));
    assert(chars@.subrange(mark + 1, terminator as int).subrange(from as int, to as int)
        =~= chars@.subrange(mark + 1 + from, mark + 1 + to));
    let raw = String::from_str(line.substring_char(mark + 1 + from, mark + 1 + to));
    Behind::Rest(tag, Some(raw), terminator + 1)
}

/// Finds the declarations of a line, from left to right.
///
/// Text that is no part of a declaration is passed over: a line without a
/// declaration gives none, and no line is an error.
pub fn match_line(line: &str) -> (r: Vec<Declaration>)
    ensures
        views(r@) == declarations(line@),
        forall|k: int| 0 <= k < r@.len() ==> well_formed((#[trigger] r@[k])@),
        (forall|i: int| 0 <= i < line@.len() ==> line@[i] != ':') ==> r@.len() == 0,
        (forall|i: int| 0 <= i < line@.len() ==> line@[i] != ';') ==> r@.len() == 0,
{
    let chars = to_chars(line);
    let text: &[char] = chars.as_slice();
    let n: usize = text.len();
    let mut found: Vec<Declaration> = Vec::new();
    let mut pos: usize = 0;
    // No terminator stands at or behind `limit`, so the search can end there.
    let mut limit: usize = n;
    assert(views(found@) + declarations_from(line@, 0) =~= declarations(line@));
    while pos < limit
        invariant
            pos <= n == text@.len(),
            limit <= n,
            text@ == line@,
            forall|i: int| limit <= i < n ==> line@[i] != ';',
            views(found@) + declarations_from(line@, pos as int) == declarations(line@),
        decreases n - pos,
    {
        let name_start: usize = scan_span(text, pos, CharClass::Space);
        if name_start >= n {
            proof {
                lemma_no_name(line@, pos as int);
                lemma_search_moves_on(line@, pos as int, n as int);
            }
            pos = n;
        } else if !is_ident_start(text[name_start]) {
            proof {
                lemma_no_name(line@, pos as int);
                lemma_search_moves_on(line@, pos as int, name_start + 1);
            }
            pos = name_start + 1;
        } else {
            let name_end: usize = scan_span(text, name_start, CharClass::Ident);
            proof {
                lemma_span_end(line@, name_start as int, CharClass::Ident);
            }
            match match_tail(line, text, name_end) {
                Behind::Rest(type_tag, raw_value, end) => {
                    let name = String::from_str(line.substring_char(name_start, name_end));
                    let declaration = Declaration { name, type_tag, raw_value };
                    proof {
                        lemma_declaration_at(line@, pos as int);
                        assert(views(found@.push(declaration)) + declarations_from(
                            line@,
                            end as int,
                        ) =~= views(found@) + declarations_from(line@, pos as int));
                    }
                    found.push(declaration);
                    pos = end;
                },
                Behind::Nothing => {
                    proof {
                        lemma_no_tail(line@, pos as int);
                        lemma_search_moves_on(line@, pos as int, name_end as int);
                    }
                    pos = name_end;
                },
                Behind::Open(from) => {
                    proof {
                        lemma_no_tail(line@, pos as int);
                        lemma_search_moves_on(line@, pos as int, name_end as int);
                    }
                    pos = name_end;
                    if from < limit {
                        limit = from;
                    }
                },
            }
        }
    }
    proof {
        lemma_no_terminator_from(line@, pos as int);
        assert(views(found@) + declarations_from(line@, pos as int) =~= views(found@));
        lemma_declarations_are_well_formed(line@, 0);
        assert forall|k: int| 0 <= k < found@.len() implies well_formed(
            (#[trigger] found@[k])@,
        ) by {
            assert(views(found@)[k] == found@[k]@);
        }
        if forall|i: int| 0 <= i < line@.len() ==> line@[i] != ':' {
            lemma_no_colon(line@);
        }
        if forall|i: int| 0 <= i < line@.len() ==> line@[i] != ';' {
            lemma_no_terminator(line@);
        }
    }
    found
}

} // verus!
