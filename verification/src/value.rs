//! Typed values and the rules by which raw value text becomes one.
use crate::chars::{is_word, lemma_trimmed_twice, to_chars, trim_bounds, trimmed};
use crate::failure::{FailureView, ParseFailure};
use crate::number::{
    float_literal, i32_value, i64_value, is_float_literal, parse_i32, parse_i64, parse_u32,
    parse_u64, u32_value, u64_value,
};
use vstd::prelude::*;
use vstd::slice::slice_subrange;
use vstd::string::{StrSliceExecFns, StringExecFns};

verus! {

/// The nine type tags of the format.
#[derive(Clone, Copy, Debug, PartialEq, Eq, Structural)]
pub enum TypeTag {
    /// `string`
    String,
    /// `int32`
    I32,
    /// `int64`
    I64,
    /// `uint32`
    U32,
    /// `uint64`
    U64,
    /// `float32`
    F32,
    /// `float64`
    F64,
    /// `bool`
    Bool,
    /// `char`
    Char,
}

impl TypeTag {
    /// The keyword that writes the tag.
    pub open spec fn keyword(self) -> Seq<char> {
        match self {
            TypeTag::String => "string"@,
            TypeTag::I32 => "int32"@,
            TypeTag::I64 => "int64"@,
            TypeTag::U32 => "uint32"@,
            TypeTag::U64 => "uint64"@,
            TypeTag::F32 => "float32"@,
            TypeTag::F64 => "float64"@,
            TypeTag::Bool => "bool"@,
            TypeTag::Char => "char"@,
        }
    }

    /// The tag that `text` writes, if it is one of the nine keywords.
    pub open spec fn of(text: Seq<char>) -> Option<TypeTag> {
        if text == "string"@ {
            Some(TypeTag::String)
        } else if text == "int32"@ {
            Some(TypeTag::I32)
        } else if text == "int64"@ {
            Some(TypeTag::I64)
        } else if text == "uint32"@ {
            Some(TypeTag::U32)
        } else if text == "uint64"@ {
            Some(TypeTag::U64)
        } else if text == "float32"@ {
            Some(TypeTag::F32)
        } else if text == "float64"@ {
            Some(TypeTag::F64)
        } else if text == "bool"@ {
            Some(TypeTag::Bool)
        } else if text == "char"@ {
            Some(TypeTag::Char)
        } else {
            None
        }
    }

    /// The keyword that writes the tag.
    pub fn as_str(self) -> (r: &'static str)
        ensures
            r@ == self.keyword(),
    {
        match self {
            TypeTag::String => "string",
            TypeTag::I32 => "int32",
            TypeTag::I64 => "int64",
            TypeTag::U32 => "uint32",
            TypeTag::U64 => "uint64",
            TypeTag::F32 => "float32",
            TypeTag::F64 => "float64",
            TypeTag::Bool => "bool",
            TypeTag::Char => "char",
        }
    }

    /// The tag that `text` writes, if it is one of the nine keywords.
    pub fn from_keyword(text: &str) -> (r: Option<TypeTag>)
        ensures
            r == TypeTag::of(text@),
    {
        let chars = to_chars(text);
        let word: &[char] = chars.as_slice();
        if is_word(word, "string") {
            Some(TypeTag::String)
        } else if is_word(word, "int32") {
            Some(TypeTag::I32)
        } else if is_word(word, "int64") {
            Some(TypeTag::I64)
        } else if is_word(word, "uint32") {
            Some(TypeTag::U32)
        } else if is_word(word, "uint64") {
            Some(TypeTag::U64)
        } else if is_word(word, "float32") {
            Some(TypeTag::F32)
        } else if is_word(word, "float64") {
            Some(TypeTag::F64)
        } else if is_word(word, "bool") {
            Some(TypeTag::Bool)
        } else if is_word(word, "char") {
            Some(TypeTag::Char)
        } else {
            None
        }
    }
}

/// Every tag is the tag that its own keyword writes.
pub proof fn lemma_keyword_names_its_tag(tag: TypeTag)
    ensures
        TypeTag::of(tag.keyword()) == Some(tag),
{
    reveal_strlit("string");
    reveal_strlit("int32");
    reveal_strlit("int64");
    reveal_strlit("uint32");
    reveal_strlit("uint64");
    reveal_strlit("float32");
    reveal_strlit("float64");
    reveal_strlit("bool");
    reveal_strlit("char");
    assert("int32"@[3] != "int64"@[3]);
    assert("uint32"@[0] != "string"@[0]);
    assert("uint64"@[0] != "string"@[0]);
    assert("uint32"@[4] != "uint64"@[4]);
    assert("float32"@[5] != "float64"@[5]);
    assert("bool"@[0] != "char"@[0]);
}

/// The text of a floating-point literal, kept as it was written.
///
/// A value of this type always has the shape `float_literal`, so a reader can
/// turn it into a floating-point number without a further test.
#[derive(Debug, PartialEq, Eq)]
pub struct FloatLiteral {
    text: String,
}

impl View for FloatLiteral {
    type V = Seq<char>;

    closed spec fn view(&self) -> Seq<char> {
        self.text@
    }
}

impl FloatLiteral {
    #[verifier::type_invariant]
    spec fn well_formed(&self) -> bool {
        float_literal(self.text@)
    }

    /// Accepts `text` if it has the shape of a floating-point literal.
    pub fn parse(text: &str) -> (r: Option<FloatLiteral>)
        ensures
            float_literal(text@) ==> r is Some && r->Some_0@ == text@,
            !float_literal(text@) ==> r is None,
    {
        let chars = to_chars(text);
        if is_float_literal(chars.as_slice()) {
            Some(FloatLiteral { text: String::from_str(text) })
        } else {
            None
        }
    }

    /// The literal as it was written.
    pub fn as_str(&self) -> (r: &str)
        ensures
            r@ == self@,
            float_literal(r@),
    {
        proof {
            use_type_invariant(self);
        }
        self.text.as_str()
    }
}

impl Clone for FloatLiteral {
    fn clone(&self) -> (r: Self)
        ensures
            r@ == self@,
    {
        proof {
            use_type_invariant(self);
        }
        FloatLiteral { text: self.text.clone() }
    }
}

/// A typed value.
#[derive(Debug, PartialEq)]
pub enum VxdValue {
    /// Text.
    String(String),
    /// A signed 32-bit integer.
    I32(i32),
    /// A signed 64-bit integer.
    I64(i64),
    /// An unsigned 32-bit integer.
    U32(u32),
    /// An unsigned 64-bit integer.
    U64(u64),
    /// A 32-bit floating-point number, as its literal.
    F32(FloatLiteral),
    /// A 64-bit floating-point number, as its literal.
    F64(FloatLiteral),
    /// A truth value.
    Bool(bool),
    /// A single character.
    Char(char),
    /// The null marker: no value was given, or the text given was no value of
    /// the declared type.
    Null,
}

/// A `VxdValue` as a mathematical value.
pub enum ValueView {
    /// Text.
    String(Seq<char>),
    /// A signed 32-bit integer.
    I32(i32),
    /// A signed 64-bit integer.
    I64(i64),
    /// An unsigned 32-bit integer.
    U32(u32),
    /// An unsigned 64-bit integer.
    U64(u64),
    /// A 32-bit floating-point number, as its literal.
    F32(Seq<char>),
    /// A 64-bit floating-point number, as its literal.
    F64(Seq<char>),
    /// A truth value.
    Bool(bool),
    /// A single character.
    Char(char),
    /// The null marker.
    Null,
}

impl View for VxdValue {
    type V = ValueView;

    open spec fn view(&self) -> ValueView {
        match self {
            VxdValue::String(text) => ValueView::String(text@),
            VxdValue::I32(n) => ValueView::I32(*n),
            VxdValue::I64(n) => ValueView::I64(*n),
            VxdValue::U32(n) => ValueView::U32(*n),
            VxdValue::U64(n) => ValueView::U64(*n),
            VxdValue::F32(literal) => ValueView::F32(literal@),
            VxdValue::F64(literal) => ValueView::F64(literal@),
            VxdValue::Bool(b) => ValueView::Bool(*b),
            VxdValue::Char(c) => ValueView::Char(*c),
            VxdValue::Null => ValueView::Null,
        }
    }
}

impl Clone for VxdValue {
    fn clone(&self) -> (r: Self)
        ensures
            r@ == self@,
    {
        match self {
            VxdValue::String(text) => VxdValue::String(text.clone()),
            VxdValue::I32(n) => VxdValue::I32(*n),
            VxdValue::I64(n) => VxdValue::I64(*n),
            VxdValue::U32(n) => VxdValue::U32(*n),
            VxdValue::U64(n) => VxdValue::U64(*n),
            VxdValue::F32(literal) => VxdValue::F32(literal.clone()),
            VxdValue::F64(literal) => VxdValue::F64(literal.clone()),
            VxdValue::Bool(b) => VxdValue::Bool(*b),
            VxdValue::Char(c) => VxdValue::Char(*c),
            VxdValue::Null => VxdValue::Null,
        }
    }
}

/// The text stands between a pair of double quotes.
pub open spec fn quoted(text: Seq<char>) -> bool {
    text.len() >= 2 && text.first() == '"' && text.last() == '"'
}

/// The text without the pair of double quotes round it, if it has one. Only
/// the outermost pair leaves, and nothing inside is read as an escape.
pub open spec fn unquoted(text: Seq<char>) -> Seq<char> {
    if quoted(text) {
        text.subrange(1, text.len() - 1)
    } else {
        text
    }
}

/// The raw value text that a caller handed over, as a mathematical value.
pub open spec fn raw_text(raw_value: Option<&str>) -> Option<Seq<char>> {
    match raw_value {
        Some(raw) => Some(raw@),
        None => None,
    }
}

/// The raw value without the white space round it; no text where none was given.
pub open spec fn value_text(raw: Option<Seq<char>>) -> Seq<char> {
    match raw {
        Some(text) => trimmed(text),
        None => Seq::empty(),
    }
}

/// The value text stands for no value: it is empty or the word `null`.
pub open spec fn null_text(text: Seq<char>) -> bool {
    text.len() == 0 || text == "null"@
}

/// The value that the raw text `raw` has under the type tag `tag`.
///
/// Text that stands for no value gives the null marker under every tag. So
/// does text that is no literal of a numeric tag, or neither `true` nor
/// `false` under `bool`.
pub open spec fn coerced(tag: TypeTag, raw: Option<Seq<char>>) -> ValueView {
    let text = value_text(raw);
    if null_text(text) {
        ValueView::Null
    } else {
        match tag {
            TypeTag::String => ValueView::String(unquoted(text)),
            TypeTag::I32 => match i32_value(text) {
                Some(n) => ValueView::I32(n),
                None => ValueView::Null,
            },
            TypeTag::I64 => match i64_value(text) {
                Some(n) => ValueView::I64(n),
                None => ValueView::Null,
            },
            TypeTag::U32 => match u32_value(text) {
                Some(n) => ValueView::U32(n),
                None => ValueView::Null,
            },
            TypeTag::U64 => match u64_value(text) {
                Some(n) => ValueView::U64(n),
                None => ValueView::Null,
            },
            TypeTag::F32 => if float_literal(text) {
                ValueView::F32(text)
            } else {
                ValueView::Null
            },
            TypeTag::F64 => if float_literal(text) {
                ValueView::F64(text)
            } else {
                ValueView::Null
            },
            TypeTag::Bool => if text == "true"@ {
                ValueView::Bool(true)
            } else if text == "false"@ {
                ValueView::Bool(false)
            } else {
                ValueView::Null
            },
            TypeTag::Char => ValueView::Char(text.first()),
        }
    }
}

/// The text is a literal of the type that `tag` names: every text is one of
/// `string`, a text that is not empty is one of `char`.
pub open spec fn literal_of(tag: TypeTag, text: Seq<char>) -> bool {
    match tag {
        TypeTag::String => true,
        TypeTag::I32 => i32_value(text) is Some,
        TypeTag::I64 => i64_value(text) is Some,
        TypeTag::U32 => u32_value(text) is Some,
        TypeTag::U64 => u64_value(text) is Some,
        TypeTag::F32 => float_literal(text),
        TypeTag::F64 => float_literal(text),
        TypeTag::Bool => text == "true"@ || text == "false"@,
        TypeTag::Char => text.len() > 0,
    }
}

/// Turns the raw value text of a declaration into a value of the type that
/// `tag` names.
pub fn coerce_value(tag: TypeTag, raw_value: Option<&str>) -> (r: VxdValue)
    ensures
        r@ == coerced(tag, raw_text(raw_value)),
        null_text(value_text(raw_text(raw_value))) ==> r@ is Null,
        !literal_of(tag, value_text(raw_text(raw_value))) ==> r@ is Null,
{
    let raw: &str = match raw_value {
        Some(raw) => raw,
        None => {
            return VxdValue::Null;
        },
    };
    let chars = to_chars(raw);
    let (from, to) = trim_bounds(chars.as_slice());
    let text: &[char] = slice_subrange(chars.as_slice(), from, to);
    if from == to || is_word(text, "null") {
        return VxdValue::Null;
    }
    match tag {
        TypeTag::String => {
            if to - from >= 2 && text[0] == '"' && text[to - from - 1] == '"' {
                assert(text@.subrange(1, text@.len() - 1) =~= raw@.subrange(from + 1, to - 1));
                VxdValue::String(String::from_str(raw.substring_char(from + 1, to - 1)))
            } else {
                VxdValue::String(String::from_str(raw.substring_char(from, to)))
            }
        },
        TypeTag::I32 => match parse_i32(text) {
            Some(n) => VxdValue::I32(n),
            None => VxdValue::Null,
        },
        TypeTag::I64 => match parse_i64(text) {
            Some(n) => VxdValue::I64(n),
            None => VxdValue::Null,
        },
        TypeTag::U32 => match parse_u32(text) {
            Some(n) => VxdValue::U32(n),
            None => VxdValue::Null,
        },
        TypeTag::U64 => match parse_u64(text) {
            Some(n) => VxdValue::U64(n),
            None => VxdValue::Null,
        },
        TypeTag::F32 => if is_float_literal(text) {
            VxdValue::F32(FloatLiteral { text: String::from_str(raw.substring_char(from, to)) })
        } else {
            VxdValue::Null
        },
        TypeTag::F64 => if is_float_literal(text) {
            VxdValue::F64(FloatLiteral { text: String::from_str(raw.substring_char(from, to)) })
        } else {
            VxdValue::Null
        },
        TypeTag::Bool => if is_word(text, "true") {
            VxdValue::Bool(true)
        } else if is_word(text, "false") {
            VxdValue::Bool(false)
        } else {
            VxdValue::Null
        },
        TypeTag::Char => VxdValue::Char(text[0]),
    }
}

/// Turns raw value text into a value of the type that the keyword `type_tag`
/// names. A tag that is none of the nine keywords is a failure.
pub fn coerce(type_tag: &str, raw_value: Option<&str>) -> (r: Result<VxdValue, ParseFailure>)
    ensures
        match TypeTag::of(type_tag@) {
            Some(tag) => r is Ok && r->Ok_0@ == coerced(tag, raw_text(raw_value)),
            None => r is Err && r->Err_0@ == FailureView::UnsupportedType(type_tag@),
        },
{
    match TypeTag::from_keyword(type_tag) {
        Some(tag) => Ok(coerce_value(tag, raw_value)),
        None => Err(ParseFailure::UnsupportedType(String::from_str(type_tag))),
    }
}

/// Under every type tag, a value that is absent, empty but for white space, or
/// the word `null` is the null marker.
pub proof fn lemma_no_value_is_null(tag: TypeTag, raw: Option<Seq<char>>)
    requires
        raw is None || trimmed(raw->Some_0).len() == 0 || trimmed(raw->Some_0) == "null"@,
    ensures
        coerced(tag, raw) == ValueView::Null,
{
}

/// Under every type tag, value text that is no literal of the type is the
/// null marker.
pub proof fn lemma_malformed_is_null(tag: TypeTag, raw: Option<Seq<char>>)
    requires
        !literal_of(tag, value_text(raw)),
    ensures
        coerced(tag, raw) == ValueView::Null,
{
}

/// A value is the null marker only where the text stands for no value or is no
/// literal of the type; otherwise it is a value of the declared type.
pub proof fn lemma_coerced_has_declared_type(tag: TypeTag, raw: Option<Seq<char>>)
    requires
        !null_text(value_text(raw)),
        literal_of(tag, value_text(raw)),
    ensures
        match tag {
            TypeTag::String => coerced(tag, raw) is String,
            TypeTag::I32 => coerced(tag, raw) is I32,
            TypeTag::I64 => coerced(tag, raw) is I64,
            TypeTag::U32 => coerced(tag, raw) is U32,
            TypeTag::U64 => coerced(tag, raw) is U64,
            TypeTag::F32 => coerced(tag, raw) is F32,
            TypeTag::F64 => coerced(tag, raw) is F64,
            TypeTag::Bool => coerced(tag, raw) is Bool,
            TypeTag::Char => coerced(tag, raw) is Char,
        },
{
}

/// Raw text has the value that it has without the white space round it: a
/// value that was trimmed where it was found is not changed by being trimmed
/// again where it is read.
pub proof fn lemma_trimmed_text_has_the_same_value(tag: TypeTag, raw: Seq<char>)
    ensures
        coerced(tag, Some(trimmed(raw))) == coerced(tag, Some(raw)),
{
    lemma_trimmed_twice(raw);
}

} // verus!
