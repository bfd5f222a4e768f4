//! Capture categories and the fixed table that gives each its visual style.

use vstd::prelude::*;
use vstd::utf8::encode_utf8;

verus! {

/// A visual style: a text colour given as red, green and blue, or an
/// underline for categories that the table does not know.
#[derive(Clone, Copy, Debug, PartialEq, Eq, Structural)]
pub enum Style {
    Color { r: u8, g: u8, b: u8 },
    Underline,
}

/// The capture categories that the style table knows, and `Other` for the rest.
#[derive(Clone, Copy, Debug, PartialEq, Eq, Structural)]
pub enum Category {
    Constructor,
    Constant,
    FunctionBuiltin,
    FunctionMethod,
    Function,
    Variable,
    Property,
    Type,
    ConstantBuiltin,
    Number,
    Comment,
    Str,
    Escape,
    PunctuationSpecial,
    Embedded,
    Operator,
    Keyword,
    Other,
}

/// The UTF-8 bytes of a string.
pub open spec fn bytes_of(s: &str) -> Seq<u8> {
    encode_utf8(s@)
}

/// The category whose name is spelled by `name`.
pub open spec fn category_spec(name: Seq<u8>) -> Category {
    if name == bytes_of("constructor") {
        Category::Constructor
    } else if name == bytes_of("constant") {
        Category::Constant
    } else if name == bytes_of("function.builtin") {
        Category::FunctionBuiltin
    } else if name == bytes_of("function.method") {
        Category::FunctionMethod
    } else if name == bytes_of("function") {
        Category::Function
    } else if name == bytes_of("variable") {
        Category::Variable
    } else if name == bytes_of("property") {
        Category::Property
    } else if name == bytes_of("type") {
        Category::Type
    } else if name == bytes_of("constant.builtin") {
        Category::ConstantBuiltin
    } else if name == bytes_of("number") {
        Category::Number
    } else if name == bytes_of("comment") {
        Category::Comment
    } else if name == bytes_of("string") {
        Category::Str
    } else if name == bytes_of("escape") {
        Category::Escape
    } else if name == bytes_of("punctuation.special") {
        Category::PunctuationSpecial
    } else if name == bytes_of("embedded") {
        Category::Embedded
    } else if name == bytes_of("operator") {
        Category::Operator
    } else if name == bytes_of("keyword") {
        Category::Keyword
    } else {
        Category::Other
    }
}

pub open spec fn rgb(r: u8, g: u8, b: u8) -> Style {
    Style::Color { r, g, b }
}

/// The style of each category (One Monokai colours).
pub open spec fn style_spec(c: Category) -> Style {
    match c {
        Category::Constructor => rgb(0x61, 0xaf, 0xef),
        Category::Constant => rgb(0x56, 0xb6, 0xc2),
        Category::FunctionBuiltin => rgb(0x98, 0xc3, 0x79),
        Category::FunctionMethod => rgb(0x98, 0xc3, 0x79),
        Category::Function => rgb(0x98, 0xc3, 0x79),
        Category::Variable => rgb(0x61, 0xaf, 0xef),
        Category::Property => rgb(0xab, 0xb2, 0xbf),
        Category::Type => rgb(0x61, 0xaf, 0xef),
        Category::ConstantBuiltin => rgb(0x56, 0xb6, 0xc2),
        Category::Number => rgb(0xc6, 0x78, 0xdd),
        Category::Comment => rgb(0x67, 0x6f, 0x7d),
        Category::Str => rgb(0xe5, 0xc0, 0x7b),
        Category::Escape => rgb(0x56, 0xb6, 0xc2),
        Category::PunctuationSpecial => rgb(0xc6, 0x78, 0xdd),
        Category::Embedded => rgb(0xc6, 0x78, 0xdd),
        Category::Operator => rgb(0xe0, 0x6c, 0x75),
        Category::Keyword => rgb(0xe0, 0x6c, 0x75),
        Category::Other => Style::Underline,
    }
}

/// The style of the category spelled by `name`.
pub open spec fn resolve_spec(name: Seq<u8>) -> Style {
    style_spec(category_spec(name))
}

/// Whether two byte strings are equal.
fn bytes_eq(a: &[u8], b: &[u8]) -> (r: bool)
    ensures
        r == (a@ == b@),
{
    if a.len() != b.len() {
        return false;
    }
    let mut i: usize = 0;
    while i < a.len()
        invariant
            a@.len() == b@.len(),
            i <= a@.len(),
            forall|j: int| 0 <= j < i ==> a@[j] == b@[j],
        decreases a@.len() - i,
    {
        if a[i] != b[i] {
            return false;
        }
        i = i + 1;
    }
    assert(a@ =~= b@);
    true
}

fn is_name(name: &str, literal: &str) -> (r: bool)
    ensures
        r == (bytes_of(name) == bytes_of(literal)),
{
    bytes_eq(name.as_bytes(), literal.as_bytes())
}

impl Category {
    /// The category that a capture name denotes; `Other` for unknown names.
    pub fn from_name(name: &str) -> (c: Category)
        ensures
            c == category_spec(bytes_of(name)),
    {
        if is_name(name, "constructor") {
            Category::Constructor
        } else if is_name(name, "constant") {
            Category::Constant
        } else if is_name(name, "function.builtin") {
            Category::FunctionBuiltin
        } else if is_name(name, "function.method") {
            Category::FunctionMethod
        } else if is_name(name, "function") {
            Category::Function
        } else if is_name(name, "variable") {
            Category::Variable
        } else if is_name(name, "property") {
            Category::Property
        } else if is_name(name, "type") {
            Category::Type
        } else if is_name(name, "constant.builtin") {
            Category::ConstantBuiltin
        } else if is_name(name, "number") {
            Category::Number
        } else if is_name(name, "comment") {
            Category::Comment
        } else if is_name(name, "string") {
            Category::Str
        } else if is_name(name, "escape") {
            Category::Escape
        } else if is_name(name, "punctuation.special") {
            Category::PunctuationSpecial
        } else if is_name(name, "embedded") {
            Category::Embedded
        } else if is_name(name, "operator") {
            Category::Operator
        } else if is_name(name, "keyword") {
            Category::Keyword
        } else {
            Category::Other
        }
    }

    /// The style the table gives this category.
    pub fn style(self) -> (s: Style)
        ensures
            s == style_spec(self),
    {
        match self {
            Category::Constructor => Style::Color { r: 0x61, g: 0xaf, b: 0xef },
            Category::Constant => Style::Color { r: 0x56, g: 0xb6, b: 0xc2 },
            Category::FunctionBuiltin => Style::Color { r: 0x98, g: 0xc3, b: 0x79 },
            Category::FunctionMethod => Style::Color { r: 0x98, g: 0xc3, b: 0x79 },
            Category::Function => Style::Color { r: 0x98, g: 0xc3, b: 0x79 },
            Category::Variable => Style::Color { r: 0x61, g: 0xaf, b: 0xef },
            Category::Property => Style::Color { r: 0xab, g: 0xb2, b: 0xbf },
            Category::Type => Style::Color { r: 0x61, g: 0xaf, b: 0xef },
            Category::ConstantBuiltin => Style::Color { r: 0x56, g: 0xb6, b: 0xc2 },
            Category::Number => Style::Color { r: 0xc6, g: 0x78, b: 0xdd },
            Category::Comment => Style::Color { r: 0x67, g: 0x6f, b: 0x7d },
            Category::Str => Style::Color { r: 0xe5, g: 0xc0, b: 0x7b },
            Category::Escape => Style::Color { r: 0x56, g: 0xb6, b: 0xc2 },
            Category::PunctuationSpecial => Style::Color { r: 0xc6, g: 0x78, b: 0xdd },
            Category::Embedded => Style::Color { r: 0xc6, g: 0x78, b: 0xdd },
            Category::Operator => Style::Color { r: 0xe0, g: 0x6c, b: 0x75 },
            Category::Keyword => Style::Color { r: 0xe0, g: 0x6c, b: 0x75 },
            Category::Other => Style::Underline,
        }
    }
}

/// The style of the capture category called `name`; never fails.
pub fn resolve(name: &str) -> (s: Style)
    ensures
        s == resolve_spec(bytes_of(name)),
{
    Category::from_name(name).style()
}

/// The style of each capture name, in order: the table that captures index.
pub fn style_table(names: &[String]) -> (t: Vec<Style>)
    ensures
        t@.len() == names@.len(),
        forall|i: int| 0 <= i < names@.len() ==> t@[i] == resolve_spec(
            encode_utf8(names@[i]@),
        ),
{
    let mut t: Vec<Style> = Vec::new();
    let mut i: usize = 0;
    while i < names.len()
        invariant
            i <= names@.len(),
            t@.len() == i,
            forall|j: int| 0 <= j < i ==> t@[j] == resolve_spec(encode_utf8(names@[j]@)),
        decreases names@.len() - i,
    {
        let s = resolve(names[i].as_str());
        t.push(s);
        i = i + 1;
    }
    t
}

} // verus!
