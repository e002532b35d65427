//! A model of XML output: a document is a sequence of tags and texts, and its
//! characters follow from that sequence.
use crate::text::blanks;
use vstd::prelude::*;

verus! {

/// An opening or self-closing tag: a name, and attributes in the order in which they
/// are written.
pub struct Tag {
    pub name: Seq<char>,
    pub attributes: Seq<(Seq<char>, Seq<char>)>,
}

/// One piece of a document.
pub enum Markup {
    /// `<name attribute="value">`
    Start(Tag),
    /// `<name attribute="value"/>`
    Empty(Tag),
    /// Text between tags.
    Text(Seq<char>),
    /// `</name>`
    End(Seq<char>),
}

/// How a character stands in a text: the five that XML gives a meaning to, and the
/// carriage return, as references. In an attribute's value the line feed and the tab
/// are references too.
pub open spec fn escape_char(c: char, in_attribute: bool) -> Seq<char> {
    if c == '<' {
        "&lt;"@
    } else if c == '>' {
        "&gt;"@
    } else if c == '&' {
        "&amp;"@
    } else if c == '\'' {
        "&apos;"@
    } else if c == '"' {
        "&quot;"@
    } else if c == '\r' {
        "&#13;"@
    } else if in_attribute && c == '\n' {
        "&#10;"@
    } else if in_attribute && c == '\t' {
        "&#9;"@
    } else {
        seq![c]
    }
}

/// `s` with every character escaped.
pub open spec fn escape(s: Seq<char>, in_attribute: bool) -> Seq<char>
    decreases s.len(),
{
    if s.len() == 0 {
        Seq::empty()
    } else {
        escape(s.drop_last(), in_attribute) + escape_char(s.last(), in_attribute)
    }
}

/// One attribute as it stands in a tag, with the blank before it.
pub open spec fn attribute_text(attribute: (Seq<char>, Seq<char>)) -> Seq<char> {
    " "@ + attribute.0 + "=\""@ + escape(attribute.1, true) + "\""@
}

/// What stands in a tag between `<` and `>`: the name, then the attributes.
pub open spec fn tag_text(tag: Tag) -> Seq<char>
    decreases tag.attributes.len(),
{
    if tag.attributes.len() == 0 {
        tag.name
    } else {
        tag_text(Tag { name: tag.name, attributes: tag.attributes.drop_last() }) + attribute_text(
            tag.attributes.last(),
        )
    }
}

/// How many blanks one level of nesting is indented by.
pub const INDENT: usize = 2;

/// Output in the making.
pub struct Sheet {
    /// The characters so far.
    pub text: Seq<char>,
    /// How many elements are open.
    pub depth: nat,
    /// Whether the next tag goes on a line of its own.
    pub line_break: bool,
}

impl Sheet {
    /// What stands before a tag: a new line, indented, unless the tag directly follows
    /// a text or starts the document.
    pub open spec fn gap(self) -> Seq<char> {
        if self.line_break {
            "\n"@ + blanks(INDENT as nat * self.depth)
        } else {
            Seq::empty()
        }
    }

    /// The output with the innermost open element counted as closed.
    pub open spec fn closed(self) -> Sheet {
        Sheet {
            text: self.text,
            depth: if self.depth == 0 {
                0
            } else {
                (self.depth - 1) as nat
            },
            line_break: self.line_break,
        }
    }

    /// The output with one more piece.
    pub open spec fn add(self, piece: Markup) -> Sheet {
        match piece {
            Markup::Start(tag) => Sheet {
                text: self.text + self.gap() + ("<"@ + tag_text(tag) + ">"@),
                depth: self.depth + 1,
                line_break: true,
            },
            Markup::Empty(tag) => Sheet {
                text: self.text + self.gap() + ("<"@ + tag_text(tag) + "/>"@),
                depth: self.depth,
                line_break: true,
            },
            Markup::Text(s) => Sheet {
                text: self.text + escape(s, false),
                depth: self.depth,
                line_break: false,
            },
            Markup::End(name) => {
                let outer = self.closed();
                Sheet {
                    text: outer.text + outer.gap() + ("</"@ + name + ">"@),
                    depth: outer.depth,
                    line_break: true,
                }
            },
        }
    }
}

/// The output that `pieces` make, from an empty one.
pub open spec fn sheet(pieces: Seq<Markup>) -> Sheet
    decreases pieces.len(),
{
    if pieces.len() == 0 {
        Sheet { text: Seq::empty(), depth: 0, line_break: false }
    } else {
        sheet(pieces.drop_last()).add(pieces.last())
    }
}

/// The characters of the document that `pieces` make.
pub open spec fn document_text(pieces: Seq<Markup>) -> Seq<char> {
    sheet(pieces).text
}

} // verus!
