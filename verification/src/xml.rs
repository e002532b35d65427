//! Writing XML with `quick_xml`, held to the model in [`crate::markup`].
use crate::error::{ErrorKind, XmpError, XmpResult};
use crate::markup::{attribute_text, document_text, escape, sheet, tag_text};
use crate::markup::{Markup, Sheet, Tag, INDENT};
use crate::text::{blanks, lemma_encode_concat, lemma_encode_injective};
use quick_xml::events::{BytesEnd, BytesStart, BytesText, Event};
use quick_xml::Writer;
use vstd::prelude::*;
use vstd::string::*;
use vstd::utf8::*;

verus! {

/// `quick_xml::Writer`, as an opaque type.
#[verifier::external_type_specification]
#[verifier::external_body]
#[verifier::reject_recursive_types(W)]
pub struct ExWriter<W>(quick_xml::Writer<W>);

/// `quick_xml::events::BytesStart`, as an opaque type.
#[verifier::external_type_specification]
#[verifier::external_body]
pub struct ExBytesStart<'i>(quick_xml::events::BytesStart<'i>);

/// `std::io::Error`, as an opaque type.
#[verifier::external_type_specification]
#[verifier::external_body]
pub struct ExIoError(std::io::Error);

/// `std::string::FromUtf8Error`, as an opaque type.
#[verifier::external_type_specification]
#[verifier::external_body]
pub struct ExFromUtf8Error(std::string::FromUtf8Error);

/// Whether a writer, as it was made, indents with ASCII characters and ends an empty
/// tag with no blank before the slash.
pub uninterp spec fn indents(w: Writer<Vec<u8>>) -> bool;

/// The bytes that a writer has put into its vector.
pub uninterp spec fn written(w: Writer<Vec<u8>>) -> Seq<u8>;

/// The indentation that a writer is at.
pub uninterp spec fn margin(w: Writer<Vec<u8>>) -> Seq<u8>;

/// What one level of nesting adds to a writer's indentation.
pub uninterp spec fn margin_step(w: Writer<Vec<u8>>) -> Seq<u8>;

/// Whether a writer puts the next tag on a new line.
pub uninterp spec fn line_break(w: Writer<Vec<u8>>) -> bool;

/// What an opening tag holds between `<` and `>`.
pub uninterp spec fn tag_content(t: BytesStart<'static>) -> Seq<char>;

/// The state of an indenting `quick_xml::Writer` over a vector.
pub struct WriterState {
    pub bytes: Seq<u8>,
    pub margin: Seq<u8>,
    pub step: Seq<u8>,
    pub line_break: bool,
}

/// The state of `w`.
pub open spec fn state(w: Writer<Vec<u8>>) -> WriterState {
    WriterState {
        bytes: written(w),
        margin: margin(w),
        step: margin_step(w),
        line_break: line_break(w),
    }
}

impl WriterState {
    /// The bytes after a tag: a line feed and the indentation where a new line is due,
    /// then the tag.
    pub open spec fn with_tag(self, tag: Seq<char>) -> Seq<u8> {
        self.bytes + (if self.line_break {
            seq![10u8] + self.margin
        } else {
            Seq::empty()
        }) + encode_utf8(tag)
    }

    /// After `Event::Start`: the tag, and from then on one level more of indentation.
    pub open spec fn start(self, content: Seq<char>) -> WriterState {
        WriterState {
            bytes: self.with_tag("<"@ + content + ">"@),
            margin: self.margin + self.step,
            step: self.step,
            line_break: true,
        }
    }

    /// After `Event::Empty`: the tag.
    pub open spec fn empty(self, content: Seq<char>) -> WriterState {
        WriterState {
            bytes: self.with_tag("<"@ + content + "/>"@),
            margin: self.margin,
            step: self.step,
            line_break: true,
        }
    }

    /// After `Event::Text`: the text, and no new line before what follows.
    pub open spec fn text(self, content: Seq<char>) -> WriterState {
        WriterState {
            bytes: self.bytes + encode_utf8(content),
            margin: self.margin,
            step: self.step,
            line_break: false,
        }
    }

    /// One level less of indentation, none where less than a level is left.
    pub open spec fn closed(self) -> WriterState {
        WriterState {
            bytes: self.bytes,
            margin: if self.margin.len() < self.step.len() {
                Seq::empty()
            } else {
                self.margin.take(self.margin.len() - self.step.len())
            },
            step: self.step,
            line_break: self.line_break,
        }
    }

    /// After `Event::End`: one level less of indentation, and at that level the
    /// tag.
    pub open spec fn end(self, name: Seq<char>) -> WriterState {
        let outer = self.closed();
        WriterState {
            bytes: outer.with_tag("</"@ + name + ">"@),
            margin: outer.margin,
            step: self.step,
            line_break: true,
        }
    }
}

/// `quick_xml::Writer::new_with_indent` over a new vector: nothing is written, nothing
/// is indented, each level adds `indent_size` times the character `indent_char`, and
/// the first tag goes where the output starts. A step is at most what the writer keeps
/// room for from the start, so that the first levels need no more memory.
#[verifier::external_body]
fn new_writer(indent_char: u8, indent_size: usize) -> (w: Writer<Vec<u8>>)
    requires
        indent_char < 128,
        indent_size <= 128,
    ensures
        indents(w),
        written(w) == Seq::<u8>::empty(),
        margin(w) == Seq::<u8>::empty(),
        margin_step(w) == Seq::new(indent_size as nat, |i: int| indent_char),
        !line_break(w),
{
    Writer::new_with_indent(Vec::new(), indent_char, indent_size)
}

/// `quick_xml::events::BytesStart::new`: a tag that holds the name as it is.
#[verifier::external_body]
fn new_tag(name: &str) -> (t: BytesStart<'static>)
    ensures
        tag_content(t) == name@,
{
    BytesStart::new(name.to_owned())
}

/// `quick_xml::events::BytesStart::push_attribute` with a pair of strings: appends a
/// blank, the name as it is, and the value, escaped, in double quotes.
#[verifier::external_body]
fn push_attribute(t: &mut BytesStart<'static>, name: &str, value: &str)
    ensures
        tag_content(*final(t)) == tag_content(*old(t)) + attribute_text((name@, value@)),
{
    t.push_attribute((name, value))
}

/// `quick_xml::Writer::write_event` with `Event::Start`. A vector takes whatever is
/// written to it, so the call succeeds.
#[verifier::external_body]
fn write_start(w: &mut Writer<Vec<u8>>, tag: BytesStart<'static>) -> (r: Result<(), std::io::Error>)
    requires
        indents(*old(w)),
    ensures
        r is Ok,
        indents(*final(w)),
        state(*final(w)) == state(*old(w)).start(tag_content(tag)),
{
    w.write_event(Event::Start(tag))
}

/// `quick_xml::Writer::write_event` with `Event::Empty`. A vector takes whatever is
/// written to it, so the call succeeds.
#[verifier::external_body]
fn write_empty(w: &mut Writer<Vec<u8>>, tag: BytesStart<'static>) -> (r: Result<(), std::io::Error>)
    requires
        indents(*old(w)),
    ensures
        r is Ok,
        indents(*final(w)),
        state(*final(w)) == state(*old(w)).empty(tag_content(tag)),
{
    w.write_event(Event::Empty(tag))
}

/// `quick_xml::Writer::write_event` with `Event::Text` and `BytesText::new`, which
/// escapes the text. A vector takes whatever is written to it, so the call succeeds.
#[verifier::external_body]
fn write_text(w: &mut Writer<Vec<u8>>, text: &str) -> (r: Result<(), std::io::Error>)
    requires
        indents(*old(w)),
    ensures
        r is Ok,
        indents(*final(w)),
        state(*final(w)) == state(*old(w)).text(escape(text@, false)),
{
    w.write_event(Event::Text(BytesText::new(text)))
}

/// `quick_xml::Writer::write_event` with `Event::End` and `BytesEnd::new`, which takes
/// the name as it is. A vector takes whatever is written to it, so the call succeeds.
#[verifier::external_body]
fn write_end(w: &mut Writer<Vec<u8>>, name: &str) -> (r: Result<(), std::io::Error>)
    requires
        indents(*old(w)),
    ensures
        r is Ok,
        indents(*final(w)),
        state(*final(w)) == state(*old(w)).end(name@),
{
    w.write_event(Event::End(BytesEnd::new(name)))
}

/// `quick_xml::Writer::into_inner`: the vector, with all that was written.
#[verifier::external_body]
fn into_bytes(w: Writer<Vec<u8>>) -> (bytes: Vec<u8>)
    ensures
        bytes@ == written(w),
{
    w.into_inner()
}

/// `String::from_utf8`: the string that the bytes encode, exactly where they are UTF-8.
pub assume_specification[ String::from_utf8 ](vec: Vec<u8>) -> (r: Result<
    String,
    std::string::FromUtf8Error,
>)
    ensures
        r is Ok <==> valid_utf8(vec@),
        r matches Ok(s) ==> encode_utf8(s@) == vec@,
;

/// The characters of a list of names and values.
pub open spec fn pairs(v: Seq<(String, String)>) -> Seq<(Seq<char>, Seq<char>)> {
    Seq::new(v.len(), |i: int| (v[i].0@, v[i].1@))
}

/// The state in which a writer has written what is on `s`.
pub open spec fn holds(state: WriterState, s: Sheet) -> bool {
    &&& state.bytes == encode_utf8(s.text)
    &&& state.margin == Seq::new(INDENT as nat * s.depth, |i: int| 32u8)
    &&& state.step == Seq::new(INDENT as nat, |i: int| 32u8)
    &&& state.line_break == s.line_break
}

/// A document in the making: a writer, and what has been written with it.
pub(crate) struct XmlWriter {
    inner: Writer<Vec<u8>>,
    pieces: Ghost<Seq<Markup>>,
}

impl View for XmlWriter {
    type V = Seq<Markup>;

    closed spec fn view(&self) -> Seq<Markup> {
        self.pieces@
    }
}

proof fn lemma_blanks_encoded(n: nat)
    ensures
        encode_utf8(blanks(n)) == Seq::new(n, |i: int| 32u8),
{
    let s = blanks(n);
    is_ascii_chars_encode_utf8(s);
    assert forall|i: int| 0 <= i < n implies encode_utf8(s)[i] == 32u8 by {
        assert(s[i] == ' ');
    }
    assert(encode_utf8(s) =~= Seq::new(n, |i: int| 32u8));
}

/// What precedes a tag is the same in characters and in bytes.
proof fn lemma_with_tag(state: WriterState, s: Sheet, tag: Seq<char>)
    requires
        holds(state, s),
    ensures
        state.with_tag(tag) == encode_utf8(s.text + s.gap() + tag),
{
    let indent = blanks(INDENT as nat * s.depth);
    lemma_encode_concat(s.text + s.gap(), tag);
    lemma_encode_concat(s.text, s.gap());
    if s.line_break {
        reveal_strlit("\n");
        lemma_encode_concat("\n"@, indent);
        lemma_blanks_encoded(INDENT as nat * s.depth);
        is_ascii_chars_encode_utf8("\n"@);
        assert(encode_utf8("\n"@)[0] == 10u8) by {
            assert("\n"@[0] == '\n');
        }
        assert(encode_utf8("\n"@) =~= seq![10u8]);
    }
}

/// One level more of indentation, in bytes.
proof fn lemma_margin(depth: nat)
    ensures
        Seq::new(INDENT as nat * (depth + 1), |i: int| 32u8) == Seq::new(
            INDENT as nat * depth,
            |i: int| 32u8,
        ) + Seq::new(INDENT as nat, |i: int| 32u8),
{
    assert(INDENT as nat * (depth + 1) == INDENT as nat * depth + INDENT as nat);
    assert(Seq::new(INDENT as nat * (depth + 1), |i: int| 32u8) =~= Seq::new(
        INDENT as nat * depth,
        |i: int| 32u8,
    ) + Seq::new(INDENT as nat, |i: int| 32u8));
}

/// An opening tag with attributes.
fn tag_with(name: &str, attributes: &Vec<(String, String)>) -> (t: BytesStart<'static>)
    ensures
        tag_content(t) == tag_text(Tag { name: name@, attributes: pairs(attributes@) }),
{
    let mut t: BytesStart<'static> = new_tag(name);
    let mut i: usize = 0;
    while i < attributes.len()
        invariant
            i <= attributes@.len(),
            tag_content(t) == tag_text(
                Tag { name: name@, attributes: pairs(attributes@).take(i as int) },
            ),
        decreases attributes@.len() - i,
    {
        push_attribute(&mut t, attributes[i].0.as_str(), attributes[i].1.as_str());
        proof {
            let all = pairs(attributes@);
            assert(all.take(i + 1).drop_last() =~= all.take(i as int));
            assert(all.take(i + 1).last() == all[i as int]);
        }
        i += 1;
    }
    assert(pairs(attributes@).take(i as int) =~= pairs(attributes@));
    t
}

/// The outcome of writing, in the library's own terms.
fn output_result(r: Result<(), std::io::Error>) -> (o: XmpResult<()>)
    ensures
        o is Ok <==> r is Ok,
        o matches Err(e) ==> e@.kind == ErrorKind::IoError,
{
    match r {
        Ok(()) => Ok(()),
        Err(e) => Err(XmpError::IoError(e.to_string())),
    }
}

impl XmlWriter {
    /// Whether the writer's output is the document that its pieces make.
    pub(crate) closed spec fn wf(self) -> bool {
        indents(self.inner) && holds(state(self.inner), sheet(self.pieces@))
    }

    /// An empty document.
    pub(crate) fn new() -> (r: XmlWriter)
        ensures
            r.wf(),
            r@ == Seq::<Markup>::empty(),
    {
        let r: XmlWriter = XmlWriter { inner: new_writer(32u8, INDENT), pieces: Ghost(Seq::empty()) };
        assert(Seq::new(0, |i: int| 32u8) =~= Seq::<u8>::empty());
        r
    }

    /// Opens an element.
    pub(crate) fn start(&mut self, name: &str, attributes: &Vec<(String, String)>) -> (r: XmpResult<()>)
        requires
            old(self).wf(),
        ensures
            r is Ok,
            final(self).wf(),
            final(self)@ == old(self)@.push(
                Markup::Start(Tag { name: name@, attributes: pairs(attributes@) }),
            ),
    {
        let ghost pieces = self.pieces@;
        let ghost before = state(self.inner);
        let tag: BytesStart<'static> = tag_with(name, attributes);
        let ghost content = tag_content(tag);
        let r: Result<(), std::io::Error> = write_start(&mut self.inner, tag);
        proof {
            let piece = Markup::Start(Tag { name: name@, attributes: pairs(attributes@) });
            lemma_with_tag(before, sheet(pieces), "<"@ + content + ">"@);
            assert(pieces.push(piece).drop_last() =~= pieces);
            lemma_margin(sheet(pieces).depth);
            self.pieces@ = pieces.push(piece);
        }
        output_result(r)
    }

    /// Writes an element that holds nothing.
    pub(crate) fn empty(&mut self, name: &str, attributes: &Vec<(String, String)>) -> (r: XmpResult<()>)
        requires
            old(self).wf(),
        ensures
            r is Ok,
            final(self).wf(),
            final(self)@ == old(self)@.push(
                Markup::Empty(Tag { name: name@, attributes: pairs(attributes@) }),
            ),
    {
        let ghost pieces = self.pieces@;
        let ghost before = state(self.inner);
        let tag: BytesStart<'static> = tag_with(name, attributes);
        let ghost content = tag_content(tag);
        let r: Result<(), std::io::Error> = write_empty(&mut self.inner, tag);
        proof {
            let piece = Markup::Empty(Tag { name: name@, attributes: pairs(attributes@) });
            lemma_with_tag(before, sheet(pieces), "<"@ + content + "/>"@);
            assert(pieces.push(piece).drop_last() =~= pieces);
            self.pieces@ = pieces.push(piece);
        }
        output_result(r)
    }

    /// Writes a text into the open element.
    pub(crate) fn text(&mut self, text: &str) -> (r: XmpResult<()>)
        requires
            old(self).wf(),
        ensures
            r is Ok,
            final(self).wf(),
            final(self)@ == old(self)@.push(Markup::Text(text@)),
    {
        let ghost pieces = self.pieces@;
        let r: Result<(), std::io::Error> = write_text(&mut self.inner, text);
        proof {
            let piece = Markup::Text(text@);
            lemma_encode_concat(sheet(pieces).text, escape(text@, false));
            assert(pieces.push(piece).drop_last() =~= pieces);
            self.pieces@ = pieces.push(piece);
        }
        output_result(r)
    }

    /// Closes an element.
    pub(crate) fn end(&mut self, name: &str) -> (r: XmpResult<()>)
        requires
            old(self).wf(),
        ensures
            r is Ok,
            final(self).wf(),
            final(self)@ == old(self)@.push(Markup::End(name@)),
    {
        let ghost pieces = self.pieces@;
        let ghost before = state(self.inner);
        let r: Result<(), std::io::Error> = write_end(&mut self.inner, name);
        proof {
            let piece = Markup::End(name@);
            let s = sheet(pieces);
            let outer = s.closed();
            lemma_margin(outer.depth);
            assert(before.closed().margin =~= Seq::new(INDENT as nat * outer.depth, |i: int| 32u8));
            lemma_with_tag(before.closed(), outer, "</"@ + name@ + ">"@);
            assert(pieces.push(piece).drop_last() =~= pieces);
            self.pieces@ = pieces.push(piece);
        }
        output_result(r)
    }

    /// The characters of the document.
    pub(crate) fn finish(self) -> (r: XmpResult<String>)
        requires
            self.wf(),
        ensures
            r matches Ok(s) && s@ == document_text(self@),
    {
        let ghost text = document_text(self@);
        proof {
            encode_utf8_valid_utf8(text);
        }
        match String::from_utf8(into_bytes(self.inner)) {
            Ok(s) => {
                proof {
                    lemma_encode_injective(s@, text);
                }
                Ok(s)
            },
            Err(e) => {
                let mut message: String = "UTF-8 encoding error: ".to_owned();
                message.append(e.to_string().as_str());
                Err(XmpError::SerializationError(message))
            },
        }
    }
}

} // verus!
