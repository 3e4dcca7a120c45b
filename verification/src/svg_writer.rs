use vstd::prelude::*;
use vstd::string::StringExecFns;
use crate::text::{chars_of, push_char};

verus! {

/// The tags that were begun and those that were ended do not match.
#[derive(Debug, PartialEq, Eq, Structural, Clone, Copy)]
pub enum TagWriterError {
    NotEnoughEndTags,
    NotEnoughBeginTags,
    /// Something that is to be drawn has no place or no size yet.
    Unplaced,
}

impl TagWriterError {
    /// What went wrong, in words.
    pub fn message(&self) -> (s: &'static str)
        ensures
            s@ == match self {
                TagWriterError::NotEnoughEndTags => "Not enough end tags."@,
                TagWriterError::NotEnoughBeginTags => "Not enough begin tags."@,
                TagWriterError::Unplaced => "Not placed yet."@,
            },
    {
        match self {
            TagWriterError::NotEnoughEndTags => "Not enough end tags.",
            TagWriterError::NotEnoughBeginTags => "Not enough begin tags.",
            TagWriterError::Unplaced => "Not placed yet.",
        }
    }
}

/// The attributes of a tag, in the order in which they are written.
#[derive(Debug)]
pub struct Attributes {
    pub fields: Vec<(String, String)>,
}

/// The keys and the values, as texts.
pub open spec fn pairs_of(fields: Seq<(String, String)>) -> Seq<(Seq<char>, Seq<char>)> {
    Seq::new(fields.len(), |i: int| (fields[i].0@, fields[i].1@))
}

/// The attributes as they stand in a tag: before each a blank, and its
/// value in double quotes.
pub open spec fn attributes_text(pairs: Seq<(Seq<char>, Seq<char>)>) -> Seq<char>
    decreases pairs.len(),
{
    if pairs.len() == 0 {
        Seq::empty()
    } else {
        attributes_text(pairs.drop_last()) + " "@ + pairs.last().0 + "=\""@ + pairs.last().1
            + "\""@
    }
}

/// The text `s`, `n` times over.
pub open spec fn repeated(s: Seq<char>, n: nat) -> Seq<char>
    decreases n,
{
    if n == 0 {
        Seq::empty()
    } else {
        repeated(s, (n - 1) as nat) + s
    }
}

/// A line with a tag that has nothing in it, `depth` levels deep.
pub open spec fn single_tag_text(
    indent: Seq<char>,
    depth: nat,
    tag: Seq<char>,
    pairs: Seq<(Seq<char>, Seq<char>)>,
) -> Seq<char> {
    repeated(indent, depth) + "<"@ + tag + attributes_text(pairs) + "/>\n"@
}

/// A line with a tag that has a text in it, `depth` levels deep.
pub open spec fn text_tag_text(
    indent: Seq<char>,
    depth: nat,
    tag: Seq<char>,
    pairs: Seq<(Seq<char>, Seq<char>)>,
    text: Seq<char>,
) -> Seq<char> {
    repeated(indent, depth) + "<"@ + tag + attributes_text(pairs) + ">"@ + escaped(text) + "</"@
        + tag + ">\n"@
}

/// A line with the beginning of a tag, `depth` levels deep.
pub open spec fn begin_tag_text(
    indent: Seq<char>,
    depth: nat,
    tag: Seq<char>,
    pairs: Seq<(Seq<char>, Seq<char>)>,
) -> Seq<char> {
    repeated(indent, depth) + "<"@ + tag + attributes_text(pairs) + ">\n"@
}

/// A line with the end of a tag, `depth` levels deep.
pub open spec fn end_tag_text(indent: Seq<char>, depth: nat, tag: Seq<char>) -> Seq<char> {
    repeated(indent, depth) + "</"@ + tag + ">\n"@
}

/// What stands for a character in the body of a document.
pub open spec fn escaped_char(c: char) -> Seq<char> {
    if c == '&' {
        "&amp;"@
    } else if c == '<' {
        "&lt;"@
    } else {
        seq![c]
    }
}

/// The text as it stands in the body of a document: `&` and `<` are
/// written as entities.
pub open spec fn escaped(s: Seq<char>) -> Seq<char>
    decreases s.len(),
{
    if s.len() == 0 {
        Seq::empty()
    } else {
        escaped(s.drop_last()) + escaped_char(s.last())
    }
}

/// The text as it is to stand in the body of a document, outside any
/// tag.
pub fn xml_escape_body_text(s: &str) -> (r: String)
    ensures
        r@ == escaped(s@),
{
    let chars = chars_of(s);
    let mut r = String::new();
    let mut i: usize = 0;
    assert(chars@.take(0) =~= Seq::empty());
    while i < chars.len()
        invariant
            i <= chars.len(),
            chars@ == s@,
            r@ == escaped(chars@.take(i as int)),
        decreases chars.len() - i,
    {
        proof {
            assert(chars@.take(i as int + 1).drop_last() =~= chars@.take(i as int));
            assert(chars@.take(i as int + 1).last() == chars@[i as int]);
        }
        let c = chars[i];
        if c == '&' {
            r.append("&amp;");
        } else if c == '<' {
            r.append("&lt;");
        } else {
            push_char(&mut r, c);
            assert(r@ =~= escaped(chars@.take(i as int)) + seq![c]);
        }
        i = i + 1;
    }
    assert(chars@.take(chars.len() as int) =~= chars@);
    r
}

impl Attributes {
    /// No attributes.
    pub fn new() -> (r: Self)
        ensures
            r.fields@.len() == 0,
    {
        Attributes { fields: Vec::new() }
    }

    /// The attributes, as texts.
    pub open spec fn pairs(&self) -> Seq<(Seq<char>, Seq<char>)> {
        pairs_of(self.fields@)
    }

    /// These attributes and one more, after them.
    pub fn with_field<K: core::fmt::Display, V: core::fmt::Display>(self, key: K, value: V) -> (r:
        Self)
        ensures
            r.fields@.len() == self.fields@.len() + 1,
            r.fields@.drop_last() == self.fields@,
            vstd::string::to_string_from_display_ensures::<K>(&key, r.fields@.last().0),
            vstd::string::to_string_from_display_ensures::<V>(&value, r.fields@.last().1),
    {
        let mut fields = self.fields;
        fields.push((key.to_string(), value.to_string()));
        assert(fields@.drop_last() =~= self.fields@);
        Attributes { fields }
    }

    /// These attributes and one more, after them, whose key and value are
    /// the texts given.
    pub fn with_text(self, key: &str, value: &str) -> (r: Self)
        ensures
            r.pairs() == self.pairs().push((key@, value@)),
    {
        let mut fields = self.fields;
        fields.push((key.to_owned(), value.to_owned()));
        assert(pairs_of(fields@) =~= pairs_of(self.fields@).push((key@, value@)));
        Attributes { fields }
    }

    /// Appends the attributes to `output` as they stand in a tag.
    pub fn write(&self, output: &mut String)
        ensures
            final(output)@ == old(output)@ + attributes_text(self.pairs()),
    {
        let ghost before = output@;
        let ghost pairs = self.pairs();
        let mut i: usize = 0;
        assert(pairs.take(0) =~= Seq::empty());
        assert(before + attributes_text(pairs.take(0)) =~= before);
        while i < self.fields.len()
            invariant
                i <= self.fields.len(),
                pairs == self.pairs(),
                output@ == before + attributes_text(pairs.take(i as int)),
            decreases self.fields.len() - i,
        {
            proof {
                assert(pairs.take(i as int + 1).drop_last() =~= pairs.take(i as int));
                assert(pairs.take(i as int + 1).last() == pairs[i as int]);
            }
            output.append(" ");
            output.append(self.fields[i].0.as_str());
            output.append("=\"");
            output.append(self.fields[i].1.as_str());
            output.append("\"");
            assert(output@ =~= before + attributes_text(pairs.take(i as int + 1)));
            i = i + 1;
        }
        assert(pairs.take(self.fields.len() as int) =~= pairs);
    }
}

/// Something that writes the tags of a document, one after the other, and
/// keeps track of how deep the tags are nested.
pub trait TagWriter {
    /// What has been written.
    spec fn written(&self) -> Seq<char>;

    /// How many tags are open.
    spec fn depth(&self) -> nat;

    /// The text with which one level of nesting is shown.
    spec fn indent(&self) -> Seq<char>;

    /// Begins a tag. What is in it comes on the next lines, one level
    /// deeper.
    fn begin_tag(&mut self, tag: &str, attr: Attributes) -> (r: Result<(), TagWriterError>)
        requires
            old(self).depth() < usize::MAX,
        ensures
            r.is_ok(),
            final(self).indent() == old(self).indent(),
            final(self).depth() == old(self).depth() + 1,
            final(self).written() == old(self).written() + begin_tag_text(
                old(self).indent(),
                old(self).depth(),
                tag@,
                attr.pairs(),
            ),
    ;

    /// Ends the tag that was begun last; fails, and writes nothing, where
    /// no tag is open.
    fn end_tag(&mut self, tag: &str) -> (r: Result<(), TagWriterError>)
        ensures
            final(self).indent() == old(self).indent(),
            old(self).depth() == 0 ==> r == Err::<(), TagWriterError>(
                TagWriterError::NotEnoughBeginTags,
            ) && final(self).depth() == 0 && final(self).written() == old(self).written(),
            old(self).depth() > 0 ==> r.is_ok() && final(self).depth() == old(self).depth() - 1
                && final(self).written() == old(self).written() + end_tag_text(
                old(self).indent(),
                (old(self).depth() - 1) as nat,
                tag@,
            ),
    ;

    /// Writes a text into the body of the document, escaped.
    fn text(&mut self, text: &str) -> (r: Result<(), TagWriterError>)
        ensures
            r.is_ok(),
            final(self).indent() == old(self).indent(),
            final(self).depth() == old(self).depth(),
            final(self).written() == old(self).written() + escaped(text@),
    ;

    /// Writes a piece of a document as it is.
    fn raw_svg(&mut self, svg: &str) -> (r: Result<(), TagWriterError>)
        ensures
            r.is_ok(),
            final(self).indent() == old(self).indent(),
            final(self).depth() == old(self).depth(),
            final(self).written() == old(self).written() + svg@,
    ;

    /// Writes a tag with nothing in it, on a line of its own.
    fn single_tag(&mut self, tag: &str, attr: Attributes) -> (r: Result<(), TagWriterError>)
        ensures
            r.is_ok(),
            final(self).indent() == old(self).indent(),
            final(self).depth() == old(self).depth(),
            final(self).written() == old(self).written() + single_tag_text(
                old(self).indent(),
                old(self).depth(),
                tag@,
                attr.pairs(),
            ),
    ;

    /// Writes a tag with a text in it, escaped, on a line of its own.
    fn tag_with_text(&mut self, tag: &str, attr: Attributes, text: &str) -> (r: Result<
        (),
        TagWriterError,
    >)
        ensures
            r.is_ok(),
            final(self).indent() == old(self).indent(),
            final(self).depth() == old(self).depth(),
            final(self).written() == old(self).written() + text_tag_text(
                old(self).indent(),
                old(self).depth(),
                tag@,
                attr.pairs(),
                text@,
            ),
    ;

    /// Ends the document; fails where a tag is still open.
    fn close(&mut self) -> (r: Result<(), TagWriterError>)
        ensures
            final(self).indent() == old(self).indent(),
            final(self).depth() == old(self).depth(),
            final(self).written() == old(self).written(),
            r == if old(self).depth() > 0 {
                Err::<(), TagWriterError>(TagWriterError::NotEnoughEndTags)
            } else {
                Ok::<(), TagWriterError>(())
            },
    ;
}

/// A writer of tags that keeps what it writes as a text.
#[derive(Debug)]
pub struct TagWriterImpl {
    pub output: String,
    pub indent_level: usize,
    pub indent_str: String,
}

impl TagWriterImpl {
    /// A writer that has written nothing, and shows a level of nesting by
    /// two blanks.
    pub fn new() -> (r: Self)
        ensures
            r.output@.len() == 0,
            r.indent_level == 0,
            r.indent_str@ == "  "@,
    {
        TagWriterImpl { output: String::new(), indent_level: 0, indent_str: "  ".to_owned() }
    }

    /// Appends to the output the blanks that stand before a tag.
    fn i_space(&mut self)
        ensures
            final(self).indent_level == old(self).indent_level,
            final(self).indent_str == old(self).indent_str,
            final(self).output@ == old(self).output@ + repeated(
                old(self).indent_str@,
                old(self).indent_level as nat,
            ),
    {
        let ghost before = self.output@;
        let mut i: usize = 0;
        assert(before + repeated(self.indent_str@, 0) =~= before);
        while i < self.indent_level
            invariant
                i <= self.indent_level,
                self.indent_level == old(self).indent_level,
                self.indent_str == old(self).indent_str,
                self.output@ == before + repeated(self.indent_str@, i as nat),
            decreases self.indent_level - i,
        {
            self.output.append(self.indent_str.as_str());
            assert(self.output@ =~= before + repeated(self.indent_str@, (i + 1) as nat));
            i = i + 1;
        }
    }

    /// What has been written, taken out of the writer.
    pub fn into_string(self) -> (s: String)
        ensures
            s@ == self.output@,
    {
        self.output
    }
}

impl TagWriter for TagWriterImpl {
    open spec fn written(&self) -> Seq<char> {
        self.output@
    }

    open spec fn depth(&self) -> nat {
        self.indent_level as nat
    }

    open spec fn indent(&self) -> Seq<char> {
        self.indent_str@
    }

    fn begin_tag(&mut self, tag: &str, attr: Attributes) -> (r: Result<(), TagWriterError>) {
        self.i_space();
        self.output.append("<");
        self.output.append(tag);
        attr.write(&mut self.output);
        self.output.append(">\n");
        self.indent_level = self.indent_level + 1;
        Ok(())
    }

    fn end_tag(&mut self, tag: &str) -> (r: Result<(), TagWriterError>) {
        if self.indent_level == 0 {
            Err(TagWriterError::NotEnoughBeginTags)
        } else {
            self.indent_level = self.indent_level - 1;
            self.i_space();
            self.output.append("</");
            self.output.append(tag);
            self.output.append(">\n");
            Ok(())
        }
    }

    fn text(&mut self, text: &str) -> (r: Result<(), TagWriterError>) {
        let body = xml_escape_body_text(text);
        self.output.append(body.as_str());
        Ok(())
    }

    fn raw_svg(&mut self, svg: &str) -> (r: Result<(), TagWriterError>) {
        self.output.append(svg);
        Ok(())
    }

    fn single_tag(&mut self, tag: &str, attr: Attributes) -> (r: Result<(), TagWriterError>) {
        self.i_space();
        self.output.append("<");
        self.output.append(tag);
        attr.write(&mut self.output);
        self.output.append("/>\n");
        Ok(())
    }

    fn tag_with_text(&mut self, tag: &str, attr: Attributes, text: &str) -> (r: Result<
        (),
        TagWriterError,
    >) {
        self.i_space();
        self.output.append("<");
        self.output.append(tag);
        attr.write(&mut self.output);
        self.output.append(">");
        let body = xml_escape_body_text(text);
        self.output.append(body.as_str());
        self.output.append("</");
        self.output.append(tag);
        self.output.append(">\n");
        Ok(())
    }

    fn close(&mut self) -> (r: Result<(), TagWriterError>) {
        if self.indent_level > 0 {
            Err(TagWriterError::NotEnoughEndTags)
        } else {
            Ok(())
        }
    }
}

/// Something that can be drawn as tags.
pub trait Renderable {
    /// The tags of the drawing when it is written `depth` levels deep by a
    /// writer that shows a level by `indent`; `None` where the thing cannot be
    /// drawn, because a part of it has no place or no size yet.
    spec fn drawing(&self, indent: Seq<char>, depth: nat) -> Option<Seq<char>>;

    /// Writes the tags of the drawing after what has been written, and
    /// leaves the writer as deep as it was. Where the thing cannot be drawn
    /// nothing is written, and `Unplaced` comes back.
    fn render<W: TagWriter>(&self, tag_writer: &mut W) -> (r: Result<(), TagWriterError>)
        requires
            old(tag_writer).depth() < usize::MAX,
        ensures
            final(tag_writer).depth() == old(tag_writer).depth(),
            final(tag_writer).indent() == old(tag_writer).indent(),
            match self.drawing(old(tag_writer).indent(), old(tag_writer).depth()) {
                Some(tags) => r.is_ok() && final(tag_writer).written() == old(tag_writer).written() + tags,
                None => r == Err::<(), TagWriterError>(TagWriterError::Unplaced) && final(tag_writer).written() == old(tag_writer).written(),
            },
    ;
}

} // verus!
