//! JVM type descriptors: primitive, array and object types, read from their
//! compact textual encoding.

use vstd::prelude::*;
use vstd::string::*;
use vstd::utf8::*;

use crate::text::{
    cut, find, find_byte, first_byte, lemma_boundary_after_ascii, lemma_boundary_at_ascii,
    lemma_find, lemma_find_concat, same_text, skip_ascii,
};

verus! {

/// The prefix byte `[` of an array type.
pub const ARRAY: u8 = 0x5b;

/// The prefix byte `Z` of the boolean type.
pub const BOOLEAN: u8 = 0x5a;

/// The prefix byte `B` of the byte type.
pub const BYTE: u8 = 0x42;

/// The prefix byte `S` of the short type.
pub const SHORT: u8 = 0x53;

/// The prefix byte `I` of the integer type.
pub const INTEGER: u8 = 0x49;

/// The prefix byte `J` of the long type.
pub const LONG: u8 = 0x4a;

/// The prefix byte `F` of the float type.
pub const FLOAT: u8 = 0x46;

/// The prefix byte `D` of the double type.
pub const DOUBLE: u8 = 0x44;

/// The prefix byte `C` of the char type.
pub const CHAR: u8 = 0x43;

/// The prefix byte `L` of an object type.
pub const OBJECT: u8 = 0x4c;

/// The byte `;` that ends an object name.
pub const NAME_END: u8 = 0x3b;

/// What went wrong while reading a descriptor.
#[derive(Debug, Clone, Copy, PartialEq, Eq, Structural)]
pub enum DescriptorError {
    /// The text ended where a character was required.
    EndOfInput,
    /// The given character was required and something else was found.
    MismatchedChar(char),
    /// The first byte of a type is none of the known prefixes.
    InvalidPrefix,
}

/// A type descriptor as a mathematical value: object names are byte strings.
pub enum DescriptorView {
    Boolean,
    Byte,
    Short,
    Integer,
    Long,
    Float,
    Double,
    Char,
    Array(Box<DescriptorView>),
    Object(Seq<u8>),
}

/// A JVM type descriptor. Object names borrow from the parsed text.
#[derive(Debug)]
pub enum Descriptor<'a> {
    Boolean,
    Byte,
    Short,
    Integer,
    Long,
    Float,
    Double,
    Char,
    Array(Box<Descriptor<'a>>),
    Object(&'a str),
}

impl<'a> Descriptor<'a> {
    /// The mathematical value of this descriptor.
    pub open spec fn model(&self) -> DescriptorView
        decreases self,
    {
        match self {
            Descriptor::Boolean => DescriptorView::Boolean,
            Descriptor::Byte => DescriptorView::Byte,
            Descriptor::Short => DescriptorView::Short,
            Descriptor::Integer => DescriptorView::Integer,
            Descriptor::Long => DescriptorView::Long,
            Descriptor::Float => DescriptorView::Float,
            Descriptor::Double => DescriptorView::Double,
            Descriptor::Char => DescriptorView::Char,
            Descriptor::Array(inner) => DescriptorView::Array(Box::new(inner.model())),
            Descriptor::Object(name) => DescriptorView::Object(name.spec_bytes()),
        }
    }
}

impl<'a> View for Descriptor<'a> {
    type V = DescriptorView;

    open spec fn view(&self) -> DescriptorView {
        self.model()
    }
}

/// The primitive type that a prefix byte stands for.
pub open spec fn primitive(prefix: u8) -> Option<DescriptorView> {
    if prefix == BOOLEAN {
        Some(DescriptorView::Boolean)
    } else if prefix == BYTE {
        Some(DescriptorView::Byte)
    } else if prefix == SHORT {
        Some(DescriptorView::Short)
    } else if prefix == INTEGER {
        Some(DescriptorView::Integer)
    } else if prefix == LONG {
        Some(DescriptorView::Long)
    } else if prefix == FLOAT {
        Some(DescriptorView::Float)
    } else if prefix == DOUBLE {
        Some(DescriptorView::Double)
    } else if prefix == CHAR {
        Some(DescriptorView::Char)
    } else {
        None
    }
}

/// The grammar of type descriptors: the descriptor that `text` begins with
/// and what follows it, or the reason why `text` begins with none.
///
/// `[` wraps the descriptor that follows in an array; one of `ZBSIJFDC` is a
/// primitive; `L` starts an object name that runs up to the first `;`.
/// The name may be empty: `L;` is the object type with the empty name.
pub open spec fn parse_descriptor(text: Seq<u8>) -> Result<(DescriptorView, Seq<u8>), DescriptorError>
    decreases text.len(),
{
    if text.len() == 0 {
        Err(DescriptorError::EndOfInput)
    } else {
        let rest = text.skip(1);
        if text[0] == ARRAY {
            match parse_descriptor(rest) {
                Ok((element, after)) => Ok((DescriptorView::Array(Box::new(element)), after)),
                Err(e) => Err(e),
            }
        } else if text[0] == OBJECT {
            let end = find(rest, NAME_END);
            if end < rest.len() {
                Ok((DescriptorView::Object(rest.take(end)), rest.skip(end + 1)))
            } else {
                Err(DescriptorError::MismatchedChar(';'))
            }
        } else {
            match primitive(text[0]) {
                Some(d) => Ok((d, rest)),
                None => Err(DescriptorError::InvalidPrefix),
            }
        }
    }
}

/// The descriptor at the start of `text`; what follows it is not looked at.
pub open spec fn descriptor_of(text: Seq<u8>) -> Result<DescriptorView, DescriptorError> {
    match parse_descriptor(text) {
        Ok((d, _)) => Ok(d),
        Err(e) => Err(e),
    }
}

/// What a run of the parser on `text` must hand back: the parsed value and
/// the unread rest of the text, or the grammar's error.
pub open spec fn consumed<'a>(
    r: Result<(Descriptor<'a>, &'a str), DescriptorError>,
    text: Seq<u8>,
) -> bool {
    match parse_descriptor(text) {
        Ok((d, rest)) => r matches Ok((x, y)) && x@ == d && y.spec_bytes() == rest,
        Err(e) => r == Err::<(Descriptor<'a>, &'a str), DescriptorError>(e),
    }
}

/// The text that stands for a descriptor.
pub open spec fn encoding(d: DescriptorView) -> Seq<u8>
    decreases d,
{
    match d {
        DescriptorView::Boolean => seq![BOOLEAN],
        DescriptorView::Byte => seq![BYTE],
        DescriptorView::Short => seq![SHORT],
        DescriptorView::Integer => seq![INTEGER],
        DescriptorView::Long => seq![LONG],
        DescriptorView::Float => seq![FLOAT],
        DescriptorView::Double => seq![DOUBLE],
        DescriptorView::Char => seq![CHAR],
        DescriptorView::Array(element) => seq![ARRAY] + encoding(*element),
        DescriptorView::Object(name) => seq![OBJECT] + name + seq![NAME_END],
    }
}

/// Whether no object name inside a descriptor holds the byte `;`.
pub open spec fn well_named(d: DescriptorView) -> bool
    decreases d,
{
    match d {
        DescriptorView::Array(element) => well_named(*element),
        DescriptorView::Object(name) => !name.contains(NAME_END),
        _ => true,
    }
}

/// Round trip: the encoding of a descriptor whose names hold no `;`, followed
/// by any text, parses back to that descriptor and leaves that text.
pub proof fn lemma_parse_encoding(d: DescriptorView, tail: Seq<u8>)
    requires
        well_named(d),
    ensures
        parse_descriptor(encoding(d) + tail) == Ok::<_, DescriptorError>((d, tail)),
    decreases d,
{
    let text = encoding(d) + tail;
    match d {
        DescriptorView::Array(element) => {
            lemma_parse_encoding(*element, tail);
            assert(text.skip(1) =~= encoding(*element) + tail);
        },
        DescriptorView::Object(name) => {
            let rest = text.skip(1);
            assert(rest =~= name + (seq![NAME_END] + tail));
            lemma_find_concat(name, seq![NAME_END] + tail, NAME_END);
            assert(find(rest, NAME_END) == name.len());
            assert(rest.take(name.len() as int) =~= name);
            assert(rest.skip(name.len() as int + 1) =~= tail);
        },
        _ => {
            assert(text.skip(1) =~= tail);
        },
    }
}

/// Round trip for a text that holds one descriptor and nothing else.
pub proof fn lemma_round_trip(d: DescriptorView)
    requires
        well_named(d),
    ensures
        descriptor_of(encoding(d)) == Ok::<_, DescriptorError>(d),
{
    lemma_parse_encoding(d, Seq::empty());
    assert(encoding(d) + Seq::<u8>::empty() =~= encoding(d));
}

/// Whatever parses is the encoding of the parsed descriptor followed by the
/// unread rest, and no object name in it holds a `;`.
pub proof fn lemma_parse_sound(text: Seq<u8>)
    ensures
        parse_descriptor(text) matches Ok((d, rest)) ==> text == encoding(d) + rest
            && well_named(d),
    decreases text.len(),
{
    if text.len() > 0 {
        let rest = text.skip(1);
        if text[0] == ARRAY {
            lemma_parse_sound(rest);
            if let Ok((element, after)) = parse_descriptor(rest) {
                assert(text =~= seq![ARRAY] + (encoding(element) + after));
                assert(text =~= encoding(DescriptorView::Array(Box::new(element))) + after);
            }
        } else if text[0] == OBJECT {
            let end = find(rest, NAME_END);
            lemma_find(rest, NAME_END);
            if end < rest.len() {
                let name = rest.take(end);
                assert(text =~= seq![OBJECT] + name + seq![NAME_END] + rest.skip(end + 1));
                assert(!name.contains(NAME_END));
            }
        } else if primitive(text[0]) is Some {
            assert(text =~= seq![text[0]] + rest);
        }
    }
}

/// A successful parse reads at least one byte.
pub proof fn lemma_parse_consumes(text: Seq<u8>)
    ensures
        parse_descriptor(text) matches Ok((_, rest)) ==> rest.len() < text.len(),
    decreases text.len(),
{
    if text.len() > 0 {
        if text[0] == ARRAY {
            lemma_parse_consumes(text.skip(1));
        } else if text[0] == OBJECT {
            lemma_find(text.skip(1), NAME_END);
        }
    }
}

/// A text that ends where a type must begin, after any number of `[`, is
/// reported as the end of the input. The empty text is the case of no `[`.
pub proof fn lemma_missing_type(depth: nat)
    ensures
        parse_descriptor(Seq::new(depth, |i: int| ARRAY)) == Err::<
            (DescriptorView, Seq<u8>),
            DescriptorError,
        >(DescriptorError::EndOfInput),
    decreases depth,
{
    let text = Seq::new(depth, |i: int| ARRAY);
    if depth > 0 {
        lemma_missing_type((depth - 1) as nat);
        assert(text.skip(1) =~= Seq::new((depth - 1) as nat, |i: int| ARRAY));
    }
}

/// An object name that no `;` ends is reported as a missing `;`.
pub proof fn lemma_unclosed_name(text: Seq<u8>)
    requires
        text.len() > 0,
        text[0] == OBJECT,
        !text.skip(1).contains(NAME_END),
    ensures
        parse_descriptor(text) == Err::<(DescriptorView, Seq<u8>), DescriptorError>(
            DescriptorError::MismatchedChar(';'),
        ),
{
    lemma_find(text.skip(1), NAME_END);
}

/// A first byte that is no prefix of a type is reported as an invalid
/// prefix.
pub proof fn lemma_unknown_prefix(text: Seq<u8>)
    requires
        text.len() > 0,
        text[0] != ARRAY,
        text[0] != OBJECT,
        primitive(text[0]) is None,
    ensures
        parse_descriptor(text) == Err::<(DescriptorView, Seq<u8>), DescriptorError>(
            DescriptorError::InvalidPrefix,
        ),
{
}

impl<'a> Descriptor<'a> {
    /// A copy of this descriptor that borrows the same names.
    pub fn duplicate(&self) -> (r: Descriptor<'a>)
        ensures
            r@ == self@,
        decreases self,
    {
        match self {
            Descriptor::Boolean => Descriptor::Boolean,
            Descriptor::Byte => Descriptor::Byte,
            Descriptor::Short => Descriptor::Short,
            Descriptor::Integer => Descriptor::Integer,
            Descriptor::Long => Descriptor::Long,
            Descriptor::Float => Descriptor::Float,
            Descriptor::Double => Descriptor::Double,
            Descriptor::Char => Descriptor::Char,
            Descriptor::Array(inner) => Descriptor::Array(Box::new(inner.duplicate())),
            Descriptor::Object(name) => Descriptor::Object(*name),
        }
    }

    /// Appends the text that stands for this descriptor to `out`.
    pub fn encode_into(&self, out: &mut Vec<u8>)
        ensures
            final(out)@ == old(out)@ + encoding(self@),
        decreases self,
    {
        let ghost before = out@;
        match self {
            Descriptor::Boolean => out.push(BOOLEAN),
            Descriptor::Byte => out.push(BYTE),
            Descriptor::Short => out.push(SHORT),
            Descriptor::Integer => out.push(INTEGER),
            Descriptor::Long => out.push(LONG),
            Descriptor::Float => out.push(FLOAT),
            Descriptor::Double => out.push(DOUBLE),
            Descriptor::Char => out.push(CHAR),
            Descriptor::Array(element) => {
                out.push(ARRAY);
                element.encode_into(out);
                assert(out@ =~= before + (seq![ARRAY] + encoding(element@)));
            },
            Descriptor::Object(name) => {
                out.push(OBJECT);
                let bytes = name.as_bytes();
                let mut i: usize = 0;
                while i < bytes.len()
                    invariant
                        i <= bytes.len(),
                        out@ == before + seq![OBJECT] + bytes@.take(i as int),
                    decreases bytes.len() - i,
                {
                    out.push(bytes[i]);
                    i += 1;
                    assert(bytes@.take(i as int) =~= bytes@.take(i - 1).push(bytes@[i - 1]));
                    assert(out@ =~= before + seq![OBJECT] + bytes@.take(i as int));
                }
                out.push(NAME_END);
                assert(bytes@.take(i as int) =~= bytes@);
                assert(out@ =~= before + (seq![OBJECT] + bytes@ + seq![NAME_END]));
            },
        }
        assert(out@ =~= before + encoding(self@));
    }

    /// The text that stands for this descriptor. Where no object name in it
    /// holds a `;`, the text parses back to the descriptor.
    pub fn encode(&self) -> (r: Vec<u8>)
        ensures
            r@ == encoding(self@),
            well_named(self@) ==> descriptor_of(r@) == Ok::<_, DescriptorError>(self@),
    {
        let mut out: Vec<u8> = Vec::new();
        self.encode_into(&mut out);
        assert(out@ =~= encoding(self@));
        proof {
            if well_named(self@) {
                lemma_round_trip(self@);
            }
        }
        out
    }

    /// Structural equality: same shape, same array depth, same object name.
    pub fn equals(&self, other: &Descriptor<'_>) -> (r: bool)
        ensures
            r == (self@ == other@),
        decreases self,
    {
        match (self, other) {
            (Descriptor::Boolean, Descriptor::Boolean) => true,
            (Descriptor::Byte, Descriptor::Byte) => true,
            (Descriptor::Short, Descriptor::Short) => true,
            (Descriptor::Integer, Descriptor::Integer) => true,
            (Descriptor::Long, Descriptor::Long) => true,
            (Descriptor::Float, Descriptor::Float) => true,
            (Descriptor::Double, Descriptor::Double) => true,
            (Descriptor::Char, Descriptor::Char) => true,
            (Descriptor::Array(a), Descriptor::Array(b)) => a.equals(b),
            (Descriptor::Object(a), Descriptor::Object(b)) => same_text(a, b),
            _ => false,
        }
    }

    /// Reads the descriptor at the start of `text`.
    pub fn parse(text: &'a str) -> (r: Result<Descriptor<'a>, DescriptorError>)
        ensures
            match descriptor_of(text.spec_bytes()) {
                Ok(d) => r matches Ok(x) && x@ == d,
                Err(e) => r == Err::<Descriptor<'a>, DescriptorError>(e),
            },
    {
        match Descriptor::consume(text) {
            Ok((d, _)) => Ok(d),
            Err(e) => Err(e),
        }
    }

    /// Reads the descriptor at the start of `text` and hands back the rest.
    pub fn consume(text: &'a str) -> (r: Result<(Descriptor<'a>, &'a str), DescriptorError>)
        ensures
            consumed(r, text.spec_bytes()),
        decreases text.spec_bytes().len(),
    {
        let prefix = match first_byte(text) {
            Some(b) => b,
            None => { return Err(DescriptorError::EndOfInput); },
        };
        proof {
            encode_utf8_valid_utf8(text@);
            if prefix < 0x80 {
                lemma_boundary_after_ascii(text.spec_bytes());
            }
        }
        if !text.is_char_boundary(1) {
            return Err(DescriptorError::InvalidPrefix);
        }
        let (_, rest) = cut(text, 1);
        if prefix == ARRAY {
            match Descriptor::consume(rest) {
                Ok((element, after)) => Ok((Descriptor::Array(Box::new(element)), after)),
                Err(e) => Err(e),
            }
        } else if prefix == BOOLEAN {
            Ok((Descriptor::Boolean, rest))
        } else if prefix == BYTE {
            Ok((Descriptor::Byte, rest))
        } else if prefix == SHORT {
            Ok((Descriptor::Short, rest))
        } else if prefix == INTEGER {
            Ok((Descriptor::Integer, rest))
        } else if prefix == LONG {
            Ok((Descriptor::Long, rest))
        } else if prefix == FLOAT {
            Ok((Descriptor::Float, rest))
        } else if prefix == DOUBLE {
            Ok((Descriptor::Double, rest))
        } else if prefix == CHAR {
            Ok((Descriptor::Char, rest))
        } else if prefix == OBJECT {
            let end = match find_byte(rest, NAME_END) {
                Some(i) => i,
                None => { return Err(DescriptorError::MismatchedChar(';')); },
            };
            proof {
                encode_utf8_valid_utf8(rest@);
                lemma_boundary_at_ascii(rest.spec_bytes(), end as int);
            }
            let (name, tail) = cut(rest, end);
            let after = skip_ascii(tail);
            assert(after.spec_bytes() =~= rest.spec_bytes().skip(end + 1));
            Ok((Descriptor::Object(name), after))
        } else {
            Err(DescriptorError::InvalidPrefix)
        }
    }
}

impl<'a> Clone for Descriptor<'a> {
    fn clone(&self) -> (r: Self)
        ensures
            r@ == self@,
    {
        self.duplicate()
    }
}

impl<'a, 'b> PartialEq<Descriptor<'b>> for Descriptor<'a> {
    fn eq(&self, other: &Descriptor<'b>) -> (r: bool) {
        self.equals(other)
    }
}

impl<'a, 'b> vstd::std_specs::cmp::PartialEqSpecImpl<Descriptor<'b>> for Descriptor<'a> {
    open spec fn obeys_eq_spec() -> bool {
        true
    }

    open spec fn eq_spec(&self, other: &Descriptor<'b>) -> bool {
        self@ == other@
    }
}

} // verus!
