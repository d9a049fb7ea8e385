//! Generic signatures: descriptors extended with lists of type arguments.

use vstd::prelude::*;
use vstd::string::*;
use vstd::utf8::*;

use crate::descriptor::{
    lemma_parse_consumes, parse_descriptor, Descriptor, DescriptorError, DescriptorView,
    NAME_END, OBJECT,
};
use crate::method::{lemma_prepend_step, prepend};
use crate::text::{
    cut, ends_with_pair, find, find_byte, lemma_boundary_at_ascii, lemma_find, same_text,
    skip_ascii, starts_with_byte, strip_pair,
};

verus! {

/// The byte `<` that opens a list of type arguments.
pub const ARGS_START: u8 = 0x3c;

/// The byte `>` that closes a list of type arguments.
pub const ARGS_END: u8 = 0x3e;

/// A signature as a mathematical value: names are byte strings.
pub enum SignatureView {
    Descriptor(DescriptorView),
    Parametrized(Seq<u8>, Seq<SignatureView>),
}

/// A JVM type signature: a plain descriptor, or a named type with its type
/// arguments. Names borrow from the parsed text.
#[derive(Debug)]
pub enum Signature<'a> {
    Descriptor(Descriptor<'a>),
    Parametrized(&'a str, Vec<Signature<'a>>),
}

impl<'a> Signature<'a> {
    /// The mathematical value of this signature.
    pub open spec fn model(&self) -> SignatureView
        decreases self,
    {
        match self {
            Signature::Descriptor(d) => SignatureView::Descriptor(d@),
            Signature::Parametrized(name, args) => SignatureView::Parametrized(
                name.spec_bytes(),
                Seq::new(
                    args.len() as nat,
                    |i: int|
                        if 0 <= i < args.len() {
                            args[i].model()
                        } else {
                            arbitrary()
                        },
                ),
            ),
        }
    }
}

/// The values of a run of signatures.
pub open spec fn signature_views<'a>(items: Seq<Signature<'a>>) -> Seq<SignatureView> {
    items.map_values(|arg: Signature<'a>| arg@)
}

impl<'a> Signature<'a> {
    /// The value of a parametrized signature, by its parts.
    pub proof fn lemma_parametrized(name: &'a str, args: Vec<Signature<'a>>)
        ensures
            Signature::Parametrized(name, args)@ == SignatureView::Parametrized(
                name.spec_bytes(),
                signature_views(args@),
            ),
    {
        assert(Signature::Parametrized(name, args)@->Parametrized_1 =~= signature_views(args@));
    }

    /// A copy of this signature that borrows the same names.
    pub fn duplicate(&self) -> (r: Signature<'a>)
        ensures
            r@ == self@,
        decreases self,
    {
        match self {
            Signature::Descriptor(d) => Signature::Descriptor(d.duplicate()),
            Signature::Parametrized(name, args) => {
                let mut copies: Vec<Signature<'a>> = Vec::new();
                let mut i: usize = 0;
                while i < args.len()
                    invariant
                        decreases_to!(*self => *args),
                        i <= args.len(),
                        copies.len() == i,
                        forall|j: int| 0 <= j < i ==> copies[j]@ == args[j]@,
                    decreases args.len() - i,
                {
                    copies.push(args[i].duplicate());
                    i += 1;
                }
                proof {
                    Signature::lemma_parametrized(*name, *args);
                    Signature::lemma_parametrized(*name, copies);
                    assert(signature_views(copies@) =~= signature_views(args@));
                }
                Signature::Parametrized(*name, copies)
            },
        }
    }

    /// Structural equality: same names, same arguments in the same order.
    pub fn equals(&self, other: &Signature<'_>) -> (r: bool)
        ensures
            r == (self@ == other@),
        decreases self,
    {
        match (self, other) {
            (Signature::Descriptor(a), Signature::Descriptor(b)) => a.equals(b),
            (Signature::Parametrized(name, args), Signature::Parametrized(other_name, other_args)) => {
                proof {
                    Signature::lemma_parametrized(*name, *args);
                    Signature::lemma_parametrized(*other_name, *other_args);
                    assert(signature_views(args@).len() == args.len());
                    assert(signature_views(other_args@).len() == other_args.len());
                }
                if !same_text(name, other_name) || args.len() != other_args.len() {
                    return false;
                }
                let mut i: usize = 0;
                while i < args.len()
                    invariant
                        *self == Signature::Parametrized(*name, *args),
                        args.len() == other_args.len(),
                        i <= args.len(),
                        self@ == SignatureView::Parametrized(
                            name.spec_bytes(),
                            signature_views(args@),
                        ),
                        other@ == SignatureView::Parametrized(
                            other_name.spec_bytes(),
                            signature_views(other_args@),
                        ),
                        name.spec_bytes() == other_name.spec_bytes(),
                        forall|j: int| 0 <= j < i ==> args[j]@ == other_args[j]@,
                    decreases args.len() - i,
                {
                    if !args[i].equals(&other_args[i]) {
                        assert(signature_views(args@)[i as int] != signature_views(
                            other_args@,
                        )[i as int]);
                        return false;
                    }
                    i += 1;
                }
                assert(signature_views(args@) =~= signature_views(other_args@));
                true
            },
            _ => false,
        }
    }
}

impl<'a> Clone for Signature<'a> {
    fn clone(&self) -> (r: Self)
        ensures
            r@ == self@,
    {
        self.duplicate()
    }
}

impl<'a, 'b> PartialEq<Signature<'b>> for Signature<'a> {
    fn eq(&self, other: &Signature<'b>) -> (r: bool) {
        self.equals(other)
    }
}

impl<'a, 'b> vstd::std_specs::cmp::PartialEqSpecImpl<Signature<'b>> for Signature<'a> {
    open spec fn obeys_eq_spec() -> bool {
        true
    }

    open spec fn eq_spec(&self, other: &Signature<'b>) -> bool {
        self@ == other@
    }
}

impl<'a> View for Signature<'a> {
    type V = SignatureView;

    open spec fn view(&self) -> SignatureView {
        self.model()
    }
}

/// Whether `text` has the shape of a parametrized type: an `L`, and a `<`
/// somewhere after it.
pub open spec fn is_parametrized(text: Seq<u8>) -> bool {
    text.len() > 0 && text[0] == OBJECT && find(text.skip(1), ARGS_START) < text.len() - 1
}

/// The grammar of signatures: the signature that `text` begins with and the
/// rest that is handed on, or the reason why there is none.
///
/// A text of parametrized shape is a name up to the first `<`, then type
/// arguments up to the first position where a `>` stands in place of one.
/// What is left from that `>` on must end with `>;`, and is handed on
/// without these two bytes. Any other text is a plain descriptor.
pub open spec fn parse_signature(text: Seq<u8>) -> Result<(SignatureView, Seq<u8>), DescriptorError>
    decreases text.len(), 0nat,
{
    if is_parametrized(text) {
        let open = find(text.skip(1), ARGS_START);
        proof {
            lemma_find(text.skip(1), ARGS_START);
        }
        match parse_arguments(text.skip(open + 2)) {
            Ok((args, rest)) => if ends_with_pair(rest, ARGS_END, NAME_END) {
                Ok(
                    (
                        SignatureView::Parametrized(text.subrange(1, open + 1), args),
                        rest.take(rest.len() - 2),
                    ),
                )
            } else {
                Err(DescriptorError::MismatchedChar('>'))
            },
            Err(e) => Err(e),
        }
    } else {
        match parse_descriptor(text) {
            Ok((d, rest)) => Ok((SignatureView::Descriptor(d), rest)),
            Err(e) => Err(e),
        }
    }
}

/// A list of type arguments: signatures up to the first position where a
/// `>` stands in place of one. The rest begins with that `>`.
///
/// Every signature reads at least one byte (`lemma_signature_consumes`), so
/// the test on the length of the rest never fails; it is there to show that
/// the definition is well founded.
pub open spec fn parse_arguments(text: Seq<u8>) -> Result<
    (Seq<SignatureView>, Seq<u8>),
    DescriptorError,
>
    decreases text.len(), 1nat,
{
    if text.len() > 0 && text[0] == ARGS_END {
        Ok((Seq::empty(), text))
    } else {
        match parse_signature(text) {
            Ok((arg, rest)) => if rest.len() < text.len() {
                prepend(seq![arg], parse_arguments(rest))
            } else {
                Err(DescriptorError::EndOfInput)
            },
            Err(e) => Err(e),
        }
    }
}

/// The signature at the start of `text`; the rest is not looked at.
pub open spec fn signature_of(text: Seq<u8>) -> Result<SignatureView, DescriptorError> {
    match parse_signature(text) {
        Ok((s, _)) => Ok(s),
        Err(e) => Err(e),
    }
}

/// A list of type arguments that parses leaves a rest that begins with `>`
/// and is no longer than the text.
pub proof fn lemma_arguments_end(text: Seq<u8>)
    ensures
        parse_arguments(text) matches Ok((_, rest)) ==> 0 < rest.len() <= text.len() && rest[0]
            == ARGS_END,
    decreases text.len(),
{
    if !(text.len() > 0 && text[0] == ARGS_END) {
        if let Ok((_, rest)) = parse_signature(text) {
            if rest.len() < text.len() {
                lemma_arguments_end(rest);
            }
        }
    }
}

/// A signature that parses reads at least one byte.
pub proof fn lemma_signature_consumes(text: Seq<u8>)
    ensures
        parse_signature(text) matches Ok((_, rest)) ==> rest.len() < text.len(),
{
    if is_parametrized(text) {
        let open = find(text.skip(1), ARGS_START);
        lemma_find(text.skip(1), ARGS_START);
        lemma_arguments_end(text.skip(open + 2));
    } else {
        lemma_parse_consumes(text);
    }
}

/// What a run of the parser on `text` must hand back.
pub open spec fn consumed<'a>(
    r: Result<(Signature<'a>, &'a str), DescriptorError>,
    text: Seq<u8>,
) -> bool {
    match parse_signature(text) {
        Ok((s, rest)) => r matches Ok((x, y)) && x@ == s && y.spec_bytes() == rest,
        Err(e) => r matches Err(x) && x == e,
    }
}

impl<'a> Signature<'a> {
    /// Reads the signature at the start of `text`.
    pub fn parse(text: &'a str) -> (r: Result<Signature<'a>, DescriptorError>)
        ensures
            match signature_of(text.spec_bytes()) {
                Ok(s) => r matches Ok(x) && x@ == s,
                Err(e) => r matches Err(x) && x == e,
            },
    {
        match Signature::consume(text) {
            Ok((s, _)) => Ok(s),
            Err(e) => Err(e),
        }
    }

    /// Reads the signature at the start of `text` and hands back the rest.
    pub fn consume(text: &'a str) -> (r: Result<(Signature<'a>, &'a str), DescriptorError>)
        ensures
            consumed(r, text.spec_bytes()),
        decreases text.spec_bytes().len(),
    {
        if starts_with_byte(text, OBJECT) {
            let body = skip_ascii(text);
            if let Some(open) = find_byte(body, ARGS_START) {
                proof {
                    encode_utf8_valid_utf8(body@);
                    lemma_boundary_at_ascii(body.spec_bytes(), open as int);
                }
                let (name, tail) = cut(body, open);
                let mut rem = skip_ascii(tail);
                let ghost start = rem.spec_bytes();
                assert(start =~= text.spec_bytes().skip(open + 2));
                assert(name.spec_bytes() =~= text.spec_bytes().subrange(1, open + 1));
                let mut args: Vec<Signature<'a>> = Vec::new();
                proof {
                    if let Ok((items, _)) = parse_arguments(start) {
                        assert(Seq::<SignatureView>::empty() + items =~= items);
                    }
                    assert(signature_views(args@) =~= Seq::empty());
                }
                while !starts_with_byte(rem, ARGS_END)
                    invariant
                        is_parametrized(text.spec_bytes()),
                        open == find(text.spec_bytes().skip(1), ARGS_START),
                        start == text.spec_bytes().skip(open + 2),
                        rem.spec_bytes().len() <= start.len(),
                        parse_arguments(start) == prepend(
                            signature_views(args@),
                            parse_arguments(rem.spec_bytes()),
                        ),
                    decreases rem.spec_bytes().len(),
                {
                    let ghost before = signature_views(args@);
                    match Signature::consume(rem) {
                        Ok((arg, rest)) => {
                            proof {
                                lemma_signature_consumes(rem.spec_bytes());
                                lemma_prepend_step(
                                    before,
                                    arg@,
                                    parse_arguments(rest.spec_bytes()),
                                );
                            }
                            args.push(arg);
                            rem = rest;
                            assert(signature_views(args@) =~= before.push(arg@));
                        },
                        Err(e) => {
                            return Err(e);
                        },
                    }
                }
                proof {
                    assert(signature_views(args@) + Seq::<SignatureView>::empty()
                        =~= signature_views(args@));
                }
                return match strip_pair(rem, ARGS_END, NAME_END) {
                    Some(rest) => {
                        proof {
                            Signature::lemma_parametrized(name, args);
                        }
                        Ok((Signature::Parametrized(name, args), rest))
                    },
                    None => Err(DescriptorError::MismatchedChar('>')),
                };
            }
        }
        match Descriptor::consume(text) {
            Ok((d, rest)) => Ok((Signature::Descriptor(d), rest)),
            Err(e) => Err(e),
        }
    }
}

} // verus!
