//! Method descriptors: the parameter types of a method, in order, and what
//! it returns.

use vstd::prelude::*;
use vstd::string::*;

use crate::descriptor::{
    lemma_parse_consumes, parse_descriptor, Descriptor, DescriptorError, DescriptorView,
};
use crate::text::{skip_ascii, starts_with_byte};

verus! {

/// The byte `(` that opens the parameters of a method.
pub const PARAMS_START: u8 = 0x28;

/// The byte `)` that closes the parameters of a method.
pub const PARAMS_END: u8 = 0x29;

/// The byte `V` that stands for no return value.
pub const VOID: u8 = 0x56;

/// A method descriptor as a mathematical value.
pub struct MethodDescriptorView {
    /// `None` for a method that returns nothing.
    pub return_type: Option<DescriptorView>,
    pub param_types: Seq<DescriptorView>,
}

/// A JVM method descriptor. `return_type` is `None` for `void`.
#[derive(Debug)]
pub struct MethodDescriptor<'a> {
    pub return_type: Option<Descriptor<'a>>,
    pub param_types: Vec<Descriptor<'a>>,
}

/// The values of a run of descriptors.
pub open spec fn descriptor_views<'a>(items: Seq<Descriptor<'a>>) -> Seq<DescriptorView> {
    items.map_values(|d: Descriptor<'a>| d@)
}

impl<'a> View for MethodDescriptor<'a> {
    type V = MethodDescriptorView;

    open spec fn view(&self) -> MethodDescriptorView {
        MethodDescriptorView {
            return_type: match self.return_type {
                Some(d) => Some(d@),
                None => None,
            },
            param_types: descriptor_views(self.param_types@),
        }
    }
}

/// Puts `head` in front of the items of a successful run.
pub open spec fn prepend<T>(
    head: Seq<T>,
    run: Result<(Seq<T>, Seq<u8>), DescriptorError>,
) -> Result<(Seq<T>, Seq<u8>), DescriptorError> {
    match run {
        Ok((items, rest)) => Ok((head + items, rest)),
        Err(e) => Err(e),
    }
}

/// The parameter list of a method: descriptors up to the first position
/// where a `)` stands in place of one. The rest begins with that `)`.
pub open spec fn parse_parameters(text: Seq<u8>) -> Result<
    (Seq<DescriptorView>, Seq<u8>),
    DescriptorError,
>
    decreases text.len(),
{
    if text.len() > 0 && text[0] == PARAMS_END {
        Ok((Seq::empty(), text))
    } else {
        match parse_descriptor(text) {
            Ok((d, rest)) => {
                proof {
                    lemma_parse_consumes(text);
                }
                prepend(seq![d], parse_parameters(rest))
            },
            Err(e) => Err(e),
        }
    }
}

/// The return type that `text` begins with: none where it begins with `V`,
/// else one descriptor.
pub open spec fn parse_return(text: Seq<u8>) -> Result<Option<DescriptorView>, DescriptorError> {
    if text.len() > 0 && text[0] == VOID {
        Ok(None)
    } else {
        match parse_descriptor(text) {
            Ok((d, _)) => Ok(Some(d)),
            Err(e) => Err(e),
        }
    }
}

/// The grammar of method descriptors: `(`, the parameter types, `)`, and
/// the return type. What follows the return type is not looked at.
pub open spec fn method_descriptor_of(text: Seq<u8>) -> Result<
    MethodDescriptorView,
    DescriptorError,
> {
    if text.len() == 0 || text[0] != PARAMS_START {
        Err(DescriptorError::MismatchedChar('('))
    } else {
        match parse_parameters(text.skip(1)) {
            Ok((param_types, rest)) => match parse_return(rest.skip(1)) {
                Ok(return_type) => Ok(MethodDescriptorView { return_type, param_types }),
                Err(e) => Err(e),
            },
            Err(e) => Err(e),
        }
    }
}

/// A parameter list that parses leaves a rest that begins with `)`.
pub proof fn lemma_parameters_end(text: Seq<u8>)
    ensures
        parse_parameters(text) matches Ok((_, rest)) ==> rest.len() > 0 && rest[0] == PARAMS_END,
    decreases text.len(),
{
    if !(text.len() > 0 && text[0] == PARAMS_END) {
        if let Ok((_, rest)) = parse_descriptor(text) {
            lemma_parse_consumes(text);
            lemma_parameters_end(rest);
        }
    }
}

/// Putting `head` in front of a run that begins with `item` is putting
/// `head` with `item` in front of the rest of the run.
pub proof fn lemma_prepend_step<T>(
    head: Seq<T>,
    item: T,
    run: Result<(Seq<T>, Seq<u8>), DescriptorError>,
)
    ensures
        prepend(head, prepend(seq![item], run)) == prepend(head.push(item), run),
{
    if let Ok((items, _)) = run {
        assert(head + (seq![item] + items) =~= head.push(item) + items);
    }
}

impl<'a> MethodDescriptor<'a> {
    /// A method descriptor with the given return and parameter types.
    pub fn new(return_type: Option<Descriptor<'a>>, param_types: Vec<Descriptor<'a>>) -> (r: Self)
        ensures
            r.return_type == return_type,
            r.param_types == param_types,
    {
        MethodDescriptor { return_type, param_types }
    }

    /// Reads a method descriptor from the start of `text`.
    pub fn parse(text: &'a str) -> (r: Result<MethodDescriptor<'a>, DescriptorError>)
        ensures
            match method_descriptor_of(text.spec_bytes()) {
                Ok(m) => r matches Ok(x) && x@ == m,
                Err(e) => r matches Err(x) && x == e,
            },
    {
        if !starts_with_byte(text, PARAMS_START) {
            return Err(DescriptorError::MismatchedChar('('));
        }
        let mut rem = skip_ascii(text);
        let ghost start = rem.spec_bytes();
        let mut params: Vec<Descriptor<'a>> = Vec::new();
        proof {
            let run = parse_parameters(start);
            if let Ok((items, _)) = run {
                assert(Seq::<DescriptorView>::empty() + items =~= items);
            }
            assert(descriptor_views(params@) =~= Seq::empty());
        }
        while !starts_with_byte(rem, PARAMS_END)
            invariant
                text.spec_bytes().len() > 0,
                text.spec_bytes()[0] == PARAMS_START,
                start == text.spec_bytes().skip(1),
                parse_parameters(start) == prepend(
                    descriptor_views(params@),
                    parse_parameters(rem.spec_bytes()),
                ),
            decreases rem.spec_bytes().len(),
        {
            let ghost before = descriptor_views(params@);
            match Descriptor::consume(rem) {
                Ok((d, rest)) => {
                    proof {
                        lemma_parse_consumes(rem.spec_bytes());
                        lemma_prepend_step(before, d@, parse_parameters(rest.spec_bytes()));
                    }
                    params.push(d);
                    rem = rest;
                    assert(descriptor_views(params@) =~= before.push(d@));
                },
                Err(e) => {
                    return Err(e);
                },
            }
        }
        proof {
            assert(descriptor_views(params@) + Seq::<DescriptorView>::empty() =~= descriptor_views(
                params@,
            ));
        }
        rem = skip_ascii(rem);
        let return_type = if starts_with_byte(rem, VOID) {
            None
        } else {
            match Descriptor::consume(rem) {
                Ok((d, _)) => Some(d),
                Err(e) => {
                    return Err(e);
                },
            }
        };
        Ok(MethodDescriptor::new(return_type, params))
    }
}

} // verus!
