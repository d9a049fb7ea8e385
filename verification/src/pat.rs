//! Patterns: what a type, a member and a class must look like to be found.

use vstd::prelude::*;
use vstd::string::*;

use crate::descriptor::{Descriptor, DescriptorView};

verus! {

/// Access flag of a public class.
pub const ACC_PUBLIC: u16 = 0x0001;

/// Access flag of a final class.
pub const ACC_FINAL: u16 = 0x0010;

/// Access flag of an interface.
pub const ACC_INTERFACE: u16 = 0x0200;

/// Access flag of an abstract class.
pub const ACC_ABSTRACT: u16 = 0x0400;

/// A type pattern as a mathematical value.
pub enum TypePatView {
    Any,
    Void,
    Match(DescriptorView),
}

/// A pattern used to match on types.
#[derive(Debug)]
pub enum TypePat {
    /// Matches on any type.
    Any,
    /// Matches on void only.
    Void,
    /// Matches on the given descriptor.
    Match(Descriptor<'static>),
}

impl View for TypePat {
    type V = TypePatView;

    open spec fn view(&self) -> TypePatView {
        match self {
            TypePat::Any => TypePatView::Any,
            TypePat::Void => TypePatView::Void,
            TypePat::Match(d) => TypePatView::Match(d@),
        }
    }
}

/// The values of a run of type patterns.
pub open spec fn type_pat_views(items: Seq<TypePat>) -> Seq<TypePatView> {
    items.map_values(|p: TypePat| p@)
}

/// The class that a pattern names: the name of an exact object type.
pub open spec fn named_class(pat: TypePatView) -> Option<Seq<u8>> {
    match pat {
        TypePatView::Match(DescriptorView::Object(name)) => Some(name),
        _ => None,
    }
}

impl TypePat {
    /// The name of the class that this pattern matches exactly, if it is a
    /// pattern for one object type.
    pub fn class_name(&self) -> (r: Option<&'static str>)
        ensures
            match named_class(self@) {
                Some(name) => r matches Some(x) && x.spec_bytes() == name,
                None => r is None,
            },
    {
        if let TypePat::Match(Descriptor::Object(name)) = self {
            Some(*name)
        } else {
            None
        }
    }
}

/// A member pattern as a mathematical value.
pub enum MemberPatView {
    Method { flags: u16, param_types: Seq<TypePatView>, ret_type: TypePatView },
    Field { flags: u16, field_type: TypePatView },
}

/// A pattern used to match on class members.
#[derive(Debug)]
pub enum MemberPat {
    Method { flags: u16, param_types: Vec<TypePat>, ret_type: TypePat },
    Field { flags: u16, field_type: TypePat },
}

impl View for MemberPat {
    type V = MemberPatView;

    open spec fn view(&self) -> MemberPatView {
        match self {
            MemberPat::Method { flags, param_types, ret_type } => MemberPatView::Method {
                flags: *flags,
                param_types: type_pat_views(param_types@),
                ret_type: ret_type@,
            },
            MemberPat::Field { flags, field_type } => MemberPatView::Field {
                flags: *flags,
                field_type: field_type@,
            },
        }
    }
}

/// The values of a run of member patterns.
pub open spec fn member_pat_views(items: Seq<MemberPat>) -> Seq<MemberPatView> {
    items.map_values(|p: MemberPat| p@)
}

/// A class pattern as a mathematical value.
pub struct ClassPatView {
    /// The access flags that a class must have.
    pub flags: u16,
    /// The members of the class, in the order of their declaration.
    pub members: Seq<MemberPatView>,
    /// What the superclass must be; `None` asks for no superclass of note.
    pub base: Option<TypePatView>,
    /// The first interfaces of the class, in order.
    pub impls: Seq<TypePatView>,
}

impl ClassPatView {
    /// The pattern that asks for nothing.
    pub open spec fn any() -> ClassPatView {
        ClassPatView { flags: 0, members: Seq::empty(), base: None, impls: Seq::empty() }
    }

    /// This pattern, asking for the flags `bits` too.
    pub open spec fn with_flags(self, bits: u16) -> ClassPatView {
        ClassPatView { flags: self.flags | bits, ..self }
    }
}

/// A pattern used to find classes in an archive.
///
/// It is built up step by step and read by reference during a search.
#[derive(Debug)]
pub struct ClassPat {
    pub(crate) flags: u16,
    pub(crate) members: Vec<MemberPat>,
    pub(crate) base: Option<TypePat>,
    pub(crate) impls: Vec<TypePat>,
}

impl View for ClassPat {
    type V = ClassPatView;

    closed spec fn view(&self) -> ClassPatView {
        ClassPatView {
            flags: self.flags,
            members: member_pat_views(self.members@),
            base: match self.base {
                Some(p) => Some(p@),
                None => None,
            },
            impls: type_pat_views(self.impls@),
        }
    }
}

impl ClassPat {
    /// Creates a pattern that matches any interface.
    pub fn interface() -> (r: Self)
        ensures
            r@ == ClassPatView::any().with_flags(ACC_INTERFACE),
    {
        let r = ClassPat { flags: 0 | ACC_INTERFACE, members: Vec::new(), base: None, impls: Vec::new() };
        assert(r@.members =~= Seq::empty());
        assert(r@.impls =~= Seq::empty());
        r
    }

    /// Extends the pattern to match only public classes.
    pub fn public(self) -> (r: Self)
        ensures
            r@ == self@.with_flags(ACC_PUBLIC),
    {
        ClassPat { flags: self.flags | ACC_PUBLIC, ..self }
    }

    /// Extends the pattern to match only final classes.
    pub fn final_(self) -> (r: Self)
        ensures
            r@ == self@.with_flags(ACC_FINAL),
    {
        ClassPat { flags: self.flags | ACC_FINAL, ..self }
    }

    /// Extends the pattern to match only abstract classes.
    pub fn abstract_(self) -> (r: Self)
        ensures
            r@ == self@.with_flags(ACC_ABSTRACT),
    {
        ClassPat { flags: self.flags | ACC_ABSTRACT, ..self }
    }

    /// Sets the pattern that the superclass must match.
    pub fn with_base(self, base: TypePat) -> (r: Self)
        ensures
            r@ == (ClassPatView { base: Some(base@), ..self@ }),
    {
        ClassPat { base: Some(base), ..self }
    }

    /// Adds a pattern for the next interface that the class implements.
    pub fn with_impl(self, interface: TypePat) -> (r: Self)
        ensures
            r@ == (ClassPatView { impls: self@.impls.push(interface@), ..self@ }),
    {
        let mut impls = self.impls;
        impls.push(interface);
        let r = ClassPat { flags: self.flags, members: self.members, base: self.base, impls };
        assert(r@.impls =~= self@.impls.push(interface@));
        r
    }

    /// Adds a pattern for the next member of the class.
    ///
    /// Calls must follow the order in which the class declares its members.
    pub fn with(self, member: MemberPat) -> (r: Self)
        ensures
            r@ == (ClassPatView { members: self@.members.push(member@), ..self@ }),
    {
        let mut members = self.members;
        members.push(member);
        let r = ClassPat { flags: self.flags, members, base: self.base, impls: self.impls };
        assert(r@.members =~= self@.members.push(member@));
        r
    }

    /// The access flags that a class must have.
    pub fn flags(&self) -> (r: u16)
        ensures
            r == self@.flags,
    {
        self.flags
    }

    /// The patterns for the members of the class, in order.
    pub fn members(&self) -> (r: &Vec<MemberPat>)
        ensures
            member_pat_views(r@) == self@.members,
    {
        &self.members
    }

    /// The pattern for the superclass, if one was set.
    pub fn base(&self) -> (r: &Option<TypePat>)
        ensures
            match *r {
                Some(p) => self@.base == Some(p@),
                None => self@.base is None,
            },
    {
        &self.base
    }

    /// The patterns for the first interfaces of the class, in order.
    pub fn impls(&self) -> (r: &Vec<TypePat>)
        ensures
            type_pat_views(r@) == self@.impls,
    {
        &self.impls
    }
}

impl Default for ClassPat {
    /// The pattern that asks for nothing.
    fn default() -> (r: Self)
        ensures
            r@ == ClassPatView::any(),
    {
        let r = ClassPat { flags: 0, members: Vec::new(), base: None, impls: Vec::new() };
        assert(r@.members =~= Seq::empty());
        assert(r@.impls =~= Seq::empty());
        r
    }
}

/// Stands for any type where a type is asked for.
pub struct Any;

/// A type that stands for a fixed descriptor.
pub trait HasDescriptor {
    /// The descriptor that the type stands for.
    spec fn descriptor_view() -> DescriptorView;

    fn descriptor() -> (d: Descriptor<'static>)
        ensures
            d@ == Self::descriptor_view(),
    ;
}

/// A type that stands for a fixed type pattern.
pub trait HasTypePat {
    /// The pattern that the type stands for.
    spec fn pattern_view() -> TypePatView;

    fn pattern() -> (p: TypePat)
        ensures
            p@ == Self::pattern_view(),
    ;
}

impl<A: HasDescriptor> HasTypePat for A {
    open spec fn pattern_view() -> TypePatView {
        TypePatView::Match(A::descriptor_view())
    }

    fn pattern() -> (p: TypePat) {
        TypePat::Match(A::descriptor())
    }
}

impl HasTypePat for Any {
    open spec fn pattern_view() -> TypePatView {
        TypePatView::Any
    }

    fn pattern() -> (p: TypePat) {
        TypePat::Any
    }
}

impl HasTypePat for () {
    open spec fn pattern_view() -> TypePatView {
        TypePatView::Void
    }

    fn pattern() -> (p: TypePat) {
        TypePat::Void
    }
}

impl<A: HasDescriptor> HasDescriptor for &[A] {
    open spec fn descriptor_view() -> DescriptorView {
        DescriptorView::Array(Box::new(A::descriptor_view()))
    }

    fn descriptor() -> (d: Descriptor<'static>) {
        Descriptor::Array(Box::new(A::descriptor()))
    }
}

impl HasDescriptor for bool {
    open spec fn descriptor_view() -> DescriptorView {
        DescriptorView::Boolean
    }

    fn descriptor() -> (d: Descriptor<'static>) {
        Descriptor::Boolean
    }
}

impl HasDescriptor for i8 {
    open spec fn descriptor_view() -> DescriptorView {
        DescriptorView::Byte
    }

    fn descriptor() -> (d: Descriptor<'static>) {
        Descriptor::Byte
    }
}

impl HasDescriptor for i16 {
    open spec fn descriptor_view() -> DescriptorView {
        DescriptorView::Short
    }

    fn descriptor() -> (d: Descriptor<'static>) {
        Descriptor::Short
    }
}

impl HasDescriptor for i32 {
    open spec fn descriptor_view() -> DescriptorView {
        DescriptorView::Integer
    }

    fn descriptor() -> (d: Descriptor<'static>) {
        Descriptor::Integer
    }
}

impl HasDescriptor for i64 {
    open spec fn descriptor_view() -> DescriptorView {
        DescriptorView::Long
    }

    fn descriptor() -> (d: Descriptor<'static>) {
        Descriptor::Long
    }
}

impl HasDescriptor for char {
    open spec fn descriptor_view() -> DescriptorView {
        DescriptorView::Char
    }

    fn descriptor() -> (d: Descriptor<'static>) {
        Descriptor::Char
    }
}

impl HasDescriptor for String {
    open spec fn descriptor_view() -> DescriptorView {
        DescriptorView::Object("java/lang/String".spec_bytes())
    }

    fn descriptor() -> (d: Descriptor<'static>) {
        Descriptor::Object("java/lang/String")
    }
}

} // verus!
