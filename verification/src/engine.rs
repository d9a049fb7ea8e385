//! The match engine: whether one class has the structure that a class
//! pattern asks for.

use vstd::prelude::*;
use vstd::string::*;

use crate::class::{ClassRecord, ClassRecordView, MemberRecord, MemberRecordView};
use crate::descriptor::{descriptor_of, Descriptor, DescriptorError, DescriptorView};
use crate::method::{method_descriptor_of, MethodDescriptor};
use crate::pat::{
    member_pat_views, named_class, type_pat_views, ClassPat, ClassPatView, MemberPat,
    MemberPatView, TypePat, TypePatView,
};
use crate::text::{same_text, string_bytes};

verus! {

/// Whether every flag bit of `required` is set in `actual`.
pub open spec fn flags_contain(actual: u16, required: u16) -> bool {
    actual & required == required
}

/// Whether a type is what a pattern asks for. `Void` matches no type.
pub open spec fn type_matches(d: DescriptorView, pat: TypePatView) -> bool {
    match pat {
        TypePatView::Any => true,
        TypePatView::Void => false,
        TypePatView::Match(expected) => d == expected,
    }
}

/// Whether a return type is what a pattern asks for: no return type
/// matches `Void` alone, a return type matches as any type does.
pub open spec fn return_matches(ret: Option<DescriptorView>, pat: TypePatView) -> bool {
    match ret {
        None => pat is Void,
        Some(d) => type_matches(d, pat),
    }
}

/// Whether a method has the flags, the number and types of parameters and
/// the return type that a method pattern asks for.
pub open spec fn method_matches(
    method: MemberRecordView,
    flags: u16,
    param_types: Seq<TypePatView>,
    ret_type: TypePatView,
) -> bool {
    &&& flags_contain(method.access_flags, flags)
    &&& method_descriptor_of(method.descriptor) matches Ok(d)
    &&& d.param_types.len() == param_types.len()
    &&& return_matches(d.return_type, ret_type)
    &&& forall|i: int|
        0 <= i < param_types.len() ==> type_matches(#[trigger] d.param_types[i], param_types[i])
}

/// Whether a field has the flags and the type that a field pattern asks for.
pub open spec fn field_matches(field: MemberRecordView, flags: u16, field_type: TypePatView) -> bool {
    &&& flags_contain(field.access_flags, flags)
    &&& descriptor_of(field.descriptor) matches Ok(d)
    &&& type_matches(d, field_type)
}

/// Whether a member is what a member pattern of its kind asks for.
pub open spec fn member_matches(member: MemberRecordView, pat: MemberPatView) -> bool {
    match pat {
        MemberPatView::Method { flags, param_types, ret_type } => method_matches(
            member,
            flags,
            param_types,
            ret_type,
        ),
        MemberPatView::Field { flags, field_type } => field_matches(member, flags, field_type),
    }
}

/// The method patterns among member patterns, in their order.
pub open spec fn method_pats(members: Seq<MemberPatView>) -> Seq<MemberPatView> {
    members.filter(|m: MemberPatView| m is Method)
}

/// The field patterns among member patterns, in their order.
pub open spec fn field_pats(members: Seq<MemberPatView>) -> Seq<MemberPatView> {
    members.filter(|m: MemberPatView| m is Field)
}

/// Whether there is one member for each pattern, and each member, by its
/// position, is what the pattern at that position asks for.
pub open spec fn members_match(members: Seq<MemberRecordView>, pats: Seq<MemberPatView>) -> bool {
    &&& members.len() == pats.len()
    &&& forall|i: int| 0 <= i < pats.len() ==> member_matches(#[trigger] members[i], pats[i])
}

/// Whether a superclass is what the pattern asks for. Without a pattern the
/// class has no superclass or `java/lang/Object`; `Any` takes any superclass
/// that is there; a pattern for an object type takes that name alone.
pub open spec fn base_matches(super_class: Option<Seq<u8>>, base: Option<TypePatView>) -> bool {
    match (base, super_class) {
        (None, None) => true,
        (None, Some(name)) => name == "java/lang/Object".spec_bytes(),
        (Some(TypePatView::Any), Some(_)) => true,
        (Some(pat), Some(name)) => named_class(pat) == Some(name),
        (Some(_), None) => false,
    }
}

/// Whether the first interfaces of a class are, by position, the ones that
/// the patterns name. Further interfaces are free.
pub open spec fn impls_match(interfaces: Seq<Seq<u8>>, impls: Seq<TypePatView>) -> bool {
    &&& impls.len() <= interfaces.len()
    &&& forall|i: int|
        0 <= i < impls.len() ==> named_class(#[trigger] impls[i]) == Some(interfaces[i])
}

/// Whether a class has the structure that a pattern asks for: the flags,
/// the superclass, the first interfaces, and exactly the methods and the
/// fields of the pattern, each kind in the order of the pattern.
pub open spec fn class_matches(class: ClassRecordView, pat: ClassPatView) -> bool {
    &&& flags_contain(class.access_flags, pat.flags)
    &&& base_matches(class.super_class, pat.base)
    &&& impls_match(class.interfaces, pat.impls)
    &&& members_match(class.methods, method_pats(pat.members))
    &&& members_match(class.fields, field_pats(pat.members))
}

/// A class with the flags, superclass and first interfaces of a pattern,
/// and with exactly its methods and its fields in its order, matches it.
pub proof fn lemma_exact_class_matches(class: ClassRecordView, pat: ClassPatView)
    requires
        flags_contain(class.access_flags, pat.flags),
        base_matches(class.super_class, pat.base),
        impls_match(class.interfaces, pat.impls),
        class.methods.len() == method_pats(pat.members).len(),
        class.fields.len() == field_pats(pat.members).len(),
        forall|i: int|
            0 <= i < class.methods.len() ==> member_matches(
                #[trigger] class.methods[i],
                method_pats(pat.members)[i],
            ),
        forall|i: int|
            0 <= i < class.fields.len() ==> member_matches(
                #[trigger] class.fields[i],
                field_pats(pat.members)[i],
            ),
    ensures
        class_matches(class, pat),
{
}

/// A class that matches a pattern no longer matches it with one more method.
pub proof fn lemma_extra_method_breaks_match(
    class: ClassRecordView,
    pat: ClassPatView,
    extra: MemberRecordView,
)
    requires
        class_matches(class, pat),
    ensures
        !class_matches(ClassRecordView { methods: class.methods.push(extra), ..class }, pat),
{
}

/// A class that matches a pattern no longer matches it with one more field.
pub proof fn lemma_extra_field_breaks_match(
    class: ClassRecordView,
    pat: ClassPatView,
    extra: MemberRecordView,
)
    requires
        class_matches(class, pat),
    ensures
        !class_matches(ClassRecordView { fields: class.fields.push(extra), ..class }, pat),
{
}

/// Whether `actual` holds every flag of `required`.
pub fn has_flags(actual: u16, required: u16) -> (r: bool)
    ensures
        r == flags_contain(actual, required),
{
    actual & required == required
}

/// Checks a type against a type pattern.
pub fn check_type(descriptor: &Descriptor<'_>, pat: &TypePat) -> (r: Option<()>)
    ensures
        r is Some <==> type_matches(descriptor@, pat@),
{
    match pat {
        TypePat::Any => Some(()),
        TypePat::Match(expected) => if descriptor.equals(expected) {
            Some(())
        } else {
            None
        },
        TypePat::Void => None,
    }
}

/// Checks a method against the parts of a method pattern.
pub fn check_method(
    method: &MemberRecord,
    flags: u16,
    param_types: &Vec<TypePat>,
    ret_type: &TypePat,
) -> (r: Option<()>)
    ensures
        r is Some <==> method_matches(method@, flags, type_pat_views(param_types@), ret_type@),
{
    if !has_flags(method.access_flags, flags) {
        return None;
    }
    let descriptor = match MethodDescriptor::parse(method.descriptor.as_str()) {
        Ok(d) => d,
        Err(_) => {
            return None;
        },
    };
    if descriptor.param_types.len() != param_types.len() {
        return None;
    }
    match &descriptor.return_type {
        None => {
            if let TypePat::Void = ret_type {
            } else {
                return None;
            }
        },
        Some(ty) => {
            if check_type(ty, ret_type).is_none() {
                return None;
            }
        },
    }
    let mut i: usize = 0;
    while i < param_types.len()
        invariant
            i <= param_types.len(),
            descriptor.param_types.len() == param_types.len(),
            method_descriptor_of(method@.descriptor) == Ok::<_, DescriptorError>(descriptor@),
            flags_contain(method@.access_flags, flags),
            return_matches(descriptor@.return_type, ret_type@),
            forall|j: int|
                0 <= j < i ==> type_matches(
                    #[trigger] descriptor@.param_types[j],
                    type_pat_views(param_types@)[j],
                ),
        decreases param_types.len() - i,
    {
        if check_type(&descriptor.param_types[i], &param_types[i]).is_none() {
            assert(!type_matches(
                descriptor@.param_types[i as int],
                type_pat_views(param_types@)[i as int],
            ));
            return None;
        }
        i += 1;
    }
    Some(())
}

/// Checks a field against the parts of a field pattern.
pub fn check_field(field: &MemberRecord, flags: u16, field_type: &TypePat) -> (r: Option<()>)
    ensures
        r is Some <==> field_matches(field@, flags, field_type@),
{
    if !has_flags(field.access_flags, flags) {
        return None;
    }
    match Descriptor::parse(field.descriptor.as_str()) {
        Ok(d) => check_type(&d, field_type),
        Err(_) => None,
    }
}

/// The patterns of each kind among the first `k` member patterns are the
/// first patterns of that kind among all of them.
proof fn lemma_pats_prefix(members: Seq<MemberPatView>, k: int)
    requires
        0 <= k <= members.len(),
    ensures
        method_pats(members.take(k)).len() <= method_pats(members).len(),
        field_pats(members.take(k)).len() <= field_pats(members).len(),
        forall|j: int|
            0 <= j < method_pats(members.take(k)).len() ==> method_pats(members)[j]
                == method_pats(members.take(k))[j],
        forall|j: int|
            0 <= j < field_pats(members.take(k)).len() ==> field_pats(members)[j] == field_pats(
                members.take(k),
            )[j],
{
    assert(members =~= members.take(k) + members.skip(k));
    Seq::filter_distributes_over_add(
        members.take(k),
        members.skip(k),
        |m: MemberPatView| m is Method,
    );
    Seq::filter_distributes_over_add(
        members.take(k),
        members.skip(k),
        |m: MemberPatView| m is Field,
    );
}

/// What member pattern `k` adds to the patterns of each kind.
proof fn lemma_pats_step(members: Seq<MemberPatView>, k: int)
    requires
        0 <= k < members.len(),
    ensures
        method_pats(members.take(k + 1)) == if members[k] is Method {
            method_pats(members.take(k)).push(members[k])
        } else {
            method_pats(members.take(k))
        },
        field_pats(members.take(k + 1)) == if members[k] is Field {
            field_pats(members.take(k)).push(members[k])
        } else {
            field_pats(members.take(k))
        },
{
    assert(members.take(k + 1) =~= members.take(k).push(members[k]));
    members.take(k).lemma_filter_push(members[k], |m: MemberPatView| m is Method);
    members.take(k).lemma_filter_push(members[k], |m: MemberPatView| m is Field);
}

/// No member pattern, no pattern of either kind.
proof fn lemma_pats_empty()
    ensures
        method_pats(Seq::empty()).len() == 0,
        field_pats(Seq::empty()).len() == 0,
{
    Seq::<MemberPatView>::empty().lemma_filter_len(|m: MemberPatView| m is Method);
    Seq::<MemberPatView>::empty().lemma_filter_len(|m: MemberPatView| m is Field);
}

/// Checks the superclass of a class against the pattern for it.
pub fn check_base(super_class: &Option<String>, base: &Option<TypePat>) -> (r: Option<()>)
    ensures
        r is Some <==> base_matches(
            match *super_class {
                Some(name) => Some(string_bytes(name)),
                None => None,
            },
            match *base {
                Some(p) => Some(p@),
                None => None,
            },
        ),
{
    match (base, super_class) {
        (None, None) => Some(()),
        (None, Some(name)) => if same_text(name.as_str(), "java/lang/Object") {
            Some(())
        } else {
            None
        },
        (Some(TypePat::Any), Some(_)) => Some(()),
        (Some(pat), Some(name)) => match pat.class_name() {
            Some(expected) => if same_text(expected, name.as_str()) {
                Some(())
            } else {
                None
            },
            None => None,
        },
        (Some(_), None) => None,
    }
}

/// Checks a class against a class pattern.
///
/// The methods and the fields of the class are read in their order, each
/// kind by a position of its own that moves on with every member pattern of
/// that kind; in the end no method and no field may be left over.
pub fn check_class(class: &ClassRecord, pat: &ClassPat) -> (r: Option<()>)
    ensures
        r is Some <==> class_matches(class@, pat@),
{
    if !has_flags(class.access_flags, pat.flags()) {
        return None;
    }
    if check_base(&class.super_class, pat.base()).is_none() {
        return None;
    }
    let impls = pat.impls();
    let mut i: usize = 0;
    while i < impls.len()
        invariant
            i <= impls.len(),
            type_pat_views(impls@) == pat@.impls,
            i <= class.interfaces.len(),
            forall|j: int|
                0 <= j < i ==> named_class(#[trigger] pat@.impls[j]) == Some(class@.interfaces[j]),
        decreases impls.len() - i,
    {
        if i >= class.interfaces.len() {
            return None;
        }
        let expected = match impls[i].class_name() {
            Some(name) => name,
            None => {
                assert(named_class(pat@.impls[i as int]) is None);
                return None;
            },
        };
        if !same_text(class.interfaces[i].as_str(), expected) {
            assert(named_class(pat@.impls[i as int]) != Some(class@.interfaces[i as int]));
            return None;
        }
        i += 1;
    }
    let members = pat.members();
    let ghost all = pat@.members;
    let mut next_method: usize = 0;
    let mut next_field: usize = 0;
    let mut k: usize = 0;
    proof {
        assert(all.take(0) =~= Seq::empty());
        lemma_pats_empty();
    }
    while k < members.len()
        invariant
            k <= members.len(),
            member_pat_views(members@) == all,
            all == pat@.members,
            next_method == method_pats(all.take(k as int)).len(),
            next_field == field_pats(all.take(k as int)).len(),
            next_method <= class.methods.len(),
            next_field <= class.fields.len(),
            forall|j: int|
                0 <= j < next_method ==> member_matches(
                    #[trigger] class@.methods[j],
                    method_pats(all.take(k as int))[j],
                ),
            forall|j: int|
                0 <= j < next_field ==> member_matches(
                    #[trigger] class@.fields[j],
                    field_pats(all.take(k as int))[j],
                ),
        decreases members.len() - k,
    {
        proof {
            lemma_pats_step(all, k as int);
            lemma_pats_prefix(all, k as int + 1);
        }
        match &members[k] {
            MemberPat::Method { flags, param_types, ret_type } => {
                if next_method >= class.methods.len() {
                    return None;
                }
                if check_method(&class.methods[next_method], *flags, param_types, ret_type).is_none() {
                    assert(!member_matches(class@.methods[next_method as int], all[k as int]));
                    return None;
                }
                next_method += 1;
            },
            MemberPat::Field { flags, field_type } => {
                if next_field >= class.fields.len() {
                    return None;
                }
                if check_field(&class.fields[next_field], *flags, field_type).is_none() {
                    assert(!member_matches(class@.fields[next_field as int], all[k as int]));
                    return None;
                }
                next_field += 1;
            },
        }
        k += 1;
    }
    assert(all.take(k as int) =~= all);
    if next_method < class.methods.len() || next_field < class.fields.len() {
        return None;
    }
    Some(())
}

} // verus!
