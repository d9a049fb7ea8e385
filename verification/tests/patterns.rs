use jars::java;
use jars::{
    check_class, check_type, find_pattern, Any, ClassPat, ClassRecord, Descriptor, HasDescriptor,
    HasTypePat, MemberPat, MemberRecord, TypePat,
};

const PUBLIC: u16 = 0x0001;
const PRIVATE: u16 = 0x0002;
const STATIC: u16 = 0x0008;
const FINAL: u16 = 0x0010;
const SUPER: u16 = 0x0020;
const INTERFACE: u16 = 0x0200;
const ABSTRACT: u16 = 0x0400;

fn member(access_flags: u16, descriptor: &str) -> MemberRecord {
    MemberRecord { access_flags, descriptor: descriptor.to_string() }
}

fn class(
    access_flags: u16,
    super_class: Option<&str>,
    interfaces: &[&str],
    methods: Vec<MemberRecord>,
    fields: Vec<MemberRecord>,
) -> ClassRecord {
    ClassRecord {
        access_flags,
        this_class: "a/A".to_string(),
        super_class: super_class.map(|name| name.to_string()),
        interfaces: interfaces.iter().map(|name| name.to_string()).collect(),
        methods,
        fields,
    }
}

fn method(flags: u16, param_types: Vec<TypePat>, ret_type: TypePat) -> MemberPat {
    MemberPat::Method { flags, param_types, ret_type }
}

fn field(flags: u16, field_type: TypePat) -> MemberPat {
    MemberPat::Field { flags, field_type }
}

fn sample_class() -> ClassRecord {
    class(
        PUBLIC | ABSTRACT | SUPER,
        Some("java/lang/Object"),
        &[],
        vec![
            member(PUBLIC, "(Ljava/lang/String;)V"),
            member(PUBLIC | STATIC, "(Ljava/lang/String;)I"),
            member(PRIVATE | FINAL, "([BLjava/lang/Object;)V"),
        ],
        vec![member(PRIVATE, "J")],
    )
}

fn sample_pattern() -> ClassPat {
    ClassPat::default()
        .public()
        .abstract_()
        .with(method(PUBLIC, vec![<String as HasTypePat>::pattern()], <() as HasTypePat>::pattern()))
        .with(field(PRIVATE, <i64 as HasTypePat>::pattern()))
        .with(method(
            PUBLIC | STATIC,
            vec![<String as HasTypePat>::pattern()],
            <i32 as HasTypePat>::pattern(),
        ))
        .with(method(
            PRIVATE,
            vec![<Any as HasTypePat>::pattern(), <java::Object as HasTypePat>::pattern()],
            <() as HasTypePat>::pattern(),
        ))
}

#[test]
fn class_name_is_the_name_of_an_object_pattern() {
    assert_eq!(TypePat::Match(Descriptor::Object("a/B")).class_name(), Some("a/B"));
    assert_eq!(TypePat::Match(Descriptor::Integer).class_name(), None);
    assert_eq!(
        TypePat::Match(Descriptor::Array(Descriptor::Object("a/B").into())).class_name(),
        None
    );
    assert_eq!(TypePat::Any.class_name(), None);
    assert_eq!(TypePat::Void.class_name(), None);
}

#[test]
fn stand_ins_give_their_descriptors() {
    assert_eq!(<bool as HasDescriptor>::descriptor(), Descriptor::Boolean);
    assert_eq!(<i8 as HasDescriptor>::descriptor(), Descriptor::Byte);
    assert_eq!(<i16 as HasDescriptor>::descriptor(), Descriptor::Short);
    assert_eq!(<i32 as HasDescriptor>::descriptor(), Descriptor::Integer);
    assert_eq!(<i64 as HasDescriptor>::descriptor(), Descriptor::Long);
    assert_eq!(<char as HasDescriptor>::descriptor(), Descriptor::Char);
    assert_eq!(<String as HasDescriptor>::descriptor(), Descriptor::Object("java/lang/String"));
    assert_eq!(
        <&[i32] as HasDescriptor>::descriptor(),
        Descriptor::Array(Descriptor::Integer.into())
    );
    assert_eq!(<java::Boolean as HasDescriptor>::descriptor(), Descriptor::Object("java/lang/Boolean"));
    assert_eq!(<java::Byte as HasDescriptor>::descriptor(), Descriptor::Object("java/lang/Byte"));
    assert_eq!(<java::Short as HasDescriptor>::descriptor(), Descriptor::Object("java/lang/Short"));
    assert_eq!(<java::Integer as HasDescriptor>::descriptor(), Descriptor::Object("java/lang/Integer"));
    assert_eq!(<java::Long as HasDescriptor>::descriptor(), Descriptor::Object("java/lang/Long"));
    assert_eq!(<java::Float as HasDescriptor>::descriptor(), Descriptor::Object("java/lang/Float"));
    assert_eq!(<java::Double as HasDescriptor>::descriptor(), Descriptor::Object("java/lang/Double"));
    assert_eq!(
        <java::Character as HasDescriptor>::descriptor(),
        Descriptor::Object("java/lang/Character")
    );
    assert_eq!(<java::Iterable as HasDescriptor>::descriptor(), Descriptor::Object("java/lang/Iterable"));
    assert_eq!(<java::Runnable as HasDescriptor>::descriptor(), Descriptor::Object("java/lang/Runnable"));
    assert_eq!(<java::Object as HasDescriptor>::descriptor(), Descriptor::Object("java/lang/Object"));
    assert_eq!(
        <java::Throwable as HasDescriptor>::descriptor(),
        Descriptor::Object("java/lang/Throwable")
    );
    assert_eq!(<java::Thread as HasDescriptor>::descriptor(), Descriptor::Object("java/lang/Thread"));
    assert_eq!(<java::List as HasDescriptor>::descriptor(), Descriptor::Object("java/util/List"));
    assert_eq!(
        <java::Collection as HasDescriptor>::descriptor(),
        Descriptor::Object("java/util/Collection")
    );
}

#[test]
fn stand_ins_give_their_patterns() {
    assert!(matches!(<Any as HasTypePat>::pattern(), TypePat::Any));
    assert!(matches!(<() as HasTypePat>::pattern(), TypePat::Void));
    assert!(matches!(<i32 as HasTypePat>::pattern(), TypePat::Match(Descriptor::Integer)));
    assert!(matches!(
        <java::List as HasTypePat>::pattern(),
        TypePat::Match(Descriptor::Object("java/util/List"))
    ));
}

#[test]
fn type_patterns_match_by_structure() {
    let list = Descriptor::Object("java/util/List");
    assert_eq!(check_type(&list, &TypePat::Any), Some(()));
    assert_eq!(check_type(&list, &TypePat::Void), None);
    assert_eq!(check_type(&list, &TypePat::Match(Descriptor::Object("java/util/List"))), Some(()));
    assert_eq!(check_type(&list, &TypePat::Match(Descriptor::Object("java/util/Set"))), None);
    let nested = Descriptor::Array(Descriptor::Array(Descriptor::Integer.into()).into());
    assert_eq!(
        check_type(&nested, &TypePat::Match(Descriptor::Array(Descriptor::Integer.into()))),
        None
    );
    assert_eq!(check_type(&nested, &TypePat::Match(nested.clone())), Some(()));
}

#[test]
fn a_class_with_exactly_the_members_of_the_pattern_matches() {
    assert_eq!(check_class(&sample_class(), &sample_pattern()), Some(()));
}

#[test]
fn an_extra_method_or_field_breaks_the_match() {
    let mut with_method = sample_class();
    with_method.methods.push(member(PUBLIC, "()V"));
    assert_eq!(check_class(&with_method, &sample_pattern()), None);

    let mut with_field = sample_class();
    with_field.fields.push(member(PUBLIC, "I"));
    assert_eq!(check_class(&with_field, &sample_pattern()), None);
}

#[test]
fn a_missing_member_breaks_the_match() {
    let mut fewer_methods = sample_class();
    fewer_methods.methods.pop();
    assert_eq!(check_class(&fewer_methods, &sample_pattern()), None);

    let mut no_fields = sample_class();
    no_fields.fields.clear();
    assert_eq!(check_class(&no_fields, &sample_pattern()), None);
}

#[test]
fn members_are_matched_in_their_order() {
    let mut swapped = sample_class();
    swapped.methods.swap(0, 1);
    assert_eq!(check_class(&swapped, &sample_pattern()), None);
}

#[test]
fn flags_of_the_pattern_must_all_be_there() {
    let any = ClassPat::default();
    let plain = class(SUPER, None, &[], vec![], vec![]);
    assert_eq!(check_class(&plain, &any), Some(()));
    assert_eq!(check_class(&plain, &ClassPat::default().public()), None);
    assert_eq!(check_class(&plain, &ClassPat::interface()), None);

    let rich = class(PUBLIC | FINAL | SUPER, None, &[], vec![], vec![]);
    assert_eq!(check_class(&rich, &ClassPat::default().public()), Some(()));
    assert_eq!(check_class(&rich, &ClassPat::default().public().final_()), Some(()));
    assert_eq!(check_class(&rich, &ClassPat::default().public().abstract_()), None);

    let iface = class(PUBLIC | INTERFACE | ABSTRACT, Some("java/lang/Object"), &[], vec![], vec![]);
    assert_eq!(check_class(&iface, &ClassPat::interface()), Some(()));
    assert_eq!(check_class(&iface, &ClassPat::interface().abstract_()), Some(()));

    let loud = class(0, None, &[], vec![member(PUBLIC, "()V")], vec![member(PRIVATE, "I")]);
    let quiet_method = ClassPat::default()
        .with(method(PUBLIC | STATIC, vec![], TypePat::Void))
        .with(field(PRIVATE, TypePat::Any));
    assert_eq!(check_class(&loud, &quiet_method), None);
    let quiet_field = ClassPat::default()
        .with(method(PUBLIC, vec![], TypePat::Void))
        .with(field(PRIVATE | FINAL, TypePat::Any));
    assert_eq!(check_class(&loud, &quiet_field), None);
}

#[test]
fn the_superclass_follows_the_base_pattern() {
    let none = class(0, None, &[], vec![], vec![]);
    let object = class(0, Some("java/lang/Object"), &[], vec![], vec![]);
    let thread = class(0, Some("java/lang/Thread"), &[], vec![], vec![]);

    let no_base = ClassPat::default();
    assert_eq!(check_class(&none, &no_base), Some(()));
    assert_eq!(check_class(&object, &no_base), Some(()));
    assert_eq!(check_class(&thread, &no_base), None);

    let any_base = ClassPat::default().with_base(TypePat::Any);
    assert_eq!(check_class(&none, &any_base), None);
    assert_eq!(check_class(&object, &any_base), Some(()));
    assert_eq!(check_class(&thread, &any_base), Some(()));

    let thread_base = ClassPat::default().with_base(<java::Thread as HasTypePat>::pattern());
    assert_eq!(check_class(&none, &thread_base), None);
    assert_eq!(check_class(&object, &thread_base), None);
    assert_eq!(check_class(&thread, &thread_base), Some(()));

    let void_base = ClassPat::default().with_base(TypePat::Void);
    assert_eq!(check_class(&thread, &void_base), None);
    let int_base = ClassPat::default().with_base(TypePat::Match(Descriptor::Integer));
    assert_eq!(check_class(&thread, &int_base), None);
}

#[test]
fn interfaces_are_a_prefix_by_position() {
    let both = class(0, None, &["java/lang/Runnable", "java/lang/Iterable"], vec![], vec![]);
    let runnable = <java::Runnable as HasTypePat>::pattern;
    let iterable = <java::Iterable as HasTypePat>::pattern;

    assert_eq!(check_class(&both, &ClassPat::default()), Some(()));
    assert_eq!(check_class(&both, &ClassPat::default().with_impl(runnable())), Some(()));
    assert_eq!(
        check_class(&both, &ClassPat::default().with_impl(runnable()).with_impl(iterable())),
        Some(())
    );
    assert_eq!(check_class(&both, &ClassPat::default().with_impl(iterable())), None);
    assert_eq!(
        check_class(
            &both,
            &ClassPat::default().with_impl(runnable()).with_impl(iterable()).with_impl(runnable())
        ),
        None
    );
    assert_eq!(check_class(&both, &ClassPat::default().with_impl(TypePat::Any)), None);
}

#[test]
fn return_types_tell_void_from_any() {
    let returns_nothing = class(0, None, &[], vec![member(0, "()V")], vec![]);
    let returns_int = class(0, None, &[], vec![member(0, "()I")], vec![]);

    let wants_void = ClassPat::default().with(method(0, vec![], TypePat::Void));
    let wants_any = ClassPat::default().with(method(0, vec![], TypePat::Any));
    let wants_int = ClassPat::default().with(method(0, vec![], TypePat::Match(Descriptor::Integer)));

    assert_eq!(check_class(&returns_nothing, &wants_void), Some(()));
    assert_eq!(check_class(&returns_nothing, &wants_any), None);
    assert_eq!(check_class(&returns_nothing, &wants_int), None);
    assert_eq!(check_class(&returns_int, &wants_void), None);
    assert_eq!(check_class(&returns_int, &wants_any), Some(()));
    assert_eq!(check_class(&returns_int, &wants_int), Some(()));
}

#[test]
fn parameters_are_counted_and_compared() {
    let two = class(0, None, &[], vec![member(0, "(I[J)V")], vec![]);
    let pat = |params: Vec<TypePat>| ClassPat::default().with(method(0, params, TypePat::Void));

    assert_eq!(check_class(&two, &pat(vec![TypePat::Any, TypePat::Any])), Some(()));
    assert_eq!(
        check_class(&two, &pat(vec![<i32 as HasTypePat>::pattern(), <&[i64] as HasTypePat>::pattern()])),
        Some(())
    );
    assert_eq!(check_class(&two, &pat(vec![TypePat::Any])), None);
    assert_eq!(check_class(&two, &pat(vec![TypePat::Any, TypePat::Any, TypePat::Any])), None);
    assert_eq!(
        check_class(&two, &pat(vec![<&[i64] as HasTypePat>::pattern(), <i32 as HasTypePat>::pattern()])),
        None
    );
    assert_eq!(check_class(&two, &pat(vec![TypePat::Any, TypePat::Void])), None);
}

#[test]
fn members_with_unreadable_descriptors_match_nothing() {
    let broken_method = class(0, None, &[], vec![member(0, "I)V")], vec![]);
    assert_eq!(
        check_class(&broken_method, &ClassPat::default().with(method(0, vec![], TypePat::Void))),
        None
    );
    let broken_field = class(0, None, &[], vec![], vec![member(0, "La/B")]);
    assert_eq!(
        check_class(&broken_field, &ClassPat::default().with(field(0, TypePat::Any))),
        None
    );
}

#[test]
fn the_first_matching_pattern_is_found() {
    let pats = [
        ClassPat::default().public(),
        ClassPat::default(),
        ClassPat::default().with_base(TypePat::Any),
    ];
    let public = class(PUBLIC, None, &[], vec![], vec![]);
    let hidden = class(0, None, &[], vec![], vec![]);
    let child = class(0, Some("a/B"), &[], vec![], vec![]);
    let odd = class(0, Some("a/B"), &[], vec![member(0, "()V")], vec![]);

    assert_eq!(find_pattern(&public, &pats), Some(0));
    assert_eq!(find_pattern(&hidden, &pats), Some(1));
    assert_eq!(find_pattern(&child, &pats), Some(2));
    assert_eq!(find_pattern(&odd, &pats), None);
    assert_eq!(find_pattern(&hidden, &[]), None);
}
