//! Stand-ins for well-known classes of the Java platform, each with the
//! descriptor of its object type.

use vstd::prelude::*;
use vstd::string::*;

use crate::descriptor::{Descriptor, DescriptorView};
use crate::pat::HasDescriptor;

verus! {

/// Stands for the class `java/lang/Boolean`.
pub struct Boolean;

impl HasDescriptor for Boolean {
    open spec fn descriptor_view() -> DescriptorView {
        DescriptorView::Object("java/lang/Boolean".spec_bytes())
    }

    fn descriptor() -> (d: Descriptor<'static>) {
        Descriptor::Object("java/lang/Boolean")
    }
}

/// Stands for the class `java/lang/Byte`.
pub struct Byte;

impl HasDescriptor for Byte {
    open spec fn descriptor_view() -> DescriptorView {
        DescriptorView::Object("java/lang/Byte".spec_bytes())
    }

    fn descriptor() -> (d: Descriptor<'static>) {
        Descriptor::Object("java/lang/Byte")
    }
}

/// Stands for the class `java/lang/Short`.
pub struct Short;

impl HasDescriptor for Short {
    open spec fn descriptor_view() -> DescriptorView {
        DescriptorView::Object("java/lang/Short".spec_bytes())
    }

    fn descriptor() -> (d: Descriptor<'static>) {
        Descriptor::Object("java/lang/Short")
    }
}

/// Stands for the class `java/lang/Integer`.
pub struct Integer;

impl HasDescriptor for Integer {
    open spec fn descriptor_view() -> DescriptorView {
        DescriptorView::Object("java/lang/Integer".spec_bytes())
    }

    fn descriptor() -> (d: Descriptor<'static>) {
        Descriptor::Object("java/lang/Integer")
    }
}

/// Stands for the class `java/lang/Long`.
pub struct Long;

impl HasDescriptor for Long {
    open spec fn descriptor_view() -> DescriptorView {
        DescriptorView::Object("java/lang/Long".spec_bytes())
    }

    fn descriptor() -> (d: Descriptor<'static>) {
        Descriptor::Object("java/lang/Long")
    }
}

/// Stands for the class `java/lang/Float`.
pub struct Float;

impl HasDescriptor for Float {
    open spec fn descriptor_view() -> DescriptorView {
        DescriptorView::Object("java/lang/Float".spec_bytes())
    }

    fn descriptor() -> (d: Descriptor<'static>) {
        Descriptor::Object("java/lang/Float")
    }
}

/// Stands for the class `java/lang/Double`.
pub struct Double;

impl HasDescriptor for Double {
    open spec fn descriptor_view() -> DescriptorView {
        DescriptorView::Object("java/lang/Double".spec_bytes())
    }

    fn descriptor() -> (d: Descriptor<'static>) {
        Descriptor::Object("java/lang/Double")
    }
}

/// Stands for the class `java/lang/Character`.
pub struct Character;

impl HasDescriptor for Character {
    open spec fn descriptor_view() -> DescriptorView {
        DescriptorView::Object("java/lang/Character".spec_bytes())
    }

    fn descriptor() -> (d: Descriptor<'static>) {
        Descriptor::Object("java/lang/Character")
    }
}

/// Stands for the class `java/lang/Iterable`.
pub struct Iterable;

impl HasDescriptor for Iterable {
    open spec fn descriptor_view() -> DescriptorView {
        DescriptorView::Object("java/lang/Iterable".spec_bytes())
    }

    fn descriptor() -> (d: Descriptor<'static>) {
        Descriptor::Object("java/lang/Iterable")
    }
}

/// Stands for the class `java/lang/Runnable`.
pub struct Runnable;

impl HasDescriptor for Runnable {
    open spec fn descriptor_view() -> DescriptorView {
        DescriptorView::Object("java/lang/Runnable".spec_bytes())
    }

    fn descriptor() -> (d: Descriptor<'static>) {
        Descriptor::Object("java/lang/Runnable")
    }
}

/// Stands for the class `java/lang/Object`.
pub struct Object;

impl HasDescriptor for Object {
    open spec fn descriptor_view() -> DescriptorView {
        DescriptorView::Object("java/lang/Object".spec_bytes())
    }

    fn descriptor() -> (d: Descriptor<'static>) {
        Descriptor::Object("java/lang/Object")
    }
}

/// Stands for the class `java/lang/Throwable`.
pub struct Throwable;

impl HasDescriptor for Throwable {
    open spec fn descriptor_view() -> DescriptorView {
        DescriptorView::Object("java/lang/Throwable".spec_bytes())
    }

    fn descriptor() -> (d: Descriptor<'static>) {
        Descriptor::Object("java/lang/Throwable")
    }
}

/// Stands for the class `java/lang/Thread`.
pub struct Thread;

impl HasDescriptor for Thread {
    open spec fn descriptor_view() -> DescriptorView {
        DescriptorView::Object("java/lang/Thread".spec_bytes())
    }

    fn descriptor() -> (d: Descriptor<'static>) {
        Descriptor::Object("java/lang/Thread")
    }
}

/// Stands for the class `java/util/List`.
pub struct List;

impl HasDescriptor for List {
    open spec fn descriptor_view() -> DescriptorView {
        DescriptorView::Object("java/util/List".spec_bytes())
    }

    fn descriptor() -> (d: Descriptor<'static>) {
        Descriptor::Object("java/util/List")
    }
}

/// Stands for the class `java/util/Collection`.
pub struct Collection;

impl HasDescriptor for Collection {
    open spec fn descriptor_view() -> DescriptorView {
        DescriptorView::Object("java/util/Collection".spec_bytes())
    }

    fn descriptor() -> (d: Descriptor<'static>) {
        Descriptor::Object("java/util/Collection")
    }
}

} // verus!
